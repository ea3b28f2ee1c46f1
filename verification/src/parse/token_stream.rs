//! Token streams as written: the text of each token, one after another, and
//! what reading such text gives back.
use vstd::prelude::*;

use crate::parse::document::{lemma_split, lemma_tok_end, lemma_tok_start, lemma_tok_step, tok_at};
use crate::parse::lex::{
    escaped_end, escaped_raw_scan, is_raw_edge, is_raw_inner, is_ws, line_end, match_at,
    next_token, tokenize_spec, ws_end, BinaryOpKind, SuffixUnaryOpKind, Token, TokenKind,
    BACKSLASH, NEWLINE, QUOTE,
};
use crate::parse::written::{
    all_ws, ends_string_at, form_ok, form_text, lemma_op_token, lemma_quoted_token,
    lemma_ws_end_run, op_text, suffix_text, StringForm,
};

verus! {

/// A token as written.
pub enum WrittenToken {
    /// A run of whitespace.
    Whitespace(Seq<u8>),
    /// A quoted string, with the bytes between the quotes.
    Quoted(Seq<u8>),
    /// A raw string, escapes included.
    Raw(Seq<u8>),
    BinaryOp(BinaryOpKind),
    SuffixUnaryOp(SuffixUnaryOpKind),
    GroupingOpen,
    GroupingClose,
    Terminator,
    /// A comment, with the bytes after `#`; it is written ended by a line
    /// feed.
    Comment(Seq<u8>),
}

/// A raw string: a first unit that may start one (a raw-string edge byte,
/// or a backslash and the byte after it), then units (raw-string bytes or
/// escapes) up to its end, the last of them one that may end a raw string
/// (an edge byte or an escape).
pub open spec fn raw_ok(u: Seq<u8>) -> bool {
    &&& u.len() >= 1
    &&& (is_raw_edge(u[0]) || (u[0] == BACKSLASH && u.len() >= 2))
    &&& escaped_raw_scan(u, if is_raw_edge(u[0]) { 1int } else { 2int }, if is_raw_edge(u[0]) {
        1int
    } else {
        2int
    }) == u.len()
}

/// Each token is written as its grammar allows.
pub open spec fn written_token_ok(t: WrittenToken) -> bool {
    match t {
        WrittenToken::Whitespace(w) => w.len() > 0 && all_ws(w),
        WrittenToken::Quoted(q) => form_ok(StringForm::Quoted(q)),
        WrittenToken::Raw(u) => raw_ok(u),
        WrittenToken::Comment(c) => forall|i: int| 0 <= i < c.len() ==> #[trigger] c[i] != NEWLINE,
        _ => true,
    }
}

/// The text of a token.
pub open spec fn token_text(t: WrittenToken) -> Seq<u8> {
    match t {
        WrittenToken::Whitespace(w) => w,
        WrittenToken::Quoted(q) => form_text(StringForm::Quoted(q)),
        WrittenToken::Raw(u) => u,
        WrittenToken::BinaryOp(k) => op_text(k),
        WrittenToken::SuffixUnaryOp(r) => suffix_text(r),
        WrittenToken::GroupingOpen => seq![123u8],
        WrittenToken::GroupingClose => seq![125u8],
        WrittenToken::Terminator => seq![59u8],
        WrittenToken::Comment(c) => seq![35u8] + c + seq![NEWLINE],
    }
}

/// The text of tokens, one after another.
pub open spec fn stream_text(ts: Seq<WrittenToken>) -> Seq<u8>
    decreases ts.len(),
{
    if ts.len() == 0 {
        seq![]
    } else {
        stream_text(ts.drop_last()) + token_text(ts.last())
    }
}

/// Where token `i` starts in the text.
pub open spec fn stream_offset(ts: Seq<WrittenToken>, i: int) -> int {
    stream_text(ts.take(i)).len() as int
}

/// The token was read as the kind of token it was written as.
pub open spec fn read_as(t: WrittenToken, kind: TokenKind) -> bool {
    match t {
        WrittenToken::Whitespace(_) => kind == TokenKind::Whitespace,
        WrittenToken::Quoted(_) => kind is Value,
        WrittenToken::Raw(_) => kind is Value,
        WrittenToken::BinaryOp(k) => kind == TokenKind::BinaryOp(k),
        WrittenToken::SuffixUnaryOp(r) => kind == TokenKind::SuffixUnaryOp(r),
        WrittenToken::GroupingOpen => kind == TokenKind::GroupingOpen,
        WrittenToken::GroupingClose => kind == TokenKind::GroupingClose,
        WrittenToken::Terminator => kind == TokenKind::Terminator,
        WrittenToken::Comment(_) => kind == TokenKind::Comment,
    }
}

/// An operator, binary or suffix.
pub open spec fn is_op(t: WrittenToken) -> bool {
    t is BinaryOp || t is SuffixUnaryOp
}

/// A quoted or raw string.
pub open spec fn is_value(t: WrittenToken) -> bool {
    t is Quoted || t is Raw
}

/// No two tokens run together: whitespace does not follow whitespace, an
/// operator does not follow an operator, a value does not follow a value,
/// and a raw string, `:` and a raw string do not follow one another.
pub open spec fn neighbors_ok(ts: Seq<WrittenToken>) -> bool {
    &&& forall|i: int|
        0 <= i < ts.len() - 1 ==> !(#[trigger] ts[i] is Whitespace && ts[i + 1] is Whitespace)
            && !(is_op(ts[i]) && is_op(ts[i + 1])) && !(is_value(ts[i]) && is_value(ts[i + 1]))
    &&& forall|i: int|
        0 <= i < ts.len() - 2 ==> !(#[trigger] ts[i] is Raw && ts[i + 1] == WrittenToken::BinaryOp(
            BinaryOpKind::Group,
        ) && ts[i + 2] is Raw)
}

// ---------------------------------------------------------------------------
// Where each token stands

/// The text of the first `j + 1` tokens: that of the first `j`, then token
/// `j`.
proof fn lemma_take_text(ts: Seq<WrittenToken>, j: int)
    requires
        0 <= j < ts.len(),
    ensures
        stream_text(ts.take(j + 1)) == stream_text(ts.take(j)) + token_text(ts[j]),
{
    assert(ts.take(j + 1).drop_last() =~= ts.take(j));
    assert(ts.take(j + 1).last() == ts[j]);
}

/// The text of the first `j` tokens starts the text of all of them.
proof fn lemma_prefix_text(ts: Seq<WrittenToken>, j: int)
    requires
        0 <= j <= ts.len(),
    ensures
        stream_text(ts.take(j)).len() <= stream_text(ts).len(),
        stream_text(ts).subrange(0, stream_text(ts.take(j)).len() as int) == stream_text(
            ts.take(j),
        ),
    decreases ts.len() - j,
{
    if j == ts.len() {
        assert(ts.take(j) =~= ts);
        assert(stream_text(ts).subrange(0, stream_text(ts).len() as int) =~= stream_text(ts));
    } else {
        lemma_prefix_text(ts, j + 1);
        lemma_take_text(ts, j);
        let a = stream_text(ts.take(j));
        let b = stream_text(ts.take(j + 1));
        assert(b.subrange(0, a.len() as int) =~= a);
        assert(stream_text(ts).subrange(0, a.len() as int) =~= b.subrange(0, a.len() as int));
    }
}

/// Token `k` stands between its offset and the next one.
proof fn lemma_token_bytes(ts: Seq<WrittenToken>, k: int)
    requires
        0 <= k < ts.len(),
    ensures
        stream_offset(ts, k + 1) == stream_offset(ts, k) + token_text(ts[k]).len(),
        stream_offset(ts, k + 1) <= stream_text(ts).len(),
        stream_text(ts).subrange(stream_offset(ts, k), stream_offset(ts, k + 1)) == token_text(
            ts[k],
        ),
{
    lemma_take_text(ts, k);
    lemma_prefix_text(ts, k + 1);
    let s = stream_text(ts);
    let b = stream_text(ts.take(k + 1));
    let p = stream_offset(ts, k);
    let q = stream_offset(ts, k + 1);
    assert(s.subrange(p, q) =~= b.subrange(p, q));
    assert(b.subrange(p, q) =~= token_text(ts[k]));
}

/// The first token starts the text, the last one ends it.
proof fn lemma_offset_ends(ts: Seq<WrittenToken>)
    ensures
        stream_offset(ts, 0) == 0,
        stream_offset(ts, ts.len() as int) == stream_text(ts).len(),
{
    assert(ts.take(0) =~= Seq::<WrittenToken>::empty());
    assert(ts.take(ts.len() as int) =~= ts);
}

/// The first byte of a token's text, and what it tells.
proof fn lemma_first_byte(t: WrittenToken)
    requires
        written_token_ok(t),
    ensures
        token_text(t).len() >= 1,
        !(t is Whitespace) ==> !is_ws(token_text(t)[0]),
        token_text(t)[0] == 61 ==> t == WrittenToken::BinaryOp(BinaryOpKind::Assign),
        token_text(t)[0] == 33 ==> t is SuffixUnaryOp,
        (is_raw_inner(token_text(t)[0]) || token_text(t)[0] == BACKSLASH) ==> (t is Raw || t
            == WrittenToken::BinaryOp(BinaryOpKind::Remove) || t == WrittenToken::BinaryOp(
            BinaryOpKind::AssignIfUndefined,
        ) || t == WrittenToken::BinaryOp(BinaryOpKind::Group)),
{
    match t {
        WrittenToken::Comment(c) => {
            assert(token_text(t)[0] == 35u8);
        },
        WrittenToken::Quoted(q) => {
            assert(token_text(t)[0] == QUOTE);
        },
        _ => {},
    }
}

// ---------------------------------------------------------------------------
// Reading single tokens

/// A comment's bytes up to a line feed: the comment ends just after it.
proof fn lemma_line_end_run(s: Seq<u8>, i: int, e: int)
    requires
        0 <= i <= e < s.len(),
        forall|j: int| i <= j < e ==> #[trigger] s[j] != NEWLINE,
        s[e] == NEWLINE,
    ensures
        line_end(s, i) == e + 1,
    decreases e - i,
{
    if i < e {
        assert(s[i] != NEWLINE);
        lemma_line_end_run(s, i + 1, e);
    }
}

/// Where a raw string is not run into, scanning it stops at its end.
proof fn lemma_scan_stops(s: Seq<u8>, e: int, l: int)
    requires
        0 <= e <= s.len(),
        ends_string_at(s, e),
        l <= e,
    ensures
        escaped_raw_scan(s, e, l) == l,
{
    if e < s.len() && is_raw_inner(s[e]) {
        assert(!is_raw_edge(s[e]));
        assert(escaped_raw_scan(s, e + 1, l) == l);
    }
}

/// Scanning a raw string written at `p` ends where it does.
proof fn lemma_raw_scan_shift(s: Seq<u8>, p: int, u: Seq<u8>, i: int, l: int)
    requires
        0 <= p,
        p + u.len() <= s.len(),
        s.subrange(p, p + u.len()) == u,
        0 <= l <= i <= u.len(),
        escaped_raw_scan(u, i, l) == u.len(),
        ends_string_at(s, p + u.len()),
    ensures
        escaped_raw_scan(s, p + i, p + l) == p + u.len(),
    decreases u.len() - i,
{
    if i == u.len() {
        lemma_scan_stops(s, p + u.len(), p + l);
    } else {
        assert(s[p + i] == u[i]);
        if is_raw_inner(u[i]) {
            lemma_raw_scan_shift(s, p, u, i + 1, if is_raw_edge(u[i]) { i + 1 } else { l });
        } else if i + 1 < u.len() && u[i] == BACKSLASH {
            lemma_raw_scan_shift(s, p, u, i + 2, i + 2);
        } else {
            assert(escaped_raw_scan(u, i, l) == l);
        }
    }
}

/// A raw string written at `p`, not run into by what follows, is read as
/// one value token.
proof fn lemma_raw_token(s: Seq<u8>, p: int, u: Seq<u8>)
    requires
        raw_ok(u),
        0 <= p,
        p + u.len() <= s.len(),
        s.subrange(p, p + u.len()) == u,
        ends_string_at(s, p + u.len()),
    ensures
        match_at(s, p) matches Some((k, e)) && k is Value && e == p + u.len(),
{
    assert(s[p] == u[0]);
    if is_raw_edge(u[0]) {
        lemma_raw_scan_shift(s, p, u, 1, 1);
    } else {
        lemma_raw_scan_shift(s, p, u, 2, 2);
    }
}

/// The facts about the bytes right after token `k` that reading it needs.
proof fn lemma_after_token(ts: Seq<WrittenToken>, k: int)
    requires
        forall|i: int| 0 <= i < ts.len() ==> written_token_ok(#[trigger] ts[i]),
        neighbors_ok(ts),
        0 <= k < ts.len(),
    ensures
        ({
            let s = stream_text(ts);
            let e = stream_offset(ts, k + 1);
            &&& e <= s.len()
            &&& (e == s.len() || !is_ws(s[e]) || ts[k + 1] is Whitespace)
            &&& (ts[k] is Whitespace && e < s.len() ==> !is_ws(s[e]))
            &&& (is_op(ts[k]) && e < s.len() ==> s[e] != 61 && s[e] != 33)
            &&& (ts[k] is Raw ==> ends_string_at(s, e))
        }),
{
    let s = stream_text(ts);
    lemma_offset_ends(ts);
    lemma_token_bytes(ts, k);
    let e = stream_offset(ts, k + 1);
    if k + 1 < ts.len() {
        let x = ts[k + 1];
        lemma_token_bytes(ts, k + 1);
        lemma_first_byte(x);
        assert(s[e] == s.subrange(e, stream_offset(ts, k + 2))[0]);
        if ts[k] is Raw && (is_raw_inner(s[e]) || s[e] == BACKSLASH) {
            if x == WrittenToken::BinaryOp(BinaryOpKind::Group) {
                if k + 2 < ts.len() {
                    let y = ts[k + 2];
                    lemma_token_bytes(ts, k + 2);
                    lemma_first_byte(y);
                    assert(s[e + 1] == s.subrange(e + 1, stream_offset(ts, k + 3))[0]);
                } else {
                    lemma_offset_ends(ts);
                }
            } else {
                assert(s[e + 1] == s.subrange(e, stream_offset(ts, k + 2))[1]);
            }
        }
    }
}

/// Token `k`, written at its offset, is read as the token it was written as,
/// and ends where the next one starts.
proof fn lemma_token_read(ts: Seq<WrittenToken>, k: int)
    requires
        forall|i: int| 0 <= i < ts.len() ==> written_token_ok(#[trigger] ts[i]),
        neighbors_ok(ts),
        stream_text(ts).len() <= usize::MAX,
        0 <= k < ts.len(),
    ensures
        read_as(ts[k], next_token(stream_text(ts), stream_offset(ts, k)).kind),
        next_token(stream_text(ts), stream_offset(ts, k)).end == stream_offset(ts, k + 1),
{
    let s = stream_text(ts);
    let p = stream_offset(ts, k);
    let e = stream_offset(ts, k + 1);
    lemma_token_bytes(ts, k);
    lemma_after_token(ts, k);
    lemma_first_byte(ts[k]);
    let t = token_text(ts[k]);
    assert(s[p] == t[0]);
    match ts[k] {
        WrittenToken::Whitespace(w) => {
            assert forall|i: int| p <= i < p + w.len() implies is_ws(#[trigger] s[i]) by {
                assert(s[i] == w[i - p]);
            }
            lemma_ws_end_run(s, p, w.len() as int);
        },
        WrittenToken::Quoted(q) => {
            lemma_quoted_token(s, p, q);
        },
        WrittenToken::Raw(u) => {
            lemma_raw_token(s, p, u);
        },
        WrittenToken::BinaryOp(kk) => {
            if kk != BinaryOpKind::Group {
                lemma_op_token(s, p, kk);
            }
        },
        WrittenToken::SuffixUnaryOp(r) => {
            if r == SuffixUnaryOpKind::Clear {
                assert(s[p + 1] == t[1]);
            }
        },
        WrittenToken::Comment(c) => {
            assert forall|j: int| p + 1 <= j < p + 1 + c.len() implies #[trigger] s[j]
                != NEWLINE by {
                assert(s[j] == t[j - p]);
                assert(t[j - p] == c[j - p - 1]);
            }
            assert(s[p + 1 + c.len()] == t[1 + c.len() as int]);
            lemma_line_end_run(s, p + 1, p + 1 + c.len());
        },
        _ => {},
    }
}

/// Reading the text from token `k` on gives the tokens from `k` on.
proof fn lemma_stream_walk(toks: Seq<Token>, ts: Seq<WrittenToken>, k: int)
    requires
        forall|i: int| 0 <= i < ts.len() ==> written_token_ok(#[trigger] ts[i]),
        neighbors_ok(ts),
        stream_text(ts).len() <= usize::MAX,
        0 <= k <= ts.len(),
        tok_at(toks, stream_text(ts), k, stream_offset(ts, k)),
    ensures
        toks.len() == ts.len(),
        forall|i: int|
            k <= i < ts.len() ==> read_as(ts[i], (#[trigger] toks[i]).kind) && toks[i].start
                == stream_offset(ts, i) && toks[i].end == stream_offset(ts, i + 1),
    decreases ts.len() - k,
{
    let s = stream_text(ts);
    lemma_offset_ends(ts);
    if k == ts.len() {
        lemma_tok_end(toks, s, k);
    } else {
        lemma_token_bytes(ts, k);
        lemma_token_read(ts, k);
        lemma_tok_step(toks, s, k, stream_offset(ts, k));
        crate::parse::lex::lemma_next_token(s, stream_offset(ts, k));
        lemma_stream_walk(toks, ts, k + 1);
    }
}

/// Writing tokens one after another, none running into the next, and
/// reading the text back gives those tokens: one token read for each token
/// written, of the kind it was written as, standing exactly where it was
/// written.
pub proof fn lemma_stream_reads_back(ts: Seq<WrittenToken>)
    requires
        forall|i: int| 0 <= i < ts.len() ==> written_token_ok(#[trigger] ts[i]),
        neighbors_ok(ts),
        stream_text(ts).len() <= usize::MAX,
    ensures
        tokenize_spec(stream_text(ts)).len() == ts.len(),
        forall|i: int|
            0 <= i < ts.len() ==> read_as(ts[i], (#[trigger] tokenize_spec(stream_text(ts))[i]).kind)
                && tokenize_spec(stream_text(ts))[i].start == stream_offset(ts, i)
                && tokenize_spec(stream_text(ts))[i].end == stream_offset(ts, i + 1),
{
    let s = stream_text(ts);
    lemma_tok_start(s);
    lemma_offset_ends(ts);
    lemma_stream_walk(tokenize_spec(s), ts, 0);
}

} // verus!
