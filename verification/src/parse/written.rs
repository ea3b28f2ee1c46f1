//! How keys, values and operators are written, and the tokens such text is
//! read as.
//!
//! A key or a value is written either quoted (`"..."`, with `\` escaping the
//! byte after it) or unquoted (a raw string of `[A-Za-z0-9_./]`, with `-` and
//! `:` allowed inside). Read back, either gives one value token standing for
//! the string it was written for, with escapes resolved.
use vstd::prelude::*;

use crate::ext::escape::{lemma_unescape_plain, unescape};
use crate::parse::ast::{token_string, AstOp};
use crate::parse::lex::{
    escaped_end, is_raw_edge, is_raw_inner, is_ws, match_at, next_token, plain_end, raw_run_end,
    raw_trim, escaped_raw_scan, ws_end, BinaryOpKind, SuffixUnaryOpKind, Token, TokenKind, ValueKind, BACKSLASH, QUOTE,
};

verus! {

/// A key or value as written: quoted, with the bytes between the quotes, or
/// unquoted.
pub enum StringForm {
    Quoted(Seq<u8>),
    Unquoted(Seq<u8>),
}

/// The bytes between the quotes are whole units (a byte other than `"` and
/// `\`, or `\` and any byte); an unquoted string starts and ends with a byte
/// of `[A-Za-z0-9_./]` and holds only those, `-` and `:`.
pub open spec fn form_ok(f: StringForm) -> bool {
    match f {
        StringForm::Quoted(q) => escaped_end(q, 0) == q.len(),
        StringForm::Unquoted(u) => {
            &&& u.len() >= 1
            &&& is_raw_edge(u[0])
            &&& is_raw_edge(u.last())
            &&& forall|i: int| 0 <= i < u.len() ==> is_raw_inner(#[trigger] u[i])
        },
    }
}

/// The bytes a key or value is written as.
pub open spec fn form_text(f: StringForm) -> Seq<u8> {
    match f {
        StringForm::Quoted(q) => seq![QUOTE] + q + seq![QUOTE],
        StringForm::Unquoted(u) => u,
    }
}

/// The string a written key or value stands for.
pub open spec fn form_string(f: StringForm) -> Seq<u8> {
    match f {
        StringForm::Quoted(q) => unescape(q),
        StringForm::Unquoted(u) => unescape(u),
    }
}

/// Every byte of `w` is whitespace.
pub open spec fn all_ws(w: Seq<u8>) -> bool {
    forall|i: int| 0 <= i < w.len() ==> is_ws(#[trigger] w[i])
}

/// The operators that take a value: `=`, `:=`, `+=`, `-=`.
pub open spec fn op_text(k: BinaryOpKind) -> Seq<u8> {
    match k {
        BinaryOpKind::Assign => seq![61u8],
        BinaryOpKind::AssignIfUndefined => seq![58u8, 61],
        BinaryOpKind::Add => seq![43u8, 61],
        BinaryOpKind::Remove => seq![45u8, 61],
        BinaryOpKind::Group => seq![58u8],
    }
}

/// The operation an operator gives a value.
pub open spec fn op_of(k: BinaryOpKind, v: Seq<u8>) -> AstOp {
    match k {
        BinaryOpKind::AssignIfUndefined => AstOp::AssignIfUndefined(v),
        BinaryOpKind::Add => AstOp::Add(v),
        BinaryOpKind::Remove => AstOp::Remove(v),
        _ => AstOp::Assign(v),
    }
}

// ---------------------------------------------------------------------------
// Reading single tokens

/// A run of `n` whitespace bytes at `p`, followed by no whitespace, ends at
/// `p + n`.
pub(crate) proof fn lemma_ws_end_run(s: Seq<u8>, p: int, n: int)
    requires
        0 <= p,
        0 <= n,
        p + n <= s.len(),
        forall|i: int| p <= i < p + n ==> is_ws(#[trigger] s[i]),
        p + n == s.len() || !is_ws(s[p + n]),
    ensures
        ws_end(s, p) == p + n,
    decreases n,
{
    if n > 0 {
        lemma_ws_end_run(s, p + 1, n - 1);
    }
}

/// Raw-string bytes from `p` to `e`: the run from `p` ends where the run
/// from `e` ends.
proof fn lemma_raw_run(s: Seq<u8>, p: int, e: int)
    requires
        0 <= p <= e <= s.len(),
        forall|i: int| p <= i < e ==> is_raw_inner(#[trigger] s[i]),
    ensures
        raw_run_end(s, p) == raw_run_end(s, e),
    decreases e - p,
{
    if p < e {
        lemma_raw_run(s, p + 1, e);
    }
}

/// Scanning raw-string bytes from `i` to `e`, the last of them an edge
/// byte, ends as scanning from `e` with `e` as the end so far.
proof fn lemma_scan_run(s: Seq<u8>, i: int, last: int, e: int)
    requires
        0 <= last <= i <= e <= s.len(),
        0 < e,
        forall|j: int| i <= j < e ==> is_raw_inner(#[trigger] s[j]),
        is_raw_edge(s[e - 1]),
        i < e || last == e,
    ensures
        escaped_raw_scan(s, i, last) == escaped_raw_scan(s, e, e),
    decreases e - i,
{
    if i < e {
        assert(is_raw_inner(s[i]));
        lemma_scan_run(s, i + 1, if is_raw_edge(s[i]) { i + 1 } else { last }, e);
    }
}

/// An unquoted string at `p`, followed by the end of the buffer, a byte
/// that cannot continue it, or a `-` or `:` and then such a byte, is read as
/// one raw-string token.
proof fn lemma_unquoted_token(s: Seq<u8>, p: int, u: Seq<u8>)
    requires
        s.len() <= usize::MAX,
        form_ok(StringForm::Unquoted(u)),
        0 <= p,
        p + u.len() <= s.len(),
        s.subrange(p, p + u.len()) == u,
        ends_string_at(s, p + u.len()),
    ensures
        next_token(s, p) == (Token {
            kind: TokenKind::Value(ValueKind::String),
            start: p as usize,
            end: (p + u.len()) as usize,
        }),
        token_string(s, next_token(s, p)) == unescape(u),
{
    let e = p + u.len();
    assert forall|i: int| p <= i < e implies is_raw_inner(#[trigger] s[i]) by {
        assert(s[i] == u[i - p]);
    }
    lemma_raw_run(s, p, e);
    assert(s[e - 1] == u.last());
    assert(s[p] == u[0]);
    let r = raw_run_end(s, p);
    if e < s.len() && is_raw_inner(s[e]) {
        assert(raw_run_end(s, e + 1) == e + 1);
        assert(r == e + 1);
        assert(raw_trim(s, p, e) == e);
        assert(raw_trim(s, p, r) == e);
    } else {
        assert(r == e);
    }
    lemma_scan_run(s, p + 1, p + 1, e);
    if e < s.len() && is_raw_inner(s[e]) {
        assert(escaped_raw_scan(s, e + 1, e) == e);
    }
    assert(escaped_raw_scan(s, p + 1, p + 1) == e);
    assert(match_at(s, p) == Some((TokenKind::Value(ValueKind::String), e)));
    assert forall|i: int| 0 <= i < u.len() implies u[i] != BACKSLASH by {
        assert(is_raw_inner(u[i]));
    }
    lemma_unescape_plain(u);
    assert(s.subrange(p, e) == u);
}

/// Whether `q` holds a backslash.
pub open spec fn has_backslash(q: Seq<u8>) -> bool {
    exists|i: int| 0 <= i < q.len() && q[i] == BACKSLASH
}

/// Quoted-string units read inside the buffer end where they end in `q`.
proof fn lemma_escaped_end_shift(s: Seq<u8>, p: int, q: Seq<u8>, i: int)
    requires
        0 <= p,
        0 <= i <= q.len(),
        p + q.len() < s.len(),
        s.subrange(p, p + q.len()) == q,
        s[p + q.len()] == QUOTE,
        escaped_end(q, i) == q.len(),
    ensures
        escaped_end(s, p + i) == p + q.len(),
    decreases q.len() - i,
{
    if i < q.len() {
        assert(s[p + i] == q[i]);
        if q[i] != QUOTE && q[i] != BACKSLASH {
            lemma_escaped_end_shift(s, p, q, i + 1);
        } else if i + 1 < q.len() && q[i] == BACKSLASH {
            lemma_escaped_end_shift(s, p, q, i + 2);
        } else {
            assert(escaped_end(q, i) == i);
        }
    }
}

/// Inside the buffer, the first quote or backslash of `q` from `i` on is
/// found where `q` has it, or at the closing quote.
proof fn lemma_plain_end_shift(s: Seq<u8>, p: int, q: Seq<u8>, i: int)
    requires
        0 <= p,
        0 <= i <= q.len(),
        p + q.len() < s.len(),
        s.subrange(p, p + q.len()) == q,
        s[p + q.len()] == QUOTE,
        escaped_end(q, i) == q.len(),
    ensures
        plain_end(s, p + i) < s.len(),
        has_backslash(q.subrange(i, q.len() as int)) ==> s[plain_end(s, p + i)] == BACKSLASH,
        !has_backslash(q.subrange(i, q.len() as int)) ==> plain_end(s, p + i) == p + q.len(),
    decreases q.len() - i,
{
    let rest = q.subrange(i, q.len() as int);
    if i < q.len() {
        assert(s[p + i] == q[i]);
        if q[i] != QUOTE && q[i] != BACKSLASH {
            lemma_plain_end_shift(s, p, q, i + 1);
            let rest1 = q.subrange(i + 1, q.len() as int);
            if has_backslash(rest) {
                let j = choose|j: int| 0 <= j < rest.len() && rest[j] == BACKSLASH;
                assert(j != 0);
                assert(rest1[j - 1] == BACKSLASH);
            }
            if has_backslash(rest1) {
                let j = choose|j: int| 0 <= j < rest1.len() && rest1[j] == BACKSLASH;
                assert(rest[j + 1] == BACKSLASH);
            }
        } else if q[i] == BACKSLASH {
            assert(rest[0] == BACKSLASH);
        } else {
            assert(escaped_end(q, i) == i);
        }
    } else {
        assert(rest.len() == 0);
    }
}

/// A quoted string at `p` is read as one quoted-string token, whose string
/// is the bytes between the quotes with escapes resolved.
pub(crate) proof fn lemma_quoted_token(s: Seq<u8>, p: int, q: Seq<u8>)
    requires
        s.len() <= usize::MAX,
        form_ok(StringForm::Quoted(q)),
        0 <= p,
        p + q.len() + 2 <= s.len(),
        s.subrange(p, p + q.len() + 2) == form_text(StringForm::Quoted(q)),
    ensures
        next_token(s, p).kind is Value,
        next_token(s, p).start == p,
        next_token(s, p).end == p + q.len() + 2,
        token_string(s, next_token(s, p)) == unescape(q),
{
    let t = form_text(StringForm::Quoted(q));
    assert(s[p] == t[0]);
    assert(s[p + q.len() + 1] == t[q.len() + 1int]);
    assert(s.subrange(p + 1, p + 1 + q.len()) =~= q) by {
        assert forall|i: int| 0 <= i < q.len() implies s.subrange(p + 1, p + 1 + q.len())[i] == q[i] by {
            assert(s[p + 1 + i] == t[1 + i]);
        }
    }
    lemma_plain_end_shift(s, p + 1, q, 0);
    lemma_escaped_end_shift(s, p + 1, q, 0);
    assert(q.subrange(0, q.len() as int) =~= q);
    if has_backslash(q) {
        assert(match_at(s, p) == Some(
            (TokenKind::Value(ValueKind::QEString), p + q.len() + 2),
        ));
    } else {
        assert(match_at(s, p) == Some((TokenKind::Value(ValueKind::QString), p + q.len() + 2)));
        assert forall|i: int| 0 <= i < q.len() implies q[i] != BACKSLASH by {
            if q[i] == BACKSLASH {
                assert(has_backslash(q));
            }
        }
        lemma_unescape_plain(q);
    }
}


/// An operator that takes a value, written at `p`, is read as one token.
pub(crate) proof fn lemma_op_token(s: Seq<u8>, p: int, k: BinaryOpKind)
    requires
        s.len() <= usize::MAX,
        k != BinaryOpKind::Group,
        0 <= p,
        p + op_text(k).len() <= s.len(),
        s.subrange(p, p + op_text(k).len()) == op_text(k),
    ensures
        next_token(s, p) == (Token {
            kind: TokenKind::BinaryOp(k),
            start: p as usize,
            end: (p + op_text(k).len()) as usize,
        }),
{
    let t = op_text(k);
    assert(s[p] == t[0]);
    if t.len() == 2 {
        assert(s[p + 1] == t[1]);
    }
}

/// A key or value written at `p`, followed by what cannot continue it, is
/// read as one value token standing for its string.
pub(crate) proof fn lemma_form_token(s: Seq<u8>, p: int, f: StringForm)
    requires
        s.len() <= usize::MAX,
        form_ok(f),
        0 <= p,
        p + form_text(f).len() <= s.len(),
        s.subrange(p, p + form_text(f).len()) == form_text(f),
        f is Quoted || ends_string_at(s, p + form_text(f).len()),
    ensures
        next_token(s, p).kind is Value,
        next_token(s, p).start == p,
        next_token(s, p).end == p + form_text(f).len(),
        token_string(s, next_token(s, p)) == form_string(f),
{
    match f {
        StringForm::Quoted(q) => lemma_quoted_token(s, p, q),
        StringForm::Unquoted(u) => lemma_unquoted_token(s, p, u),
    }
}

/// A key or value text is never empty, and starts with a byte that is no
/// whitespace.
pub(crate) proof fn lemma_form_text_start(f: StringForm)
    requires
        form_ok(f),
    ensures
        form_text(f).len() >= 1,
        !is_ws(form_text(f)[0]),
{
}

/// What may follow an unquoted key or value without running into it: the
/// end of the buffer, a byte that cannot continue it (no raw-string byte and
/// no backslash), or `-`/`:` before such a byte.
pub open spec fn ends_string_at(s: Seq<u8>, e: int) -> bool {
    ||| e == s.len()
    ||| !is_raw_inner(s[e]) && s[e] != BACKSLASH
    ||| !is_raw_edge(s[e]) && s[e] != BACKSLASH && (e + 1 == s.len() || !is_raw_inner(s[e + 1])
        && s[e + 1] != BACKSLASH)
}

// ---------------------------------------------------------------------------
// Suffix operators

/// The suffix operators: `!` and `!!`.
pub open spec fn suffix_text(r: SuffixUnaryOpKind) -> Seq<u8> {
    match r {
        SuffixUnaryOpKind::Reset => seq![33u8],
        SuffixUnaryOpKind::Clear => seq![33u8, 33],
    }
}

/// The operation a suffix operator stands for.
pub open spec fn suffix_of(r: SuffixUnaryOpKind) -> AstOp {
    match r {
        SuffixUnaryOpKind::Reset => AstOp::Reset,
        SuffixUnaryOpKind::Clear => AstOp::Clear,
    }
}

} // verus!
