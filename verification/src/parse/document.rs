//! Whole documents as written: entries and groups of entries, with the
//! whitespace and terminators around them, and what reading one back gives.
use vstd::prelude::*;

use crate::ext::escape::lemma_unescape_plain;
use crate::parse::ast::{
    ast_of_syn, ast_of_syn_entries, ast_parse_spec, op_value, operation_text, token_string, AstNode, AstOp,
};
use crate::parse::lex::{
    is_raw_edge, is_raw_inner, is_ws, lemma_next_token, match_at, next_token, tokenize_from, tokenize_spec, ws_end, BinaryOpKind,
    SuffixUnaryOpKind, Token, TokenKind, BACKSLASH, QUOTE, escaped_end,
};
use crate::parse::written::{
    all_ws, ends_string_at, form_ok, form_string, form_text, lemma_form_text_start, lemma_form_token,
    lemma_op_token, lemma_ws_end_run, op_of, op_text, suffix_of, suffix_text,
    StringForm,
};
use crate::parse::syn::{
    finish_terminator, is_separator, is_trivia, parse_body_spec, parse_entries_spec,
    parse_entry_spec, skip_separators, skip_trivia, syntax_parse_spec, SynEntry, SyntaxError,
};

verus! {

// ---------------------------------------------------------------------------
// Token positions

/// The tokens of `toks` from index `n` on are those read from byte `p` on.
pub open spec fn tok_at(toks: Seq<Token>, s: Seq<u8>, n: int, p: int) -> bool {
    &&& 0 <= n <= toks.len()
    &&& 0 <= p <= s.len()
    &&& toks.subrange(n, toks.len() as int) == tokenize_from(s, p)
}

/// The tokens of a buffer are those read from its start.
pub(crate) proof fn lemma_tok_start(s: Seq<u8>)
    ensures
        tok_at(tokenize_spec(s), s, 0, 0),
{
    let toks = tokenize_spec(s);
    assert(toks.subrange(0, toks.len() as int) =~= toks);
}

/// Reading one token moves one index on.
pub(crate) proof fn lemma_tok_step(toks: Seq<Token>, s: Seq<u8>, n: int, p: int)
    requires
        s.len() <= usize::MAX,
        tok_at(toks, s, n, p),
        p < s.len(),
    ensures
        n < toks.len(),
        toks[n] == next_token(s, p),
        p < next_token(s, p).end <= s.len(),
        tok_at(toks, s, n + 1, next_token(s, p).end as int),
{
    lemma_next_token(s, p);
    let t = next_token(s, p);
    let rest = toks.subrange(n, toks.len() as int);
    assert(rest == seq![t] + tokenize_from(s, t.end as int));
    assert(rest[0] == toks[n]);
    assert(toks.subrange(n + 1, toks.len() as int) =~= rest.subrange(1, rest.len() as int));
    assert(rest.subrange(1, rest.len() as int) =~= tokenize_from(s, t.end as int));
}

/// At the end of the buffer, no token is left.
pub(crate) proof fn lemma_tok_end(toks: Seq<Token>, s: Seq<u8>, n: int)
    requires
        tok_at(toks, s, n, s.len() as int),
    ensures
        n == toks.len(),
{
    assert(toks.subrange(n, toks.len() as int).len() == 0);
}

/// Bytes that may stand between entries: whitespace and `;`.
pub open spec fn gap_ok(g: Seq<u8>) -> bool {
    forall|i: int| 0 <= i < g.len() ==> is_ws(#[trigger] g[i]) || g[i] == 59
}

/// The bytes of `s` from `p` to `q` may stand between entries.
pub open spec fn gap_between(s: Seq<u8>, p: int, q: int) -> bool {
    forall|i: int| p <= i < q ==> is_ws(#[trigger] s[i]) || s[i] == 59
}

/// A run of whitespace from `p` ends no later than a byte `q` that is no
/// whitespace.
proof fn lemma_ws_end_bound(s: Seq<u8>, p: int, q: int)
    requires
        0 <= p <= q <= s.len(),
        q == s.len() || !is_ws(s[q]),
    ensures
        p <= ws_end(s, p) <= q,
        ws_end(s, p) == s.len() || !is_ws(s[ws_end(s, p)]),
    decreases q - p,
{
    if p < q && is_ws(s[p]) {
        lemma_ws_end_bound(s, p + 1, q);
    }
}

/// Reading bytes that may stand between entries gives separators only.
proof fn lemma_gap(toks: Seq<Token>, s: Seq<u8>, n: int, p: int, q: int) -> (m: int)
    requires
        s.len() <= usize::MAX,
        tok_at(toks, s, n, p),
        p <= q <= s.len(),
        gap_between(s, p, q),
        q == s.len() || !is_ws(s[q]),
    ensures
        n <= m,
        tok_at(toks, s, m, q),
        forall|k: int| n <= k < m ==> is_separator(#[trigger] toks[k]),
    decreases q - p,
{
    if p == q {
        n
    } else {
        lemma_tok_step(toks, s, n, p);
        if is_ws(s[p]) {
            lemma_ws_end_bound(s, p, q);
            assert(match_at(s, p) == Some((TokenKind::Whitespace, ws_end(s, p))));
        } else {
            assert(s[p] == 59);
            assert(match_at(s, p) == Some((TokenKind::Terminator, p + 1)));
        }
        assert(is_separator(toks[n]));
        let e = next_token(s, p).end as int;
        let m = lemma_gap(toks, s, n + 1, e, q);
        m
    }
}

/// Skipping separators over a run of them stops where the run ends.
proof fn lemma_skip_separators_over(toks: Seq<Token>, n: int, m: int)
    requires
        0 <= n <= m <= toks.len(),
        forall|k: int| n <= k < m ==> is_separator(#[trigger] toks[k]),
        m == toks.len() || !is_separator(toks[m]),
    ensures
        skip_separators(toks, n) == m,
    decreases m - n,
{
    if n < m {
        assert(is_separator(toks[n]));
        lemma_skip_separators_over(toks, n + 1, m);
    }
}

/// The body of a group skips separators over a run of them.
proof fn lemma_body_over(toks: Seq<Token>, n: int, m: int, g: Token, acc: Seq<SynEntry>)
    requires
        0 <= n <= m <= toks.len(),
        forall|k: int| n <= k < m ==> is_separator(#[trigger] toks[k]),
    ensures
        parse_body_spec(toks, n, g, acc) == parse_body_spec(toks, m, g, acc),
    decreases m - n,
{
    if n < m {
        assert(is_separator(toks[n]));
        lemma_body_over(toks, n + 1, m, g, acc);
    }
}

/// `s` holds `a + b` at `p`: it holds `a` there and `b` after it.
pub(crate) proof fn lemma_split(s: Seq<u8>, p: int, a: Seq<u8>, b: Seq<u8>)
    requires
        0 <= p,
        p + a.len() + b.len() <= s.len(),
        s.subrange(p, p + a.len() + b.len()) == a + b,
    ensures
        s.subrange(p, p + a.len()) == a,
        s.subrange(p + a.len(), p + a.len() + b.len()) == b,
{
    assert forall|i: int| 0 <= i < a.len() implies s.subrange(p, p + a.len())[i] == a[i] by {
        assert(s[p + i] == s.subrange(p, p + a.len() + b.len())[i]);
    }
    assert forall|i: int| 0 <= i < b.len() implies s.subrange(
        p + a.len(),
        p + a.len() + b.len(),
    )[i] == b[i] by {
        assert(s[p + a.len() + i] == s.subrange(p, p + a.len() + b.len())[a.len() + i]);
    }
    assert(s.subrange(p, p + a.len()) =~= a);
    assert(s.subrange(p + a.len(), p + a.len() + b.len()) =~= b);
}

/// One position, one token index.
proof fn lemma_tok_unique(toks: Seq<Token>, s: Seq<u8>, n: int, m: int, p: int)
    requires
        tok_at(toks, s, n, p),
        tok_at(toks, s, m, p),
    ensures
        n == m,
{
    assert(toks.subrange(n, toks.len() as int).len() == toks.subrange(m, toks.len() as int).len());
}

/// Reading the whitespace `w` at `p` (followed by no whitespace) gives one
/// trivia token, or none where `w` is empty.
pub(crate) proof fn lemma_ws_step(toks: Seq<Token>, s: Seq<u8>, n: int, p: int, w: Seq<u8>) -> (m: int)
    requires
        s.len() <= usize::MAX,
        tok_at(toks, s, n, p),
        all_ws(w),
        p + w.len() <= s.len(),
        s.subrange(p, p + w.len()) == w,
        p + w.len() == s.len() || !is_ws(s[p + w.len()]),
    ensures
        m == if w.len() == 0 { n } else { n + 1 },
        tok_at(toks, s, m, p + w.len()),
        w.len() > 0 ==> is_trivia(toks[n]),
{
    if w.len() == 0 {
        n
    } else {
        assert forall|i: int| p <= i < p + w.len() implies is_ws(#[trigger] s[i]) by {
            assert(s[i] == w[i - p]);
        }
        lemma_ws_end_run(s, p, w.len() as int);
        assert(is_ws(s[p]));
        assert(match_at(s, p) == Some((TokenKind::Whitespace, p + w.len())));
        lemma_tok_step(toks, s, n, p);
        n + 1
    }
}

/// After an entry that ends at `p`, followed by the gap `p..q` and then by a
/// token that is no separator (or the end): where the parser goes on, and
/// what is left of the gap from there.
proof fn lemma_finish(toks: Seq<Token>, s: Seq<u8>, n: int, p: int, q: int) -> (res: (int, int))
    requires
        s.len() <= usize::MAX,
        tok_at(toks, s, n, p),
        p <= q <= s.len(),
        gap_between(s, p, q),
        q == s.len() || !is_separator(next_token(s, q)),
    ensures
        n <= res.0,
        finish_terminator(toks, n).1 == res.0,
        tok_at(toks, s, res.0, res.1),
        p <= res.1 <= q,
        gap_between(s, res.1, q),
{
    if q < s.len() && is_ws(s[q]) {
        assert(match_at(s, q) == Some((TokenKind::Whitespace, ws_end(s, q))));
        assert(false);
    }
    let nq = lemma_gap(toks, s, n, p, q);
    if q < s.len() {
        lemma_tok_step(toks, s, nq, q);
    } else {
        lemma_tok_end(toks, s, nq);
    }
    // the token at nq is no separator, or there is none
    if p == q {
        lemma_tok_unique(toks, s, n, nq, p);
        (nq, q)
    } else if is_ws(s[p]) {
        lemma_tok_step(toks, s, n, p);
        lemma_ws_end_bound(s, p, q);
        assert(match_at(s, p) == Some((TokenKind::Whitespace, ws_end(s, p))));
        let r = ws_end(s, p);
        assert(is_trivia(toks[n]));
        if r == q {
            lemma_tok_unique(toks, s, n + 1, nq, q);
            assert(skip_trivia(toks, n + 1) == n + 1);
            (nq, q)
        } else {
            assert(s[r] == 59);
            lemma_tok_step(toks, s, n + 1, r);
            assert(match_at(s, r) == Some((TokenKind::Terminator, r + 1)));
            assert(skip_trivia(toks, n + 1) == n + 1);
            (n + 2, r + 1)
        }
    } else {
        assert(s[p] == 59);
        lemma_tok_step(toks, s, n, p);
        assert(match_at(s, p) == Some((TokenKind::Terminator, p + 1)));
        (n + 1, p + 1)
    }
}

// ---------------------------------------------------------------------------
// Written documents

/// An entry as written, with the gap (whitespace and `;`) that follows it:
/// `key op value`, `key !` or `key !!`, or `key: { entries }`; `w1` and
/// `w2` are the whitespace around the operator, `lead` the gap just inside
/// the braces.
pub enum WrittenEntry {
    Value {
        key: StringForm,
        w1: Seq<u8>,
        k: BinaryOpKind,
        w2: Seq<u8>,
        value: StringForm,
        trail: Seq<u8>,
    },
    Suffix { key: StringForm, w1: Seq<u8>, r: SuffixUnaryOpKind, trail: Seq<u8> },
    Group {
        key: StringForm,
        w1: Seq<u8>,
        w2: Seq<u8>,
        lead: Seq<u8>,
        body: Seq<WrittenEntry>,
        trail: Seq<u8>,
    },
}

/// The key an entry is written with.
pub open spec fn key_of(e: WrittenEntry) -> StringForm {
    match e {
        WrittenEntry::Value { key, .. } => key,
        WrittenEntry::Suffix { key, .. } => key,
        WrittenEntry::Group { key, .. } => key,
    }
}

/// The gap written after an entry.
pub open spec fn trail_of(e: WrittenEntry) -> Seq<u8> {
    match e {
        WrittenEntry::Value { trail, .. } => trail,
        WrittenEntry::Suffix { trail, .. } => trail,
        WrittenEntry::Group { trail, .. } => trail,
    }
}

/// The entry ends with an unquoted value, which a raw string right after it
/// would run into.
pub open spec fn ends_unquoted(e: WrittenEntry) -> bool {
    e matches WrittenEntry::Value { value: StringForm::Unquoted(_), .. }
}

/// The text of an entry, without the gap after it.
pub open spec fn core_text(e: WrittenEntry) -> Seq<u8>
    decreases e,
{
    match e {
        WrittenEntry::Value { key, w1, k, w2, value, .. } => form_text(key) + w1 + op_text(k) + w2
            + form_text(value),
        WrittenEntry::Suffix { key, w1, r, .. } => form_text(key) + w1 + suffix_text(r),
        WrittenEntry::Group { key, w1, w2, lead, body, .. } => form_text(key) + w1 + seq![58u8]
            + w2 + seq![123u8] + lead + entries_text(body) + seq![125u8],
    }
}

/// The text of entries, each followed by its gap.
pub open spec fn entries_text(es: Seq<WrittenEntry>) -> Seq<u8>
    decreases es,
{
    if es.len() == 0 {
        seq![]
    } else {
        core_text(es[0]) + trail_of(es[0]) + entries_text(es.subrange(1, es.len() as int))
    }
}

/// The AST entry a written entry stands for.
pub open spec fn entry_ast(e: WrittenEntry) -> AstNode
    decreases e,
{
    match e {
        WrittenEntry::Value { key, k, value, .. } => AstNode::Operation {
            key: form_string(key),
            operation: op_of(k, form_string(value)),
        },
        WrittenEntry::Suffix { key, r, .. } => AstNode::Operation {
            key: form_string(key),
            operation: suffix_of(r),
        },
        WrittenEntry::Group { key, body, .. } => AstNode::Group {
            key: form_string(key),
            group: entries_ast(body),
        },
    }
}

/// The AST entries written entries stand for, in order.
pub open spec fn entries_ast(es: Seq<WrittenEntry>) -> Seq<AstNode>
    decreases es,
{
    if es.len() == 0 {
        seq![]
    } else {
        seq![entry_ast(es[0])] + entries_ast(es.subrange(1, es.len() as int))
    }
}

/// Each part is written as its grammar allows.
pub open spec fn entry_ok(e: WrittenEntry) -> bool
    decreases e,
{
    match e {
        WrittenEntry::Value { key, w1, k, w2, value, trail } => {
            &&& form_ok(key)
            &&& all_ws(w1)
            &&& k != BinaryOpKind::Group
            &&& all_ws(w2)
            &&& form_ok(value)
            &&& gap_ok(trail)
        },
        WrittenEntry::Suffix { key, w1, trail, .. } => {
            &&& form_ok(key)
            &&& all_ws(w1)
            &&& gap_ok(trail)
        },
        WrittenEntry::Group { key, w1, w2, lead, body, trail } => {
            &&& form_ok(key)
            &&& all_ws(w1)
            &&& all_ws(w2)
            &&& gap_ok(lead)
            &&& entries_ok(body)
            &&& gap_ok(trail)
        },
    }
}

/// Each entry is written as its grammar allows, and no unquoted value runs
/// into an unquoted key right after it.
pub open spec fn entries_ok(es: Seq<WrittenEntry>) -> bool
    decreases es,
{
    if es.len() == 0 {
        true
    } else {
        &&& entry_ok(es[0])
        &&& entries_ok(es.subrange(1, es.len() as int))
        &&& es.len() >= 2 ==> (trail_of(es[0]).len() > 0 || !ends_unquoted(es[0]) || key_of(
            es[1],
        ) is Quoted)
    }
}

// ---------------------------------------------------------------------------
// Reading written entries

/// A byte an entry or the end of a group starts with: a quote, a raw-string
/// byte or `}`.
pub open spec fn starts_entry_or_close(b: u8) -> bool {
    b == QUOTE || is_raw_edge(b) || b == 125
}

/// What is read at such a byte is no separator, and no suffix operator.
proof fn lemma_start_token(s: Seq<u8>, q: int)
    requires
        0 <= q < s.len(),
        starts_entry_or_close(s[q]),
    ensures
        !is_separator(next_token(s, q)),
        !is_ws(s[q]),
        !is_raw_inner(s[q]) || is_raw_edge(s[q]),
        s[q] != 33,
        s[q] != 61,
{
}

/// The parse of the entry at token `n` succeeds, goes on at token `j`, and
/// stands for `node`.
pub open spec fn entry_read(
    s: Seq<u8>,
    r: Result<(SynEntry, int), SyntaxError>,
    node: AstNode,
    j: int,
) -> bool {
    match r {
        Ok((se, jj)) => jj == j && ast_of_syn(s, se) == node,
        Err(_) => false,
    }
}

/// Reading a key or value written at `p` (and not run into by what follows)
/// gives one value token standing for its string.
proof fn lemma_form_step(toks: Seq<Token>, s: Seq<u8>, n: int, p: int, f: StringForm)
    requires
        s.len() <= usize::MAX,
        tok_at(toks, s, n, p),
        form_ok(f),
        p + form_text(f).len() <= s.len(),
        s.subrange(p, p + form_text(f).len()) == form_text(f),
        f is Quoted || ends_string_at(s, p + form_text(f).len()),
    ensures
        n < toks.len(),
        toks[n].kind is Value,
        token_string(s, toks[n]) == form_string(f),
        tok_at(toks, s, n + 1, p + form_text(f).len()),
{
    lemma_form_text_start(f);
    lemma_form_token(s, p, f);
    lemma_tok_step(toks, s, n, p);
}

/// A key or value text is not empty and starts with a quote or a raw-string
/// edge byte.
proof fn lemma_form_edges(f: StringForm)
    requires
        form_ok(f),
    ensures
        form_text(f).len() >= 1,
        form_text(f)[0] == QUOTE || is_raw_edge(form_text(f)[0]),
{
}

/// The tokens of `key op value` written at `pk`: the key at `nk`, the
/// operator at `n2`, the value at `n4`, with at most one trivia token between
/// each.
proof fn lemma_value_tokens(toks: Seq<Token>, s: Seq<u8>, e: WrittenEntry, nk: int, pk: int) -> (res: (int, int))
    requires
        s.len() <= usize::MAX,
        e is Value,
        entry_ok(e),
        tok_at(toks, s, nk, pk),
        pk + core_text(e).len() <= s.len(),
        s.subrange(pk, pk + core_text(e).len()) == core_text(e),
        ends_unquoted(e) ==> ends_string_at(s, pk + core_text(e).len()),
    ensures
        nk < toks.len(),
        toks[nk].kind is Value,
        token_string(s, toks[nk]) == form_string(e->Value_key),
        res.0 == nk + 1 || (res.0 == nk + 2 && is_trivia(toks[nk + 1])),
        toks[res.0].kind == TokenKind::BinaryOp(e->k),
        res.1 == res.0 + 1 || (res.1 == res.0 + 2 && is_trivia(toks[res.0 + 1])),
        toks[res.1].kind is Value,
        token_string(s, toks[res.1]) == form_string(e->value),
        tok_at(toks, s, res.1 + 1, pk + core_text(e).len()),
{
    let key = e->Value_key;
    let w1 = e->Value_w1;
    let k = e->k;
    let w2 = e->Value_w2;
    let value = e->value;
    let kt = form_text(key);
    let ot = op_text(k);
    let vt = form_text(value);
    lemma_split(s, pk, kt + w1 + ot + w2, vt);
    lemma_split(s, pk, kt + w1 + ot, w2);
    lemma_split(s, pk, kt + w1, ot);
    lemma_split(s, pk, kt, w1);
    let p2 = pk + kt.len();
    let p3 = p2 + w1.len();
    let p4 = p3 + ot.len();
    let p5 = p4 + w2.len();
    let ce = p5 + vt.len();
    lemma_form_edges(key);
    lemma_form_edges(value);
    assert(s[p3] == s.subrange(p3, p4)[0]);
    assert(s[p5] == s.subrange(p5, ce)[0]);
    if w1.len() > 0 {
        assert(s[p2] == s.subrange(p2, p3)[0]);
        assert(is_ws(w1[0]));
    } else if ot.len() == 2 {
        assert(s[p2 + 1] == s.subrange(p3, p4)[1]);
    }
    assert(key is Quoted || ends_string_at(s, p2));
    lemma_form_step(toks, s, nk, pk, key);
    let n2 = lemma_ws_step(toks, s, nk + 1, p2, w1);
    lemma_op_token(s, p3, k);
    lemma_tok_step(toks, s, n2, p3);
    let n4 = lemma_ws_step(toks, s, n2 + 1, p4, w2);
    lemma_form_step(toks, s, n4, p5, value);
    (n2, n4)
}

/// Reading `key op value`, followed by the gap `..q` and then an entry, a
/// `}` or the end.
proof fn lemma_core_value(toks: Seq<Token>, s: Seq<u8>, e: WrittenEntry, nk: int, pk: int, q: int) -> (res: (int, int))
    requires
        s.len() <= usize::MAX,
        e is Value,
        entry_ok(e),
        tok_at(toks, s, nk, pk),
        pk + core_text(e).len() <= q <= s.len(),
        s.subrange(pk, pk + core_text(e).len()) == core_text(e),
        gap_between(s, pk + core_text(e).len(), q),
        q == s.len() || starts_entry_or_close(s[q]),
        ends_unquoted(e) ==> ends_string_at(s, pk + core_text(e).len()),
    ensures
        nk < toks.len(),
        toks[nk].kind is Value,
        nk < res.0,
        tok_at(toks, s, res.0, res.1),
        pk + core_text(e).len() <= res.1 <= q,
        gap_between(s, res.1, q),
        entry_read(s, parse_entry_spec(toks, nk), entry_ast(e), res.0),
{
    let (n2, n4) = lemma_value_tokens(toks, s, e, nk, pk);
    if q < s.len() {
        lemma_start_token(s, q);
    }
    let res = lemma_finish(toks, s, n4 + 1, pk + core_text(e).len(), q);
    assert(!is_separator(toks[nk]));
    assert(skip_separators(toks, nk) == nk);
    assert(skip_trivia(toks, n2) == n2);
    assert(skip_trivia(toks, nk + 1) == n2);
    assert(skip_trivia(toks, n4) == n4);
    assert(skip_trivia(toks, n2 + 1) == n4);
    res
}

/// Reading `key !` or `key !!`, followed by the gap `..q` and then an
/// entry, a `}` or the end.
proof fn lemma_core_suffix(toks: Seq<Token>, s: Seq<u8>, e: WrittenEntry, nk: int, pk: int, q: int) -> (res: (int, int))
    requires
        s.len() <= usize::MAX,
        e is Suffix,
        entry_ok(e),
        tok_at(toks, s, nk, pk),
        pk + core_text(e).len() <= q <= s.len(),
        s.subrange(pk, pk + core_text(e).len()) == core_text(e),
        gap_between(s, pk + core_text(e).len(), q),
        q == s.len() || starts_entry_or_close(s[q]),
    ensures
        nk < toks.len(),
        toks[nk].kind is Value,
        nk < res.0,
        tok_at(toks, s, res.0, res.1),
        pk + core_text(e).len() <= res.1 <= q,
        gap_between(s, res.1, q),
        entry_read(s, parse_entry_spec(toks, nk), entry_ast(e), res.0),
{
    let key = e->Suffix_key;
    let w1 = e->Suffix_w1;
    let r = e->r;
    let kt = form_text(key);
    let ot = suffix_text(r);
    lemma_split(s, pk, kt + w1, ot);
    lemma_split(s, pk, kt, w1);
    let p2 = pk + kt.len();
    let p3 = p2 + w1.len();
    let ce = p3 + ot.len();
    lemma_form_edges(key);
    assert(s[p3] == s.subrange(p3, ce)[0]);
    if w1.len() > 0 {
        assert(s[p2] == s.subrange(p2, p3)[0]);
        assert(is_ws(w1[0]));
    }
    assert(key is Quoted || ends_string_at(s, p2));
    if r == SuffixUnaryOpKind::Clear {
        assert(s[p3 + 1] == s.subrange(p3, ce)[1]);
    } else if ce < q {
        assert(is_ws(s[ce]) || s[ce] == 59);
    } else if q < s.len() {
        lemma_start_token(s, q);
    }
    assert(match_at(s, p3) == Some((TokenKind::SuffixUnaryOp(r), ce)));
    lemma_form_step(toks, s, nk, pk, key);
    let n2 = lemma_ws_step(toks, s, nk + 1, p2, w1);
    lemma_tok_step(toks, s, n2, p3);
    if q < s.len() {
        lemma_start_token(s, q);
    }
    let res = lemma_finish(toks, s, n2 + 1, ce, q);
    assert(!is_separator(toks[nk]));
    assert(skip_separators(toks, nk) == nk);
    assert(skip_trivia(toks, n2) == n2);
    assert(skip_trivia(toks, nk + 1) == n2);
    res
}

/// The text of an entry starts with its key.
proof fn lemma_core_first(e: WrittenEntry)
    requires
        entry_ok(e),
    ensures
        core_text(e).len() >= 1,
        core_text(e)[0] == QUOTE || is_raw_edge(core_text(e)[0]),
        core_text(e)[0] == form_text(key_of(e))[0],
        form_ok(key_of(e)),
        gap_ok(trail_of(e)),
{
    lemma_form_edges(key_of(e));
    let kt = form_text(key_of(e));
    match e {
        WrittenEntry::Value { key, w1, k, w2, value, .. } => {
            assert((kt + w1 + op_text(k) + w2 + form_text(value))[0] == kt[0]);
        },
        WrittenEntry::Suffix { key, w1, r, .. } => {
            assert((kt + w1 + suffix_text(r))[0] == kt[0]);
        },
        WrittenEntry::Group { key, w1, w2, lead, body, .. } => {
            assert((kt + w1 + seq![58u8] + w2 + seq![123u8] + lead + entries_text(body) + seq![
                125u8,
            ])[0] == kt[0]);
        },
    }
}

/// The tokens of `key: {` written at `pk`, and where the body stands.
proof fn lemma_group_tokens(toks: Seq<Token>, s: Seq<u8>, e: WrittenEntry, nk: int, pk: int) -> (res: (int, int))
    requires
        s.len() <= usize::MAX,
        e is Group,
        entry_ok(e),
        tok_at(toks, s, nk, pk),
        pk + core_text(e).len() <= s.len(),
        s.subrange(pk, pk + core_text(e).len()) == core_text(e),
    ensures
        ({
            let open_end = pk + form_text(e->Group_key).len() + e->Group_w1.len() + 1
                + e->Group_w2.len() + 1;
            let body_start = open_end + e->lead.len();
            let close = body_start + entries_text(e->body).len();
            &&& nk < toks.len()
            &&& toks[nk].kind is Value
            &&& token_string(s, toks[nk]) == form_string(e->Group_key)
            &&& res.0 == nk + 1 || (res.0 == nk + 2 && is_trivia(toks[nk + 1]))
            &&& toks[res.0].kind == TokenKind::BinaryOp(BinaryOpKind::Group)
            &&& res.1 == res.0 + 1 || (res.1 == res.0 + 2 && is_trivia(toks[res.0 + 1]))
            &&& toks[res.1].kind is GroupingOpen
            &&& tok_at(toks, s, res.1 + 1, open_end)
            &&& gap_between(s, open_end, body_start)
            &&& s.subrange(body_start, close) == entries_text(e->body)
            &&& close + 1 == pk + core_text(e).len()
            &&& s[close] == 125
        }),
{
    let key = e->Group_key;
    let w1 = e->Group_w1;
    let w2 = e->Group_w2;
    let lead = e->lead;
    let body = e->body;
    let kt = form_text(key);
    let et = entries_text(body);
    let a = kt + w1 + seq![58u8] + w2 + seq![123u8] + lead;
    lemma_split(s, pk, a + et, seq![125u8]);
    lemma_split(s, pk, a, et);
    lemma_split(s, pk, kt + w1 + seq![58u8] + w2 + seq![123u8], lead);
    lemma_split(s, pk, kt + w1 + seq![58u8] + w2, seq![123u8]);
    lemma_split(s, pk, kt + w1 + seq![58u8], w2);
    lemma_split(s, pk, kt + w1, seq![58u8]);
    lemma_split(s, pk, kt, w1);
    let p2 = pk + kt.len();
    let p3 = p2 + w1.len();
    let p4 = p3 + 1;
    let p5 = p4 + w2.len();
    let p6 = p5 + 1;
    let p7 = p6 + lead.len();
    let c = p7 + et.len();
    lemma_form_edges(key);
    assert(s[p3] == s.subrange(p3, p4)[0]);
    assert(s[p5] == s.subrange(p5, p6)[0]);
    assert(s[c] == s.subrange(c, c + 1)[0]);
    if w2.len() > 0 {
        assert(s[p4] == s.subrange(p4, p5)[0]);
        assert(is_ws(w2[0]));
    }
    if w1.len() > 0 {
        assert(s[p2] == s.subrange(p2, p3)[0]);
        assert(is_ws(w1[0]));
    }
    assert(key is Quoted || ends_string_at(s, p2));
    assert forall|i: int| p6 <= i < p7 implies is_ws(#[trigger] s[i]) || s[i] == 59 by {
        assert(s[i] == lead[i - p6]);
    }
    lemma_form_step(toks, s, nk, pk, key);
    let n3 = lemma_ws_step(toks, s, nk + 1, p2, w1);
    assert(match_at(s, p3) == Some((TokenKind::BinaryOp(BinaryOpKind::Group), p4)));
    lemma_tok_step(toks, s, n3, p3);
    let n5 = lemma_ws_step(toks, s, n3 + 1, p4, w2);
    assert(match_at(s, p5) == Some((TokenKind::GroupingOpen, p6)));
    lemma_tok_step(toks, s, n5, p5);
    (n3, n5)
}

/// The parse of a group body from token `n` succeeds, gives the entries
/// `acc` and then entries standing for `nodes`, and goes on at token `end`.
pub open spec fn body_read(
    s: Seq<u8>,
    r: Result<(Seq<SynEntry>, Token, int), SyntaxError>,
    acc: Seq<SynEntry>,
    nodes: Seq<AstNode>,
    end: int,
) -> bool {
    match r {
        Ok((ses, _close, j)) => j == end && ast_of_syn_entries(s, ses) == ast_of_syn_entries(s, acc)
            + nodes,
        Err(_) => false,
    }
}

/// Reading a written entry at `pk`, followed by the gap `..q` and then an
/// entry, a `}` or the end.
proof fn lemma_core(toks: Seq<Token>, s: Seq<u8>, e: WrittenEntry, nk: int, pk: int, q: int) -> (res: (int, int))
    requires
        s.len() <= usize::MAX,
        entry_ok(e),
        tok_at(toks, s, nk, pk),
        pk + core_text(e).len() <= q <= s.len(),
        s.subrange(pk, pk + core_text(e).len()) == core_text(e),
        gap_between(s, pk + core_text(e).len(), q),
        q == s.len() || starts_entry_or_close(s[q]),
        ends_unquoted(e) ==> ends_string_at(s, pk + core_text(e).len()),
    ensures
        nk < toks.len(),
        toks[nk].kind is Value,
        nk < res.0,
        tok_at(toks, s, res.0, res.1),
        pk + core_text(e).len() <= res.1 <= q,
        gap_between(s, res.1, q),
        entry_read(s, parse_entry_spec(toks, nk), entry_ast(e), res.0),
    decreases e,
{
    match e {
        WrittenEntry::Value { .. } => lemma_core_value(toks, s, e, nk, pk, q),
        WrittenEntry::Suffix { .. } => lemma_core_suffix(toks, s, e, nk, pk, q),
        WrittenEntry::Group { body, .. } => {
            let (n3, n5) = lemma_group_tokens(toks, s, e, nk, pk);
            let open_end = pk + form_text(e->Group_key).len() + e->Group_w1.len() + 1
                + e->Group_w2.len() + 1;
            let body_start = open_end + e->lead.len();
            let close = body_start + entries_text(body).len();
            let nc = lemma_body(toks, s, body, n5 + 1, open_end, body_start, toks[nk], seq![]);
            if q < s.len() {
                lemma_start_token(s, q);
            }
            let res = lemma_finish(toks, s, nc + 1, close + 1, q);
            assert(!is_separator(toks[nk]));
            assert(skip_separators(toks, nk) == nk);
            assert(skip_trivia(toks, n3) == n3);
            assert(skip_trivia(toks, nk + 1) == n3);
            assert(skip_trivia(toks, n5) == n5);
            assert(skip_trivia(toks, n3 + 1) == n5);
            let r = parse_body_spec(toks, n5 + 1, toks[nk], seq![]);
            let ses = r->Ok_0.0;
            assert(ast_of_syn_entries(s, seq![]) =~= Seq::<AstNode>::empty());
            assert(ast_of_syn_entries(s, ses) =~= entries_ast(body));
            let se = parse_entry_spec(toks, nk)->Ok_0.0;
            assert(se is Group);
            assert(se->Group_entries == ses);
            assert(se->Group_identifier == toks[nk]);
            assert(ast_of_syn(s, se)->Group_group =~= ast_of_syn_entries(s, ses));
            assert(ast_of_syn(s, se) == entry_ast(e));
            res
        },
    }
}

/// Reading the entries `es` of a group body: the gap `p..q0`, then the
/// entries, then `}`.
proof fn lemma_body(
    toks: Seq<Token>,
    s: Seq<u8>,
    es: Seq<WrittenEntry>,
    n: int,
    p: int,
    q0: int,
    g: Token,
    acc: Seq<SynEntry>,
) -> (nc: int)
    requires
        s.len() <= usize::MAX,
        tok_at(toks, s, n, p),
        p <= q0,
        gap_between(s, p, q0),
        q0 + entries_text(es).len() < s.len(),
        s.subrange(q0, q0 + entries_text(es).len()) == entries_text(es),
        s[q0 + entries_text(es).len()] == 125,
        entries_ok(es),
    ensures
        n <= nc < toks.len(),
        toks[nc].kind is GroupingClose,
        tok_at(toks, s, nc + 1, q0 + entries_text(es).len() + 1),
        body_read(s, parse_body_spec(toks, n, g, acc), acc, entries_ast(es), nc + 1),
    decreases es,
{
    let c = q0 + entries_text(es).len();
    if es.len() == 0 {
        let m = lemma_gap(toks, s, n, p, c);
        lemma_body_over(toks, n, m, g, acc);
        assert(match_at(s, c) == Some((TokenKind::GroupingClose, c + 1)));
        lemma_tok_step(toks, s, m, c);
        assert(ast_of_syn_entries(s, acc) + Seq::<AstNode>::empty() =~= ast_of_syn_entries(s, acc));
        m
    } else {
        let e0 = es[0];
        let rest = es.subrange(1, es.len() as int);
        lemma_core_first(e0);
        lemma_split(s, q0, core_text(e0) + trail_of(e0), entries_text(rest));
        lemma_split(s, q0, core_text(e0), trail_of(e0));
        let ce = q0 + core_text(e0).len();
        let q = ce + trail_of(e0).len();
        assert(s[q0] == s.subrange(q0, ce)[0]);
        assert forall|i: int| ce <= i < q implies is_ws(#[trigger] s[i]) || s[i] == 59 by {
            assert(s[i] == trail_of(e0)[i - ce]);
        }
        reveal_with_fuel(entries_ok, 2);
        if rest.len() > 0 {
            lemma_core_first(rest[0]);
            assert(s[q] == s.subrange(q, c)[0]);
        }
        if ends_unquoted(e0) && trail_of(e0).len() == 0 && rest.len() > 0 {
            assert(key_of(es[1]) is Quoted);
            assert(core_text(rest[0])[0] == QUOTE);
        }
        if trail_of(e0).len() > 0 {
            assert(is_ws(s[ce]) || s[ce] == 59);
        }
        let nk = lemma_gap(toks, s, n, p, q0);
        lemma_body_over(toks, n, nk, g, acc);
        let (j, pj) = lemma_core(toks, s, e0, nk, q0, q);
        let se = parse_entry_spec(toks, nk)->Ok_0.0;
        let nc = lemma_body(toks, s, rest, j, pj, q, g, acc.push(se));
        assert(ast_of_syn_entries(s, acc.push(se)) =~= ast_of_syn_entries(s, acc).push(
            ast_of_syn(s, se),
        ));
        assert(entries_ast(es) == seq![entry_ast(e0)] + entries_ast(rest));
        assert(ast_of_syn_entries(s, acc.push(se)) + entries_ast(rest) =~= ast_of_syn_entries(
            s,
            acc,
        ) + entries_ast(es));
        nc
    }
}

/// The parse of the entries from token `n` succeeds and gives the entries
/// `acc` and then entries standing for `nodes`.
pub open spec fn entries_read(
    s: Seq<u8>,
    r: Result<Seq<SynEntry>, SyntaxError>,
    acc: Seq<SynEntry>,
    nodes: Seq<AstNode>,
) -> bool {
    match r {
        Ok(ses) => ast_of_syn_entries(s, ses) == ast_of_syn_entries(s, acc) + nodes,
        Err(_) => false,
    }
}

/// Reading the top-level entries `es`: the gap `p..q0`, then the entries up
/// to the end of the buffer.
proof fn lemma_top(
    toks: Seq<Token>,
    s: Seq<u8>,
    es: Seq<WrittenEntry>,
    n: int,
    p: int,
    q0: int,
    acc: Seq<SynEntry>,
)
    requires
        s.len() <= usize::MAX,
        tok_at(toks, s, n, p),
        p <= q0,
        gap_between(s, p, q0),
        q0 + entries_text(es).len() == s.len(),
        s.subrange(q0, s.len() as int) == entries_text(es),
        entries_ok(es),
    ensures
        entries_read(s, parse_entries_spec(toks, n, acc), acc, entries_ast(es)),
    decreases es.len(),
{
    if es.len() == 0 {
        let m = lemma_gap(toks, s, n, p, q0);
        lemma_tok_end(toks, s, m);
        lemma_skip_separators_over(toks, n, m);
        assert(ast_of_syn_entries(s, acc) + Seq::<AstNode>::empty() =~= ast_of_syn_entries(s, acc));
    } else {
        let e0 = es[0];
        let rest = es.subrange(1, es.len() as int);
        lemma_core_first(e0);
        lemma_split(s, q0, core_text(e0) + trail_of(e0), entries_text(rest));
        lemma_split(s, q0, core_text(e0), trail_of(e0));
        let ce = q0 + core_text(e0).len();
        let q = ce + trail_of(e0).len();
        assert(s[q0] == s.subrange(q0, ce)[0]);
        assert forall|i: int| ce <= i < q implies is_ws(#[trigger] s[i]) || s[i] == 59 by {
            assert(s[i] == trail_of(e0)[i - ce]);
        }
        reveal_with_fuel(entries_ok, 2);
        if rest.len() > 0 {
            lemma_core_first(rest[0]);
            assert(s[q] == s.subrange(q, s.len() as int)[0]);
        }
        if ends_unquoted(e0) && trail_of(e0).len() == 0 && rest.len() > 0 {
            assert(key_of(es[1]) is Quoted);
            assert(core_text(rest[0])[0] == QUOTE);
        }
        if trail_of(e0).len() > 0 {
            assert(is_ws(s[ce]) || s[ce] == 59);
        }
        let nk = lemma_gap(toks, s, n, p, q0);
        let (j, pj) = lemma_core(toks, s, e0, nk, q0, q);
        lemma_skip_separators_over(toks, n, nk);
        let se = parse_entry_spec(toks, nk)->Ok_0.0;
        lemma_top(toks, s, rest, j, pj, q, acc.push(se));
        assert(ast_of_syn_entries(s, acc.push(se)) =~= ast_of_syn_entries(s, acc).push(
            ast_of_syn(s, se),
        ));
        assert(entries_ast(es) == seq![entry_ast(e0)] + entries_ast(rest));
        assert(ast_of_syn_entries(s, acc.push(se)) + entries_ast(rest) =~= ast_of_syn_entries(
            s,
            acc,
        ) + entries_ast(es));
    }
}

/// The text of a document: the gap `lead`, then the entries `es`, each
/// followed by its own gap.
pub open spec fn document_text(lead: Seq<u8>, es: Seq<WrittenEntry>) -> Seq<u8> {
    lead + entries_text(es)
}

/// Writing entries and groups of entries, with whitespace around their parts
/// and whitespace and terminators between them, and reading the text back
/// gives those entries: each key and value as the string it is written for,
/// with escapes resolved, each operator as the operation it stands for, and
/// each group with its own entries, in order.
pub proof fn lemma_document_reads_back(lead: Seq<u8>, es: Seq<WrittenEntry>)
    requires
        document_text(lead, es).len() <= usize::MAX,
        gap_ok(lead),
        entries_ok(es),
    ensures
        ast_parse_spec(document_text(lead, es)) == Ok::<Seq<AstNode>, SyntaxError>(
            entries_ast(es),
        ),
{
    let s = document_text(lead, es);
    let toks = tokenize_spec(s);
    lemma_tok_start(s);
    lemma_split(s, 0, lead, entries_text(es));
    assert(s.subrange(0, s.len() as int) =~= s);
    assert forall|i: int| 0 <= i < lead.len() implies is_ws(#[trigger] s[i]) || s[i] == 59 by {
        assert(s[i] == lead[i]);
    }
    lemma_top(toks, s, es, 0, 0, lead.len() as int, seq![]);
    let ses = syntax_parse_spec(toks)->Ok_0;
    assert(ast_of_syn_entries(s, seq![]) =~= Seq::<AstNode>::empty());
    assert(ast_of_syn_entries(s, ses) =~= entries_ast(es));
}

proof fn lemma_escaped_end_plain(v: Seq<u8>, i: int)
    requires
        0 <= i <= v.len(),
        forall|j: int| 0 <= j < v.len() ==> v[j] != QUOTE && v[j] != BACKSLASH,
    ensures
        escaped_end(v, i) == v.len(),
    decreases v.len() - i,
{
    if i < v.len() {
        lemma_escaped_end_plain(v, i + 1);
    }
}

/// One entry, written as its grammar allows and followed by its gap, reads
/// back as the entry it stands for.
proof fn lemma_single_entry_reads_back(e: WrittenEntry)
    requires
        entry_ok(e),
        (core_text(e) + trail_of(e)).len() <= usize::MAX,
    ensures
        ast_parse_spec(core_text(e) + trail_of(e)) == Ok::<Seq<AstNode>, SyntaxError>(
            seq![entry_ast(e)],
        ),
{
    let es = seq![e];
    assert(es.subrange(1, 1) =~= Seq::<WrittenEntry>::empty());
    assert(es[0] == e);
    assert(entries_ok(es.subrange(1, 1)));
    assert(entries_text(es.subrange(1, 1)) =~= Seq::<u8>::empty());
    assert(entries_ast(es.subrange(1, 1)) =~= Seq::<AstNode>::empty());
    assert(entries_ok(es));
    assert(entries_text(es) =~= core_text(e) + trail_of(e));
    assert(document_text(seq![], es) =~= core_text(e) + trail_of(e));
    lemma_document_reads_back(seq![], es);
    assert(entries_ast(es) =~= seq![entry_ast(e)]);
}

/// An operation written out, `key op "value";`, `key !;` or `key !!;`, with
/// an unquoted key and a value without quotes or backslashes, reads back as
/// exactly that operation.
#[verifier::spinoff_prover]
pub proof fn lemma_operation_text_reads_back(key: Seq<u8>, operation: AstOp)
    requires
        form_ok(StringForm::Unquoted(key)),
        op_value(operation) matches Some(v) ==> forall|j: int|
            0 <= j < v.len() ==> v[j] != QUOTE && v[j] != BACKSLASH,
        operation_text(key, operation).len() <= usize::MAX,
    ensures
        ast_parse_spec(operation_text(key, operation)) == Ok::<Seq<AstNode>, SyntaxError>(
            seq![AstNode::Operation { key, operation }],
        ),
{
    let k = StringForm::Unquoted(key);
    let sp = seq![32u8];
    let trail = seq![59u8];
    assert forall|j: int| 0 <= j < key.len() implies key[j] != BACKSLASH by {
        assert(is_raw_inner(key[j]));
    }
    lemma_unescape_plain(key);
    assert(form_string(k) == key);
    assert(all_ws(sp));
    assert(gap_ok(trail));
    let e = match operation {
        AstOp::Reset => WrittenEntry::Suffix { key: k, w1: sp, r: SuffixUnaryOpKind::Reset, trail },
        AstOp::Clear => WrittenEntry::Suffix { key: k, w1: sp, r: SuffixUnaryOpKind::Clear, trail },
        _ => {
            let v = op_value(operation)->Some_0;
            let kind = match operation {
                AstOp::AssignIfUndefined(_) => BinaryOpKind::AssignIfUndefined,
                AstOp::Add(_) => BinaryOpKind::Add,
                AstOp::Remove(_) => BinaryOpKind::Remove,
                _ => BinaryOpKind::Assign,
            };
            lemma_escaped_end_plain(v, 0);
            assert forall|j: int| 0 <= j < v.len() implies v[j] != BACKSLASH by {}
            lemma_unescape_plain(v);
            WrittenEntry::Value { key: k, w1: sp, k: kind, w2: sp, value: StringForm::Quoted(v), trail }
        },
    };
    assert(entry_ok(e));
    assert(core_text(e) + trail_of(e) =~= operation_text(key, operation));
    lemma_single_entry_reads_back(e);
    assert(entry_ast(e) == AstNode::Operation { key, operation });
}

} // verus!
