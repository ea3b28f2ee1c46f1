//! The abstract syntax tree: entries with their key and value bytes, escapes
//! resolved and quotes removed.
use vstd::prelude::*;
use vstd::utf8::valid_utf8;

use crate::ext::escape::{unescape, unescape_bytes};
use crate::ext::join::{join_spec, texts_view, Join};
use crate::ext::lossy::{lossy_text, utf8_lossy};
use crate::ext::text::push_all;
use crate::parse::lex::{
    slice_bytes, tokenize_spec, BinaryOpKind, SuffixUnaryOpKind, Token, TokenKind, ValueKind,
};
use crate::parse::syn::{
    finish_terminator, is_separator, lemma_skip_separators, lemma_skip_trivia, parse_body_spec,
    parse_entries_spec, parse_entry_spec, skip_separators, skip_trivia, syntax_parse_spec,
    view_entries, view_entry, SynEntry, SyntaxError, SyntaxParser, SyntaxTreeEntry,
};
use crate::parse::{
    OPERATOR_ADD, OPERATOR_ASSIGN, OPERATOR_ASSIGN_IF_UNDEFINED, OPERATOR_CLEAR, OPERATOR_REMOVE,
    OPERATOR_RESET,
};

verus! {

#[derive(Debug, Clone, PartialEq, Eq)]
pub enum AstOperation {
    Assign(Vec<u8>),
    AssignIfUndefined(Vec<u8>),
    Add(Vec<u8>),
    Remove(Vec<u8>),
    Reset,
    Clear,
}

#[derive(Debug, PartialEq, Eq)]
pub enum AstEntry {
    Group { key: Vec<u8>, group: Vec<AstEntry> },
    Operation { key: Vec<u8>, operation: AstOperation },
}

/// A parsed configuration: its entries in the order they were written.
#[derive(Debug, PartialEq, Eq)]
pub struct Ast {
    pub entries: Vec<AstEntry>,
}

/// The failure of [`AstParser::parse`]: the input is not well-formed.
#[derive(Debug)]
pub struct AstParseError(pub SyntaxError);

// ---------------------------------------------------------------------------
// Mathematical forms

pub enum AstOp {
    Assign(Seq<u8>),
    AssignIfUndefined(Seq<u8>),
    Add(Seq<u8>),
    Remove(Seq<u8>),
    Reset,
    Clear,
}

pub enum AstNode {
    Group { key: Seq<u8>, group: Seq<AstNode> },
    Operation { key: Seq<u8>, operation: AstOp },
}

impl AstOperation {
    pub open spec fn view(self) -> AstOp {
        match self {
            AstOperation::Assign(v) => AstOp::Assign(v@),
            AstOperation::AssignIfUndefined(v) => AstOp::AssignIfUndefined(v@),
            AstOperation::Add(v) => AstOp::Add(v@),
            AstOperation::Remove(v) => AstOp::Remove(v@),
            AstOperation::Reset => AstOp::Reset,
            AstOperation::Clear => AstOp::Clear,
        }
    }
}

pub open spec fn ast_entry_view(e: AstEntry) -> AstNode
    decreases e,
{
    match e {
        AstEntry::Group { key, group } => AstNode::Group {
            key: key@,
            group: Seq::new(
                group@.len(),
                |i: int|
                    if 0 <= i < group@.len() {
                        ast_entry_view(group@[i])
                    } else {
                        AstNode::Operation { key: key@, operation: AstOp::Reset }
                    },
            ),
        },
        AstEntry::Operation { key, operation } => AstNode::Operation {
            key: key@,
            operation: operation.view(),
        },
    }
}

pub open spec fn ast_entries_view(v: Seq<AstEntry>) -> Seq<AstNode> {
    Seq::new(v.len(), |i: int| ast_entry_view(v[i]))
}

impl AstEntry {
    pub open spec fn view(self) -> AstNode {
        ast_entry_view(self)
    }
}

impl Ast {
    pub open spec fn view(self) -> Seq<AstNode> {
        ast_entries_view(self.entries@)
    }
}

// ---------------------------------------------------------------------------
// From syntax to AST

/// The string a value token stands for: the bytes of a raw string, the
/// content of a quoted one, with backslash escapes resolved for the escaped
/// forms. (A token out of the buffer's bounds, which the tokenizer never
/// produces, stands for nothing.)
pub open spec fn token_string(s: Seq<u8>, t: Token) -> Seq<u8> {
    match t.kind {
        TokenKind::Value(ValueKind::String) => {
            if t.start <= t.end <= s.len() {
                s.subrange(t.start as int, t.end as int)
            } else {
                seq![]
            }
        },
        TokenKind::Value(ValueKind::EString) => {
            if t.start <= t.end <= s.len() {
                unescape(s.subrange(t.start as int, t.end as int))
            } else {
                seq![]
            }
        },
        TokenKind::Value(ValueKind::QString) => {
            if t.start + 2 <= t.end <= s.len() {
                s.subrange(t.start + 1, t.end - 1)
            } else {
                seq![]
            }
        },
        TokenKind::Value(ValueKind::QEString) => {
            if t.start + 2 <= t.end <= s.len() {
                unescape(s.subrange(t.start + 1, t.end - 1))
            } else {
                seq![]
            }
        },
        _ => seq![],
    }
}

/// The entry is made of the token kinds the grammar puts in each place.
pub open spec fn syn_wf(e: SynEntry) -> bool
    decreases e,
{
    match e {
        SynEntry::Group { identifier, entries, .. } => {
            &&& identifier.kind is Value
            &&& forall|i: int| 0 <= i < entries.len() ==> syn_wf(#[trigger] entries[i])
        },
        SynEntry::BinaryOp { identifier, op, value, .. } => {
            &&& identifier.kind is Value
            &&& value.kind is Value
            &&& op.kind is BinaryOp
            &&& op.kind != TokenKind::BinaryOp(BinaryOpKind::Group)
        },
        SynEntry::SuffixUnaryOp { identifier, op, .. } => {
            &&& identifier.kind is Value
            &&& op.kind is SuffixUnaryOp
        },
    }
}

/// The operation of a binary-operator entry with value `v`.
pub open spec fn binary_op(kind: TokenKind, v: Seq<u8>) -> AstOp {
    match kind {
        TokenKind::BinaryOp(BinaryOpKind::AssignIfUndefined) => AstOp::AssignIfUndefined(v),
        TokenKind::BinaryOp(BinaryOpKind::Add) => AstOp::Add(v),
        TokenKind::BinaryOp(BinaryOpKind::Remove) => AstOp::Remove(v),
        _ => AstOp::Assign(v),
    }
}

/// The operation of a suffix-operator entry.
pub open spec fn suffix_op(kind: TokenKind) -> AstOp {
    match kind {
        TokenKind::SuffixUnaryOp(SuffixUnaryOpKind::Clear) => AstOp::Clear,
        _ => AstOp::Reset,
    }
}

/// The AST entry of a syntax entry read from the buffer `s`.
pub open spec fn ast_of_syn(s: Seq<u8>, e: SynEntry) -> AstNode
    decreases e,
{
    match e {
        SynEntry::Group { identifier, entries, .. } => AstNode::Group {
            key: token_string(s, identifier),
            group: Seq::new(
                entries.len(),
                |i: int|
                    if 0 <= i < entries.len() {
                        ast_of_syn(s, entries[i])
                    } else {
                        AstNode::Operation { key: seq![], operation: AstOp::Reset }
                    },
            ),
        },
        SynEntry::BinaryOp { identifier, op, value, .. } => AstNode::Operation {
            key: token_string(s, identifier),
            operation: binary_op(op.kind, token_string(s, value)),
        },
        SynEntry::SuffixUnaryOp { identifier, op, .. } => AstNode::Operation {
            key: token_string(s, identifier),
            operation: suffix_op(op.kind),
        },
    }
}

pub open spec fn ast_of_syn_entries(s: Seq<u8>, es: Seq<SynEntry>) -> Seq<AstNode> {
    Seq::new(es.len(), |i: int| ast_of_syn(s, es[i]))
}

/// What parsing the buffer `s` gives: its AST, or the syntax error that
/// stopped it.
pub open spec fn ast_parse_spec(s: Seq<u8>) -> Result<Seq<AstNode>, SyntaxError> {
    match syntax_parse_spec(tokenize_spec(s)) {
        Ok(es) => Ok(ast_of_syn_entries(s, es)),
        Err(e) => Err(e),
    }
}

// ---------------------------------------------------------------------------
// The parser only produces well-formed syntax entries

proof fn lemma_parse_entry_wf(toks: Seq<Token>, i: int)
    ensures parse_entry_spec(toks, i) matches Ok((e, j)) ==> syn_wf(e),
    decreases toks.len() - i, 0int,
{
    if 0 <= i <= toks.len() {
        let k = skip_separators(toks, i);
        if k < toks.len() && toks[k].kind is Value {
            let m = skip_trivia(toks, k + 1);
            if m < toks.len() {
                if toks[m].kind == TokenKind::BinaryOp(BinaryOpKind::Group) {
                    let o = skip_trivia(toks, m + 1);
                    if o < toks.len() && toks[o].kind is GroupingOpen {
                        lemma_skip_separators(toks, i);
                        lemma_skip_trivia(toks, k + 1);
                        lemma_skip_trivia(toks, m + 1);
                        lemma_parse_body_wf(toks, o + 1, toks[k], seq![]);
                    }
                }
            }
        }
    }
}

proof fn lemma_parse_body_wf(toks: Seq<Token>, i: int, group: Token, acc: Seq<SynEntry>)
    requires forall|x: int| 0 <= x < acc.len() ==> syn_wf(#[trigger] acc[x]),
    ensures
        parse_body_spec(toks, i, group, acc) matches Ok((es, c, j)) ==> forall|x: int|
            0 <= x < es.len() ==> syn_wf(#[trigger] es[x]),
    decreases toks.len() - i, 1int,
{
    if 0 <= i <= toks.len() {
        if i < toks.len() && toks[i].kind is GroupingClose {
        } else if i < toks.len() && is_separator(toks[i]) {
            lemma_parse_body_wf(toks, i + 1, group, acc);
        } else {
            lemma_parse_entry_wf(toks, i);
            if let Ok((e, j)) = parse_entry_spec(toks, i) {
                if i < j <= toks.len() {
                    assert forall|x: int| 0 <= x < acc.push(e).len() implies syn_wf(
                        #[trigger] acc.push(e)[x],
                    ) by {
                        if x < acc.len() {
                            assert(acc.push(e)[x] == acc[x]);
                        }
                    }
                    lemma_parse_body_wf(toks, j, group, acc.push(e));
                }
            }
        }
    }
}

proof fn lemma_parse_entries_wf(toks: Seq<Token>, i: int, acc: Seq<SynEntry>)
    requires forall|x: int| 0 <= x < acc.len() ==> syn_wf(#[trigger] acc[x]),
    ensures
        parse_entries_spec(toks, i, acc) matches Ok(es) ==> forall|x: int|
            0 <= x < es.len() ==> syn_wf(#[trigger] es[x]),
    decreases toks.len() - i,
{
    if 0 <= i <= toks.len() {
        let k = skip_separators(toks, i);
        if k < toks.len() {
            lemma_parse_entry_wf(toks, k);
            if let Ok((e, j)) = parse_entry_spec(toks, k) {
                if i < j <= toks.len() {
                    assert forall|x: int| 0 <= x < acc.push(e).len() implies syn_wf(
                        #[trigger] acc.push(e)[x],
                    ) by {
                        if x < acc.len() {
                            assert(acc.push(e)[x] == acc[x]);
                        }
                    }
                    lemma_parse_entries_wf(toks, j, acc.push(e));
                }
            }
        }
    }
}

/// Every entry of a successful syntax parse is well-formed.
pub proof fn lemma_syntax_parse_wf(toks: Seq<Token>)
    ensures
        syntax_parse_spec(toks) matches Ok(es) ==> forall|x: int|
            0 <= x < es.len() ==> syn_wf(#[trigger] es[x]),
{
    lemma_parse_entries_wf(toks, 0, seq![]);
}

// ---------------------------------------------------------------------------
// Executable conversion

/// The string a value token stands for.
pub fn capture_string(buffer: &Vec<u8>, t: Token) -> (res: Vec<u8>)
    ensures res@ == token_string(buffer@, t),
{
    let len = buffer.len();
    match t.kind {
        TokenKind::Value(ValueKind::String) => {
            if t.start <= t.end && t.end <= len {
                slice_bytes(buffer, t.start, t.end)
            } else {
                Vec::new()
            }
        },
        TokenKind::Value(ValueKind::EString) => {
            if t.start <= t.end && t.end <= len {
                let raw = slice_bytes(buffer, t.start, t.end);
                unescape_bytes(raw.as_slice())
            } else {
                Vec::new()
            }
        },
        TokenKind::Value(ValueKind::QString) => {
            if t.start <= t.end && t.end - t.start >= 2 && t.end <= len {
                slice_bytes(buffer, t.start + 1, t.end - 1)
            } else {
                Vec::new()
            }
        },
        TokenKind::Value(ValueKind::QEString) => {
            if t.start <= t.end && t.end - t.start >= 2 && t.end <= len {
                let raw = slice_bytes(buffer, t.start + 1, t.end - 1);
                unescape_bytes(raw.as_slice())
            } else {
                Vec::new()
            }
        },
        _ => Vec::new(),
    }
}

/// Converts a well-formed syntax entry read from `buffer` into an AST entry.
#[verifier::loop_isolation(false)]
fn parse_entry(buffer: &Vec<u8>, syn_entry: SyntaxTreeEntry) -> (res: AstEntry)
    requires syn_wf(view_entry(syn_entry)),
    ensures res.view() == ast_of_syn(buffer@, view_entry(syn_entry)),
    decreases syn_entry,
{
    let ghost se = view_entry(syn_entry);
    let ghost orig = syn_entry;
    match syn_entry {
        SyntaxTreeEntry::Group { identifier, entries, .. } => {
            let key = capture_string(buffer, identifier);
            let ghost old_vec = entries;
            let ghost old_entries = entries@;
            let ghost n = old_entries.len();
            let ghost ses = match se {
                SynEntry::Group { entries, .. } => entries,
                _ => seq![],
            };
            assert(ses.len() == n);
            assert forall|x: int| 0 <= x < n implies syn_wf(view_entry(#[trigger] old_entries[x])) by {
                assert(ses[x] == view_entry(old_entries[x]));
            }
            let mut rest = entries;
            let mut group: Vec<AstEntry> = Vec::new();
            while rest.len() > 0
                invariant
                    group@.len() + rest@.len() == n,
                    old_entries.len() == n,
                    old_entries == old_vec@,
                    orig matches SyntaxTreeEntry::Group { entries: ev, .. } && ev == old_vec,
                    forall|x: int| 0 <= x < rest@.len() ==> #[trigger] rest@[x] == old_entries[group@.len() + x],
                    forall|x: int| 0 <= x < n ==> syn_wf(view_entry(#[trigger] old_entries[x])),
                    forall|x: int|
                        0 <= x < group@.len() ==> #[trigger] ast_entry_view(group@[x]) == ast_of_syn(
                            buffer@,
                            view_entry(old_entries[x]),
                        ),
                decreases rest@.len(),
            {
                let ghost k = group@.len() as int;
                let first = rest.remove(0);
                assert(first == old_entries[k]);
                proof {
                    vstd::std_specs::vec::axiom_vec_index_decreases(old_vec, k);
                    assert(decreases_to!(orig => first));
                }
                let converted = parse_entry(buffer, first);
                group.push(converted);
                assert forall|x: int| 0 <= x < rest@.len() implies #[trigger] rest@[x]
                    == old_entries[group@.len() + x] by {}
            }
            let res = AstEntry::Group { key, group };
            proof {
                let g = match ast_entry_view(res) {
                    AstNode::Group { group, .. } => group,
                    _ => seq![],
                };
                let h = match ast_of_syn(buffer@, se) {
                    AstNode::Group { group, .. } => group,
                    _ => seq![],
                };
                assert(group@.len() == n);
                assert forall|x: int| 0 <= x < n implies g[x] == h[x] by {
                    assert(ses[x] == view_entry(old_entries[x]));
                    assert(ast_entry_view(group@[x]) == ast_of_syn(buffer@, view_entry(old_entries[x])));
                }
                assert(g =~= h);
            }
            res
        },
        SyntaxTreeEntry::BinaryOp { identifier, op, value, .. } => {
            let key = capture_string(buffer, identifier);
            let v = capture_string(buffer, value);
            let operation = match op.kind {
                TokenKind::BinaryOp(BinaryOpKind::AssignIfUndefined) => AstOperation::AssignIfUndefined(v),
                TokenKind::BinaryOp(BinaryOpKind::Add) => AstOperation::Add(v),
                TokenKind::BinaryOp(BinaryOpKind::Remove) => AstOperation::Remove(v),
                _ => AstOperation::Assign(v),
            };
            AstEntry::Operation { key, operation }
        },
        SyntaxTreeEntry::SuffixUnaryOp { identifier, op, .. } => {
            let key = capture_string(buffer, identifier);
            let operation = match op.kind {
                TokenKind::SuffixUnaryOp(SuffixUnaryOpKind::Clear) => AstOperation::Clear,
                _ => AstOperation::Reset,
            };
            AstEntry::Operation { key, operation }
        },
    }
}


// ---------------------------------------------------------------------------
// Construction and inspection

impl Ast {
    pub fn new() -> (res: Self)
        ensures res.view() == Seq::<AstNode>::empty(),
    {
        let res = Ast { entries: Vec::new() };
        assert(res.view() =~= Seq::<AstNode>::empty());
        res
    }

    /// An AST made of `entries`, in order.
    pub fn from_entries(entries: Vec<AstEntry>) -> (res: Self)
        ensures res.view() == ast_entries_view(entries@),
    {
        Ast { entries }
    }

    pub fn entries(&self) -> (res: &Vec<AstEntry>)
        ensures ast_entries_view(res@) == self.view(),
    {
        &self.entries
    }

    pub fn into_entries(self) -> (res: Vec<AstEntry>)
        ensures ast_entries_view(res@) == self.view(),
    {
        self.entries
    }

    /// Parses `bytes` into an AST (see [`AstParser::parse`]).
    pub fn from_bytes(bytes: Vec<u8>) -> (res: Result<Ast, AstParseError>)
        ensures
            ast_parse_spec(bytes@) matches Ok(es) ==> res matches Ok(ast) && ast.view() == es,
            ast_parse_spec(bytes@) matches Err(e) ==> res matches Err(AstParseError(err)) && err
                == e,
    {
        AstParser::new().parse(bytes)
    }
}

impl Default for Ast {
    fn default() -> (res: Self) {
        Ast::new()
    }
}

impl AstEntry {
    pub fn new_group(key: Vec<u8>, values: Vec<AstEntry>) -> (res: Self)
        ensures res.view() == (AstNode::Group { key: key@, group: ast_entries_view(values@) }),
    {
        let res = AstEntry::Group { key, group: values };
        proof {
            assert(match res.view() {
                AstNode::Group { group, .. } => group,
                _ => seq![],
            } =~= ast_entries_view(values@));
        }
        res
    }

    pub fn new_assign(key: Vec<u8>, value: Vec<u8>) -> (res: Self)
        ensures res.view() == (AstNode::Operation { key: key@, operation: AstOp::Assign(value@) }),
    {
        AstEntry::Operation { key, operation: AstOperation::Assign(value) }
    }

    pub fn new_assign_if_undefined(key: Vec<u8>, value: Vec<u8>) -> (res: Self)
        ensures
            res.view() == (AstNode::Operation {
                key: key@,
                operation: AstOp::AssignIfUndefined(value@),
            }),
    {
        AstEntry::Operation { key, operation: AstOperation::AssignIfUndefined(value) }
    }

    pub fn new_add(key: Vec<u8>, value: Vec<u8>) -> (res: Self)
        ensures res.view() == (AstNode::Operation { key: key@, operation: AstOp::Add(value@) }),
    {
        AstEntry::Operation { key, operation: AstOperation::Add(value) }
    }

    pub fn new_remove(key: Vec<u8>, value: Vec<u8>) -> (res: Self)
        ensures res.view() == (AstNode::Operation { key: key@, operation: AstOp::Remove(value@) }),
    {
        AstEntry::Operation { key, operation: AstOperation::Remove(value) }
    }

    pub fn new_reset(key: Vec<u8>) -> (res: Self)
        ensures res.view() == (AstNode::Operation { key: key@, operation: AstOp::Reset }),
    {
        AstEntry::Operation { key, operation: AstOperation::Reset }
    }

    pub fn new_clear(key: Vec<u8>) -> (res: Self)
        ensures res.view() == (AstNode::Operation { key: key@, operation: AstOp::Clear }),
    {
        AstEntry::Operation { key, operation: AstOperation::Clear }
    }

    /// The key of the entry.
    pub fn key(&self) -> (res: &Vec<u8>)
        ensures
            res@ == match self.view() {
                AstNode::Group { key, .. } => key,
                AstNode::Operation { key, .. } => key,
            },
    {
        match self {
            AstEntry::Group { key, .. } => key,
            AstEntry::Operation { key, .. } => key,
        }
    }
}

/// `key op "value";`, the key and the value written as text.
pub open spec fn value_entry_text(key: Seq<u8>, op: Seq<u8>, value: Seq<u8>) -> Seq<u8> {
    utf8_lossy(key) + seq![32u8] + op + seq![32u8, 34u8] + utf8_lossy(value) + seq![34u8, 59u8]
}

/// The text an entry is written as, keys and values written as text. A
/// group is written `key: { }` when it is empty and `key: {};` otherwise,
/// without its entries.
pub open spec fn entry_text(n: AstNode) -> Seq<u8> {
    match n {
        AstNode::Group { key, group } => if group.len() == 0 {
            utf8_lossy(key) + seq![58u8, 32, 123, 32, 125]
        } else {
            utf8_lossy(key) + seq![58u8, 32, 123, 125, 59]
        },
        AstNode::Operation { key, operation } => match operation {
            AstOp::Assign(v) => value_entry_text(key, seq![61u8], v),
            AstOp::AssignIfUndefined(v) => value_entry_text(key, seq![58u8, 61], v),
            AstOp::Add(v) => value_entry_text(key, seq![43u8, 61], v),
            AstOp::Remove(v) => value_entry_text(key, seq![45u8, 61], v),
            AstOp::Reset => utf8_lossy(key) + seq![32u8, 33, 59],
            AstOp::Clear => utf8_lossy(key) + seq![32u8, 33, 33, 59],
        },
    }
}

/// The value an operation carries, if it carries one.
pub open spec fn op_value(op: AstOp) -> Option<Seq<u8>> {
    match op {
        AstOp::Assign(v) => Some(v),
        AstOp::AssignIfUndefined(v) => Some(v),
        AstOp::Add(v) => Some(v),
        AstOp::Remove(v) => Some(v),
        _ => None,
    }
}

/// `key op "value";`, `key !;` or `key !!;`, with the bytes of the key and
/// the value as they are.
pub open spec fn operation_text(key: Seq<u8>, op: AstOp) -> Seq<u8> {
    let quoted = |o: Seq<u8>, v: Seq<u8>| key + seq![32u8] + o + seq![32u8, 34u8] + v + seq![34u8, 59u8];
    match op {
        AstOp::Assign(v) => quoted(seq![61u8], v),
        AstOp::AssignIfUndefined(v) => quoted(seq![58u8, 61], v),
        AstOp::Add(v) => quoted(seq![43u8, 61], v),
        AstOp::Remove(v) => quoted(seq![45u8, 61], v),
        AstOp::Reset => key + seq![32u8, 33, 59],
        AstOp::Clear => key + seq![32u8, 33, 33, 59],
    }
}

/// The key and the value of an operation are valid UTF-8, which is written
/// as it is.
pub open spec fn operation_is_text(key: Seq<u8>, op: AstOp) -> bool {
    &&& valid_utf8(key)
    &&& op_value(op) matches Some(v) ==> valid_utf8(v)
}

fn push_value_entry(out: &mut Vec<u8>, key: &[u8], op: &[u8], value: &[u8])
    ensures
        final(out)@ == old(out)@ + value_entry_text(key@, op@, value@),
        valid_utf8(key@) ==> utf8_lossy(key@) == key@,
        valid_utf8(value@) ==> utf8_lossy(value@) == value@,
{
    let key_text = lossy_text(key);
    let value_text = lossy_text(value);
    push_all(out, key_text.as_slice());
    out.push(32u8);
    push_all(out, op);
    out.push(32u8);
    out.push(34u8);
    push_all(out, value_text.as_slice());
    out.push(34u8);
    out.push(59u8);
    proof {
        assert(final(out)@ =~= old(out)@ + value_entry_text(key@, op@, value@));
    }
}

impl AstEntry {
    /// The text this entry is written as.
    pub fn render(&self) -> (res: Vec<u8>)
        ensures
            res@ == entry_text(self.view()),
            match self.view() {
                AstNode::Operation { key, operation } => operation_is_text(key, operation) ==> res@
                    == operation_text(key, operation),
                _ => true,
            },
    {
        let mut out: Vec<u8> = Vec::new();
        match self {
            AstEntry::Group { key, group } => {
                let key_text = lossy_text(key.as_slice());
                push_all(&mut out, key_text.as_slice());
                let tail: Vec<u8> = if group.len() == 0 {
                    vec![58u8, 32, 123, 32, 125]
                } else {
                    vec![58u8, 32, 123, 125, 59]
                };
                push_all(&mut out, tail.as_slice());
            },
            AstEntry::Operation { key, operation } => match operation {
                AstOperation::Assign(v) => {
                    let op: [u8; 1] = [61u8];
                    push_value_entry(&mut out, key.as_slice(), op.as_slice(), v.as_slice());
                },
                AstOperation::AssignIfUndefined(v) => {
                    let op: [u8; 2] = [58u8, 61];
                    push_value_entry(&mut out, key.as_slice(), op.as_slice(), v.as_slice());
                },
                AstOperation::Add(v) => {
                    let op: [u8; 2] = [43u8, 61];
                    push_value_entry(&mut out, key.as_slice(), op.as_slice(), v.as_slice());
                },
                AstOperation::Remove(v) => {
                    let op: [u8; 2] = [45u8, 61];
                    push_value_entry(&mut out, key.as_slice(), op.as_slice(), v.as_slice());
                },
                AstOperation::Reset => {
                    let key_text = lossy_text(key.as_slice());
                    push_all(&mut out, key_text.as_slice());
                    let tail: [u8; 3] = [32u8, 33, 59];
                    push_all(&mut out, tail.as_slice());
                },
                AstOperation::Clear => {
                    let key_text = lossy_text(key.as_slice());
                    push_all(&mut out, key_text.as_slice());
                    let tail: [u8; 4] = [32u8, 33, 33, 59];
                    push_all(&mut out, tail.as_slice());
                },
            },
        }
        proof {
            assert(out@ =~= entry_text(self.view()));
            if let AstNode::Operation { key, operation } = self.view() {
                if operation_is_text(key, operation) {
                    assert(out@ =~= operation_text(key, operation));
                }
            }
        }
        out
    }
}

impl Ast {
    /// The entries written one after the other, separated by spaces.
    pub fn render(&self) -> (res: Vec<u8>)
        ensures
            res@ == join_spec(self.view().map_values(|n: AstNode| entry_text(n)), seq![32u8]),
    {
        let mut texts: Vec<Vec<u8>> = Vec::new();
        let mut i: usize = 0;
        while i < self.entries.len()
            invariant
                i <= self.entries@.len(),
                texts_view(texts@) == self.view().map_values(|n: AstNode| entry_text(n)).take(
                    i as int,
                ),
            decreases self.entries@.len() - i,
        {
            let t = self.entries[i].render();
            let ghost before = texts_view(texts@);
            texts.push(t);
            proof {
                assert(texts_view(texts@) =~= before.push(t@));
                assert(self.view().map_values(|n: AstNode| entry_text(n)).take(i + 1) =~= self.view().map_values(
                    |n: AstNode| entry_text(n),
                ).take(i as int).push(entry_text(self.entries@[i as int].view())));
            }
            i = i + 1;
        }
        proof {
            assert(self.view().map_values(|n: AstNode| entry_text(n)).take(self.entries@.len() as int)
                =~= self.view().map_values(|n: AstNode| entry_text(n)));
        }
        let sep: Vec<u8> = vec![32u8];
        proof {
            assert(sep@ =~= seq![32u8]);
        }
        Join::new(texts, sep).render()
    }
}

/// The parser from bytes to [`Ast`].
#[derive(Debug, Clone, Copy, PartialEq, Eq)]
pub struct AstParser {
    syntax_parser: SyntaxParser,
}

impl AstParser {
    pub fn new() -> (res: Self) {
        AstParser { syntax_parser: SyntaxParser::new() }
    }

    /// Parses `bytes` into an AST: `Ok` exactly when the input is
    /// well-formed, with the entries of the input in order; the syntax error
    /// otherwise.
    pub fn parse(&self, bytes: Vec<u8>) -> (res: Result<Ast, AstParseError>)
        ensures
            ast_parse_spec(bytes@) matches Ok(es) ==> res matches Ok(ast) && ast.view() == es,
            ast_parse_spec(bytes@) matches Err(e) ==> res matches Err(AstParseError(err)) && err
                == e,
    {
        match self.syntax_parser.parse(&bytes) {
            Err(e) => Err(AstParseError(e)),
            Ok(tree) => {
                let ghost toks = tokenize_spec(bytes@);
                let ghost es = view_entries(tree.entries@);
                proof {
                    lemma_syntax_parse_wf(toks);
                }
                let mut rest = tree.entries;
                let mut entries: Vec<AstEntry> = Vec::new();
                let ghost n = es.len();
                while rest.len() > 0
                    invariant
                        entries@.len() + rest@.len() == n,
                        es.len() == n,
                        forall|x: int| 0 <= x < rest@.len() ==> #[trigger] view_entry(rest@[x]) == es[entries@.len() + x],
                        forall|x: int| 0 <= x < n ==> syn_wf(#[trigger] es[x]),
                        forall|x: int|
                            0 <= x < entries@.len() ==> #[trigger] ast_entry_view(entries@[x]) == ast_of_syn(
                                bytes@,
                                es[x],
                            ),
                    decreases rest@.len(),
                {
                    let first = rest.remove(0);
                    assert(view_entry(first) == es[entries@.len() as int]);
                    let converted = parse_entry(&bytes, first);
                    entries.push(converted);
                    assert forall|x: int| 0 <= x < rest@.len() implies #[trigger] view_entry(rest@[x])
                        == es[entries@.len() + x] by {}
                }
                let ast = Ast { entries };
                proof {
                    assert(ast.view() =~= ast_of_syn_entries(bytes@, es));
                }
                Ok(ast)
            },
        }
    }
}

impl Default for AstParser {
    fn default() -> (res: Self) {
        AstParser::new()
    }
}

} // verus!
