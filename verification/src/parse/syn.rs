//! The syntax layer: groups tokens into entries.
//!
//! An entry is a key (a value token) followed by either `: { entries }`, a
//! binary operator and a value, or a suffix operator. Whitespace and comments
//! may stand between any two tokens; terminators (`;`) may stand between
//! entries, and one terminator right after an entry belongs to it.
use vstd::prelude::*;

use vstd::utf8::encode_utf8;

use crate::ext::lossy::{lossy_text, utf8_lossy};
use crate::ext::text::{push_all, push_str};
use crate::parse::lex::{
    pos_of, tokenize_spec, BinaryOpKind, Span, Token, TokenKind, Tokenizer,
};

verus! {

/// What the parser was looking for when it met an unexpected token or the
/// end of the input.
#[derive(Debug, Clone, Copy, PartialEq, Eq, Hash)]
pub enum Expected {
    KeyString,
    GroupOpening,
    ValueAfterOperator,
    OperatorAfterKey,
}

#[derive(Debug)]
pub enum SyntaxError {
    /// The token `token` stands where `expected` was required.
    Expected { expected: Expected, token: Token },
    /// The input ended where `expected` was required.
    ExpectedButFoundEof { expected: Expected },
    /// An entry inside the group whose key is the token `group` is malformed.
    InGroup { group: Token, error: Box<SyntaxError> },
}

/// A parsed entry, with the tokens it was made of.
#[derive(Debug)]
pub enum SyntaxTreeEntry {
    Group {
        identifier: Token,
        op: Token,
        open: Token,
        entries: Vec<SyntaxTreeEntry>,
        close: Token,
        terminator: Option<Token>,
    },
    BinaryOp { identifier: Token, op: Token, value: Token, terminator: Option<Token> },
    SuffixUnaryOp { identifier: Token, op: Token, terminator: Option<Token> },
}

/// The entries of a whole input.
#[derive(Debug)]
pub struct SyntaxTree {
    pub entries: Vec<SyntaxTreeEntry>,
}

/// The mathematical form of a [`SyntaxTreeEntry`].
pub enum SynEntry {
    Group {
        identifier: Token,
        op: Token,
        open: Token,
        entries: Seq<SynEntry>,
        close: Token,
        terminator: Option<Token>,
    },
    BinaryOp { identifier: Token, op: Token, value: Token, terminator: Option<Token> },
    SuffixUnaryOp { identifier: Token, op: Token, terminator: Option<Token> },
}

pub open spec fn view_entry(e: SyntaxTreeEntry) -> SynEntry
    decreases e,
{
    match e {
        SyntaxTreeEntry::Group { identifier, op, open, entries, close, terminator } => {
            SynEntry::Group {
                identifier,
                op,
                open,
                entries: Seq::new(
                    entries@.len(),
                    |i: int|
                        if 0 <= i < entries@.len() {
                            view_entry(entries@[i])
                        } else {
                            SynEntry::SuffixUnaryOp { identifier: op, op, terminator: None }
                        },
                ),
                close,
                terminator,
            }
        },
        SyntaxTreeEntry::BinaryOp { identifier, op, value, terminator } => SynEntry::BinaryOp {
            identifier,
            op,
            value,
            terminator,
        },
        SyntaxTreeEntry::SuffixUnaryOp { identifier, op, terminator } => SynEntry::SuffixUnaryOp {
            identifier,
            op,
            terminator,
        },
    }
}

pub open spec fn view_entries(v: Seq<SyntaxTreeEntry>) -> Seq<SynEntry> {
    Seq::new(v.len(), |i: int| view_entry(v[i]))
}

// ---------------------------------------------------------------------------
// The grammar as spec functions

/// Whitespace and comments.
pub open spec fn is_trivia(t: Token) -> bool {
    t.kind is Whitespace || t.kind is Comment
}

/// Trivia and terminators.
pub open spec fn is_separator(t: Token) -> bool {
    is_trivia(t) || t.kind is Terminator
}

/// The first index at or after `i` that holds no trivia.
pub open spec fn skip_trivia(toks: Seq<Token>, i: int) -> int
    decreases toks.len() - i,
{
    if 0 <= i < toks.len() && is_trivia(toks[i]) {
        skip_trivia(toks, i + 1)
    } else {
        i
    }
}

/// The first index at or after `i` that holds no separator.
pub open spec fn skip_separators(toks: Seq<Token>, i: int) -> int
    decreases toks.len() - i,
{
    if 0 <= i < toks.len() && is_separator(toks[i]) {
        skip_separators(toks, i + 1)
    } else {
        i
    }
}

/// Skipping trivia stays within the tokens and never goes back.
pub proof fn lemma_skip_trivia(toks: Seq<Token>, i: int)
    requires 0 <= i <= toks.len(),
    ensures i <= skip_trivia(toks, i) <= toks.len(),
    decreases toks.len() - i,
{
    if i < toks.len() && is_trivia(toks[i]) {
        lemma_skip_trivia(toks, i + 1);
    }
}

/// Skipping separators stays within the tokens and never goes back.
pub proof fn lemma_skip_separators(toks: Seq<Token>, i: int)
    requires 0 <= i <= toks.len(),
    ensures i <= skip_separators(toks, i) <= toks.len(),
    decreases toks.len() - i,
{
    if i < toks.len() && is_separator(toks[i]) {
        lemma_skip_separators(toks, i + 1);
    }
}

/// After an entry that ends before `j`: skips trivia and takes one
/// terminator if it follows; returns the terminator and where the next entry
/// may start.
pub open spec fn finish_terminator(toks: Seq<Token>, j: int) -> (Option<Token>, int) {
    let k = skip_trivia(toks, j);
    if 0 <= k < toks.len() && toks[k].kind is Terminator {
        (Some(toks[k]), k + 1)
    } else {
        (None, k)
    }
}

/// Parses one entry starting at index `i` of `toks`; on success, returns it
/// with the index just after it.
pub open spec fn parse_entry_spec(toks: Seq<Token>, i: int) -> Result<(SynEntry, int), SyntaxError>
    decreases toks.len() - i, 0int,
{
    if i < 0 || i > toks.len() {
        Err(SyntaxError::ExpectedButFoundEof { expected: Expected::KeyString })
    } else {
        let k = skip_separators(toks, i);
        if k >= toks.len() {
            Err(SyntaxError::ExpectedButFoundEof { expected: Expected::KeyString })
        } else if !(toks[k].kind is Value) {
            Err(SyntaxError::Expected { expected: Expected::KeyString, token: toks[k] })
        } else {
            let identifier = toks[k];
            let m = skip_trivia(toks, k + 1);
            if m >= toks.len() {
                Err(SyntaxError::ExpectedButFoundEof { expected: Expected::OperatorAfterKey })
            } else {
                let op = toks[m];
                match op.kind {
                    TokenKind::BinaryOp(BinaryOpKind::Group) => {
                        let o = skip_trivia(toks, m + 1);
                        if o >= toks.len() {
                            Err(SyntaxError::ExpectedButFoundEof { expected: Expected::GroupOpening })
                        } else if !(toks[o].kind is GroupingOpen) {
                            Err(
                                SyntaxError::Expected {
                                    expected: Expected::GroupOpening,
                                    token: toks[o],
                                },
                            )
                        } else {
                            proof {
                                lemma_skip_separators(toks, i);
                                lemma_skip_trivia(toks, k + 1);
                                lemma_skip_trivia(toks, m + 1);
                            }
                            match parse_body_spec(toks, o + 1, identifier, seq![]) {
                                Err(e) => Err(e),
                                Ok((entries, close, j)) => {
                                    let (terminator, end) = finish_terminator(toks, j);
                                    Ok(
                                        (
                                            SynEntry::Group {
                                                identifier,
                                                op,
                                                open: toks[o],
                                                entries,
                                                close,
                                                terminator,
                                            },
                                            end,
                                        ),
                                    )
                                },
                            }
                        }
                    },
                    TokenKind::BinaryOp(_) => {
                        let v = skip_trivia(toks, m + 1);
                        if v >= toks.len() {
                            Err(
                                SyntaxError::ExpectedButFoundEof {
                                    expected: Expected::ValueAfterOperator,
                                },
                            )
                        } else if !(toks[v].kind is Value) {
                            Err(
                                SyntaxError::Expected {
                                    expected: Expected::ValueAfterOperator,
                                    token: toks[v],
                                },
                            )
                        } else {
                            let (terminator, end) = finish_terminator(toks, v + 1);
                            Ok(
                                (
                                    SynEntry::BinaryOp { identifier, op, value: toks[v], terminator },
                                    end,
                                ),
                            )
                        }
                    },
                    TokenKind::SuffixUnaryOp(_) => {
                        let (terminator, end) = finish_terminator(toks, m + 1);
                        Ok((SynEntry::SuffixUnaryOp { identifier, op, terminator }, end))
                    },
                    _ => Err(
                        SyntaxError::Expected { expected: Expected::OperatorAfterKey, token: op },
                    ),
                }
            }
        }
    }
}

/// The terminator an entry keeps, if it took one.
pub open spec fn syn_terminator(e: SynEntry) -> Option<Token> {
    match e {
        SynEntry::Group { terminator, .. } => terminator,
        SynEntry::BinaryOp { terminator, .. } => terminator,
        SynEntry::SuffixUnaryOp { terminator, .. } => terminator,
    }
}

/// The key an entry starts with.
pub open spec fn syn_identifier(e: SynEntry) -> Token {
    match e {
        SynEntry::Group { identifier, .. } => identifier,
        SynEntry::BinaryOp { identifier, .. } => identifier,
        SynEntry::SuffixUnaryOp { identifier, .. } => identifier,
    }
}

proof fn lemma_finish_terminator(toks: Seq<Token>, j: int)
    requires
        0 <= j <= toks.len(),
    ensures
        j <= finish_terminator(toks, j).1 <= toks.len(),
        match finish_terminator(toks, j).0 {
            Some(t) => t.kind is Terminator && toks[finish_terminator(toks, j).1 - 1] == t,
            None => finish_terminator(toks, j).1 == toks.len() || !is_separator(
                toks[finish_terminator(toks, j).1],
            ),
        },
{
    lemma_skip_trivia(toks, j);
    let k = skip_trivia(toks, j);
    assert(k == toks.len() || !is_trivia(toks[k])) by {
        lemma_skip_trivia_stops(toks, j);
    }
}

proof fn lemma_skip_trivia_stops(toks: Seq<Token>, i: int)
    requires
        0 <= i <= toks.len(),
    ensures
        skip_trivia(toks, i) == toks.len() || !is_trivia(toks[skip_trivia(toks, i)]),
    decreases toks.len() - i,
{
    if i < toks.len() && is_trivia(toks[i]) {
        lemma_skip_trivia_stops(toks, i + 1);
    }
}

proof fn lemma_parse_body_bound(toks: Seq<Token>, i: int, group: Token, acc: Seq<SynEntry>)
    ensures
        parse_body_spec(toks, i, group, acc) matches Ok((_, _, j)) ==> i < j <= toks.len(),
    decreases toks.len() - i,
{
    if 0 <= i <= toks.len() && !(i < toks.len() && toks[i].kind is GroupingClose) {
        if i < toks.len() && is_separator(toks[i]) {
            lemma_parse_body_bound(toks, i + 1, group, acc);
        } else if let Ok((e, j)) = parse_entry_spec(toks, i) {
            if i < j <= toks.len() {
                lemma_parse_body_bound(toks, j, group, acc.push(e));
            }
        }
    }
}

/// Reading an entry from index `i` passes over the separators before it,
/// starts the entry at the first token that is none, and takes the trivia
/// after the entry and at most one terminator, which the entry keeps: it
/// consumes at least two tokens, and where it keeps no terminator the next
/// token, if there is one, is no separator.
pub proof fn lemma_parse_entry_consumes(toks: Seq<Token>, i: int)
    requires
        0 <= i <= toks.len(),
    ensures
        parse_entry_spec(toks, i) matches Ok((e, end)) ==> {
            &&& i + 2 <= end <= toks.len()
            &&& syn_identifier(e) == toks[skip_separators(toks, i)]
            &&& match syn_terminator(e) {
                Some(t) => t.kind is Terminator && toks[end - 1] == t,
                None => end == toks.len() || !is_separator(toks[end]),
            }
        },
{
    lemma_skip_separators(toks, i);
    let k = skip_separators(toks, i);
    if k < toks.len() && toks[k].kind is Value {
        lemma_skip_trivia(toks, k + 1);
        let m = skip_trivia(toks, k + 1);
        if m < toks.len() {
            lemma_skip_trivia(toks, m + 1);
            let v = skip_trivia(toks, m + 1);
            if v < toks.len() {
                lemma_finish_terminator(toks, v + 1);
                lemma_parse_body_bound(toks, v + 1, toks[k], seq![]);
                if let Ok((_, _, j)) = parse_body_spec(toks, v + 1, toks[k], seq![]) {
                    lemma_finish_terminator(toks, j);
                }
            }
            lemma_finish_terminator(toks, m + 1);
        }
    }
}

/// Parses the body of the group whose key is `group`, from index `i` (just
/// after `{`, or after entries already parsed into `acc`); on success,
/// returns all its entries, the closing `}` and the index just after it.
pub open spec fn parse_body_spec(
    toks: Seq<Token>,
    i: int,
    group: Token,
    acc: Seq<SynEntry>,
) -> Result<(Seq<SynEntry>, Token, int), SyntaxError>
    decreases toks.len() - i, 1int,
{
    if i < 0 || i > toks.len() {
        Err(
            SyntaxError::InGroup {
                group,
                error: Box::new(SyntaxError::ExpectedButFoundEof { expected: Expected::KeyString }),
            },
        )
    } else if i < toks.len() && toks[i].kind is GroupingClose {
        Ok((acc, toks[i], i + 1))
    } else if i < toks.len() && is_separator(toks[i]) {
        parse_body_spec(toks, i + 1, group, acc)
    } else {
        match parse_entry_spec(toks, i) {
            Err(e) => Err(SyntaxError::InGroup { group, error: Box::new(e) }),
            Ok((e, j)) => {
                if i < j <= toks.len() {
                    parse_body_spec(toks, j, group, acc.push(e))
                } else {
                    Err(
                        SyntaxError::InGroup {
                            group,
                            error: Box::new(
                                SyntaxError::ExpectedButFoundEof { expected: Expected::KeyString },
                            ),
                        },
                    )
                }
            },
        }
    }
}

/// Parses entries from index `i` to the end of `toks`, after the entries
/// `acc` already parsed.
pub open spec fn parse_entries_spec(toks: Seq<Token>, i: int, acc: Seq<SynEntry>) -> Result<
    Seq<SynEntry>,
    SyntaxError,
>
    decreases toks.len() - i,
{
    if i < 0 || i > toks.len() {
        Ok(acc)
    } else {
        let k = skip_separators(toks, i);
        if k >= toks.len() {
            Ok(acc)
        } else {
            match parse_entry_spec(toks, k) {
                Err(e) => Err(e),
                Ok((e, j)) => {
                    if i < j <= toks.len() {
                        parse_entries_spec(toks, j, acc.push(e))
                    } else {
                        Ok(acc)
                    }
                },
            }
        }
    }
}

/// The entries of a whole token sequence.
pub open spec fn syntax_parse_spec(toks: Seq<Token>) -> Result<Seq<SynEntry>, SyntaxError> {
    parse_entries_spec(toks, 0, seq![])
}

// ---------------------------------------------------------------------------
// Executable parser

fn exec_skip_trivia(toks: &Vec<Token>, i: usize) -> (res: usize)
    requires i <= toks@.len(),
    ensures res == skip_trivia(toks@, i as int),
{
    let mut j = i;
    while j < toks.len() && (matches!(toks[j].kind, TokenKind::Whitespace) || matches!(
        toks[j].kind,
        TokenKind::Comment
    ))
        invariant
            i <= j <= toks@.len(),
            skip_trivia(toks@, i as int) == skip_trivia(toks@, j as int),
        decreases toks@.len() - j,
    {
        j = j + 1;
    }
    j
}

fn exec_skip_separators(toks: &Vec<Token>, i: usize) -> (res: usize)
    requires i <= toks@.len(),
    ensures res == skip_separators(toks@, i as int),
{
    let mut j = i;
    while j < toks.len() && (matches!(toks[j].kind, TokenKind::Whitespace) || matches!(
        toks[j].kind,
        TokenKind::Comment
    ) || matches!(toks[j].kind, TokenKind::Terminator))
        invariant
            i <= j <= toks@.len(),
            skip_separators(toks@, i as int) == skip_separators(toks@, j as int),
        decreases toks@.len() - j,
    {
        j = j + 1;
    }
    j
}

fn exec_finish_terminator(toks: &Vec<Token>, j: usize) -> (res: (Option<Token>, usize))
    requires j <= toks@.len(),
    ensures
        (res.0, res.1 as int) == finish_terminator(toks@, j as int),
        j <= res.1 <= toks@.len(),
{
    let k = exec_skip_trivia(toks, j);
    proof {
        lemma_skip_trivia(toks@, j as int);
    }
    if k < toks.len() && matches!(toks[k].kind, TokenKind::Terminator) {
        (Some(toks[k]), k + 1)
    } else {
        (None, k)
    }
}

impl SyntaxTreeEntry {
    /// The mathematical form of this entry.
    pub open spec fn view(self) -> SynEntry {
        view_entry(self)
    }

    /// Parses one entry starting at index `*pos` of `tokens` and moves `*pos`
    /// just after it.
    pub fn parse(tokens: &Vec<Token>, pos: &mut usize) -> (res: Result<SyntaxTreeEntry, SyntaxError>)
        requires *old(pos) <= tokens@.len(),
        ensures
            parse_entry_spec(tokens@, *old(pos) as int) matches Ok((e, j)) ==> res matches Ok(r)
                && r.view() == e && *final(pos) == j,
            parse_entry_spec(tokens@, *old(pos) as int) matches Err(e) ==> res == Err::<
                SyntaxTreeEntry,
                SyntaxError,
            >(e),
            res is Ok ==> *old(pos) < *final(pos) <= tokens@.len(),
        decreases tokens@.len() - *old(pos),
    {
        let len = tokens.len();
        let i = *pos;
        let k = exec_skip_separators(tokens, i);
        proof {
            lemma_skip_separators(tokens@, i as int);
        }
        if k >= len {
            return Err(SyntaxError::ExpectedButFoundEof { expected: Expected::KeyString });
        }
        let identifier = tokens[k];
        if !matches!(identifier.kind, TokenKind::Value(_)) {
            return Err(SyntaxError::Expected { expected: Expected::KeyString, token: identifier });
        }
        let m = exec_skip_trivia(tokens, k + 1);
        proof {
            lemma_skip_trivia(tokens@, k + 1);
        }
        if m >= len {
            return Err(SyntaxError::ExpectedButFoundEof { expected: Expected::OperatorAfterKey });
        }
        let op = tokens[m];
        match op.kind {
            TokenKind::BinaryOp(BinaryOpKind::Group) => {
                let o = exec_skip_trivia(tokens, m + 1);
                proof {
                    lemma_skip_trivia(tokens@, m + 1);
                }
                if o >= len {
                    return Err(SyntaxError::ExpectedButFoundEof { expected: Expected::GroupOpening });
                }
                let open = tokens[o];
                if !matches!(open.kind, TokenKind::GroupingOpen) {
                    return Err(SyntaxError::Expected { expected: Expected::GroupOpening, token: open });
                }
                let mut entries: Vec<SyntaxTreeEntry> = Vec::new();
                let mut p = o + 1;
                proof {
                    assert(view_entries(entries@) =~= seq![]);
                }
                loop
                    invariant
                        len == tokens@.len(),
                        i < p <= len,
                        o < p,
                        *old(pos) == i,
                        k < len,
                        tokens@[k as int] == identifier,
                        tokens@[m as int] == op,
                        tokens@[o as int] == open,
                        identifier.kind is Value,
                        op.kind == TokenKind::BinaryOp(BinaryOpKind::Group),
                        open.kind is GroupingOpen,
                        k == skip_separators(tokens@, i as int),
                        m == skip_trivia(tokens@, k + 1),
                        o == skip_trivia(tokens@, m + 1),
                        parse_body_spec(tokens@, o + 1, identifier, seq![]) == parse_body_spec(
                            tokens@,
                            p as int,
                            identifier,
                            view_entries(entries@),
                        ),
                    decreases len - p,
                {
                    if p < len && matches!(tokens[p].kind, TokenKind::GroupingClose) {
                        let close = tokens[p];
                        let (terminator, end) = exec_finish_terminator(tokens, p + 1);
                        *pos = end;
                        let r = SyntaxTreeEntry::Group {
                            identifier,
                            op,
                            open,
                            entries,
                            close,
                            terminator,
                        };
                        proof {
                            assert(view_entries(entries@) =~= match view_entry(r) {
                                SynEntry::Group { entries, .. } => entries,
                                _ => seq![],
                            });
                        }
                        return Ok(r);
                    } else if p < len && (matches!(tokens[p].kind, TokenKind::Whitespace)
                        || matches!(tokens[p].kind, TokenKind::Comment) || matches!(
                        tokens[p].kind,
                        TokenKind::Terminator
                    )) {
                        p = p + 1;
                    } else {
                        let mut q = p;
                        match SyntaxTreeEntry::parse(tokens, &mut q) {
                            Err(e) => {
                                return Err(SyntaxError::InGroup { group: identifier, error: Box::new(e) });
                            },
                            Ok(e) => {
                                proof {
                                    assert(view_entries(entries@.push(e)) =~= view_entries(
                                        entries@,
                                    ).push(view_entry(e)));
                                }
                                entries.push(e);
                                p = q;
                            },
                        }
                    }
                }
            },
            TokenKind::BinaryOp(_) => {
                let v = exec_skip_trivia(tokens, m + 1);
                proof {
                    lemma_skip_trivia(tokens@, m + 1);
                }
                if v >= len {
                    return Err(SyntaxError::ExpectedButFoundEof { expected: Expected::ValueAfterOperator });
                }
                let value = tokens[v];
                if !matches!(value.kind, TokenKind::Value(_)) {
                    return Err(SyntaxError::Expected { expected: Expected::ValueAfterOperator, token: value });
                }
                let (terminator, end) = exec_finish_terminator(tokens, v + 1);
                *pos = end;
                Ok(SyntaxTreeEntry::BinaryOp { identifier, op, value, terminator })
            },
            TokenKind::SuffixUnaryOp(_) => {
                let (terminator, end) = exec_finish_terminator(tokens, m + 1);
                *pos = end;
                Ok(SyntaxTreeEntry::SuffixUnaryOp { identifier, op, terminator })
            },
            _ => Err(SyntaxError::Expected { expected: Expected::OperatorAfterKey, token: op }),
        }
    }
}

/// The parser of the configuration language's syntax.
#[derive(Debug, Clone, Copy, PartialEq, Eq)]
pub struct SyntaxParser {
    tokenizer: Tokenizer,
}

impl SyntaxParser {
    pub fn new() -> (res: Self) {
        SyntaxParser { tokenizer: Tokenizer::new() }
    }

    /// Builds the parser; the grammar is fixed, so this cannot fail.
    pub fn compile() -> (res: Self) {
        SyntaxParser { tokenizer: Tokenizer::compile() }
    }

    /// Parses all entries of a token sequence.
    pub fn parse_tokens(tokens: &Vec<Token>) -> (res: Result<SyntaxTree, SyntaxError>)
        ensures
            syntax_parse_spec(tokens@) matches Ok(es) ==> res matches Ok(t) && view_entries(
                t.entries@,
            ) == es,
            syntax_parse_spec(tokens@) matches Err(e) ==> res == Err::<SyntaxTree, SyntaxError>(e),
    {
        let len = tokens.len();
        let mut entries: Vec<SyntaxTreeEntry> = Vec::new();
        let mut i: usize = 0;
        proof {
            assert(view_entries(entries@) =~= seq![]);
        }
        loop
            invariant
                len == tokens@.len(),
                i <= len,
                syntax_parse_spec(tokens@) == parse_entries_spec(
                    tokens@,
                    i as int,
                    view_entries(entries@),
                ),
            decreases len - i,
        {
            let k = exec_skip_separators(tokens, i);
            proof {
                lemma_skip_separators(tokens@, i as int);
            }
            if k >= len {
                return Ok(SyntaxTree { entries });
            }
            let mut q = k;
            match SyntaxTreeEntry::parse(tokens, &mut q) {
                Err(e) => {
                    return Err(e);
                },
                Ok(e) => {
                    proof {
                        assert(view_entries(entries@.push(e)) =~= view_entries(entries@).push(
                            view_entry(e),
                        ));
                    }
                    entries.push(e);
                    i = q;
                },
            }
        }
    }

    /// Tokenizes `bytes` and parses all its entries.
    pub fn parse(&self, bytes: &Vec<u8>) -> (res: Result<SyntaxTree, SyntaxError>)
        ensures
            syntax_parse_spec(tokenize_spec(bytes@)) matches Ok(es) ==> res matches Ok(t)
                && view_entries(t.entries@) == es,
            syntax_parse_spec(tokenize_spec(bytes@)) matches Err(e) ==> res == Err::<
                SyntaxTree,
                SyntaxError,
            >(e),
    {
        let tokens = self.tokenizer.tokenize_all(bytes);
        SyntaxParser::parse_tokens(&tokens)
    }
}

impl Default for SyntaxParser {
    fn default() -> (res: Self) {
        SyntaxParser::new()
    }
}

// ---------------------------------------------------------------------------
// Messages

/// What was expected, as the message says it.
pub open spec fn expected_text(e: Expected) -> Seq<char> {
    match e {
        Expected::KeyString => "key string"@,
        Expected::GroupOpening => "group opening '{'"@,
        Expected::ValueAfterOperator => "value string after operator"@,
        Expected::OperatorAfterKey => "operator after key string"@,
    }
}

/// The name of a kind of token, as the message says it.
pub open spec fn kind_name(k: TokenKind) -> Seq<char> {
    match k {
        TokenKind::Whitespace => "Whitespace"@,
        TokenKind::Value(_) => "Value"@,
        TokenKind::BinaryOp(_) => "BinaryOp"@,
        TokenKind::SuffixUnaryOp(_) => "SuffixUnaryOp"@,
        TokenKind::GroupingOpen => "GroupingOpen"@,
        TokenKind::GroupingClose => "GroupingClose"@,
        TokenKind::Terminator => "Terminator"@,
        TokenKind::Comment => "Comment"@,
        TokenKind::Unknown => "Unknown"@,
    }
}

/// The span of `t` in `buf`, written `line:column..line:column`.
pub open spec fn token_span_text(t: Token, buf: Seq<u8>) -> Seq<u8> {
    Span { start: pos_of(buf.subrange(0, t.start as int)), end: pos_of(buf.subrange(0, t.end as int)) }.text()
}

/// Every token an error names lies inside a buffer of `len` bytes.
pub open spec fn error_within(e: SyntaxError, len: int) -> bool
    decreases e,
{
    match e {
        SyntaxError::Expected { token, .. } => token.within(len),
        SyntaxError::ExpectedButFoundEof { .. } => true,
        SyntaxError::InGroup { group, error } => group.within(len) && error_within(*error, len),
    }
}

/// The message of a syntax error found in `buf`, as UTF-8 text: what was
/// expected and the token found, with its text and span, or the end of the
/// input; an error inside a group is preceded by the group's key. Token
/// texts are written as `String::from_utf8_lossy` writes them.
pub open spec fn syntax_error_text(e: SyntaxError, buf: Seq<u8>) -> Seq<u8>
    decreases e,
{
    match e {
        SyntaxError::Expected { expected, token } => encode_utf8("unexpected "@) + encode_utf8(
            expected_text(expected),
        ) + encode_utf8(" but found "@) + encode_utf8(kind_name(token.kind)) + encode_utf8("("@)
            + utf8_lossy(buf.subrange(token.start as int, token.end as int)) + encode_utf8(") at "@)
            + token_span_text(token, buf),
        SyntaxError::ExpectedButFoundEof { expected } => encode_utf8("unexpected "@) + encode_utf8(
            expected_text(expected),
        ) + encode_utf8(" but found end-of-file"@),
        SyntaxError::InGroup { group, error } => encode_utf8("in group "@) + utf8_lossy(
            buf.subrange(group.start as int, group.end as int),
        ) + encode_utf8(", "@) + syntax_error_text(*error, buf),
    }
}

fn expected_str(e: Expected) -> (res: &'static str)
    ensures
        res@ == expected_text(e),
{
    match e {
        Expected::KeyString => "key string",
        Expected::GroupOpening => "group opening '{'",
        Expected::ValueAfterOperator => "value string after operator",
        Expected::OperatorAfterKey => "operator after key string",
    }
}

fn kind_str(k: TokenKind) -> (res: &'static str)
    ensures
        res@ == kind_name(k),
{
    match k {
        TokenKind::Whitespace => "Whitespace",
        TokenKind::Value(_) => "Value",
        TokenKind::BinaryOp(_) => "BinaryOp",
        TokenKind::SuffixUnaryOp(_) => "SuffixUnaryOp",
        TokenKind::GroupingOpen => "GroupingOpen",
        TokenKind::GroupingClose => "GroupingClose",
        TokenKind::Terminator => "Terminator",
        TokenKind::Comment => "Comment",
        TokenKind::Unknown => "Unknown",
    }
}

impl SyntaxError {
    /// Whether every token this error names lies inside a buffer of `len`
    /// bytes.
    pub fn is_within(&self, len: usize) -> (res: bool)
        ensures
            res == error_within(*self, len as int),
        decreases self,
    {
        match self {
            SyntaxError::Expected { token, .. } => token.start <= token.end && token.end <= len,
            SyntaxError::ExpectedButFoundEof { .. } => true,
            SyntaxError::InGroup { group, error } => group.start <= group.end && group.end <= len
                && error.is_within(len),
        }
    }

    /// The message of this error, found in `buffer`, as UTF-8 text.
    pub fn message(&self, buffer: &Vec<u8>) -> (res: Vec<u8>)
        requires
            error_within(*self, buffer@.len() as int),
        ensures
            res@ == syntax_error_text(*self, buffer@),
        decreases self,
    {
        let mut out: Vec<u8> = Vec::new();
        match self {
            SyntaxError::Expected { expected, token } => {
                push_str(&mut out, "unexpected ");
                push_str(&mut out, expected_str(*expected));
                push_str(&mut out, " but found ");
                push_str(&mut out, kind_str(token.kind));
                push_str(&mut out, "(");
                let text = lossy_text(token.as_bytes(buffer).as_slice());
                push_all(&mut out, text.as_slice());
                push_str(&mut out, ") at ");
                let span = token.span(buffer).render();
                push_all(&mut out, span.as_slice());
                proof {
                    assert(out@ =~= syntax_error_text(*self, buffer@));
                }
            },
            SyntaxError::ExpectedButFoundEof { expected } => {
                push_str(&mut out, "unexpected ");
                push_str(&mut out, expected_str(*expected));
                push_str(&mut out, " but found end-of-file");
                proof {
                    assert(out@ =~= syntax_error_text(*self, buffer@));
                }
            },
            SyntaxError::InGroup { group, error } => {
                push_str(&mut out, "in group ");
                let text = lossy_text(group.as_bytes(buffer).as_slice());
                push_all(&mut out, text.as_slice());
                push_str(&mut out, ", ");
                let inner = error.message(buffer);
                push_all(&mut out, inner.as_slice());
                proof {
                    assert(out@ =~= syntax_error_text(*self, buffer@));
                }
            },
        }
        out
    }
}

} // verus!
