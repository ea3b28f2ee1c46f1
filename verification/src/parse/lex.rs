//! The lexical layer: splits a byte buffer into tokens.
//!
//! At every position the tokenizer tries, in this order: whitespace, a value
//! string (quoted, quoted with escapes, raw, raw with escapes), a binary
//! operator (`=`, `:=`, `+=`, `-=`, `:`), a suffix operator (`!!`, `!`), `{`,
//! `}`, `;` and a `#` comment running to the end of the line, the line's `\n`
//! included. Bytes at which nothing starts are gathered into one `Unknown`
//! token that stops where the next token starts.
use vstd::prelude::*;

use crate::ext::text::{decimal_text, push_all, push_decimal};

verus! {

/// A line/column position in a buffer, both counted from zero.
#[derive(Debug, Clone, Copy, PartialEq, Eq, PartialOrd, Ord, Hash)]
pub struct Pos {
    pub line: usize,
    pub column: usize,
}

/// The positions of the first byte of a token and of the byte after it.
#[derive(Debug, Clone, Copy, PartialEq, Eq, PartialOrd, Ord, Hash)]
pub struct Span {
    pub start: Pos,
    pub end: Pos,
}

impl Pos {
    /// `line:column`, both counted from one.
    pub open spec fn text(&self) -> Seq<u8> {
        decimal_text((self.line + 1) as nat) + seq![58u8] + decimal_text((self.column + 1) as nat)
    }

    /// The position written out, `line:column`, counting from one.
    pub fn render(&self) -> (res: Vec<u8>)
        ensures
            res@ == self.text(),
    {
        let mut out: Vec<u8> = Vec::new();
        push_decimal(&mut out, self.line as u128 + 1);
        out.push(58u8);
        push_decimal(&mut out, self.column as u128 + 1);
        proof {
            assert(out@ =~= self.text());
        }
        out
    }
}

impl Span {
    /// `start..end`.
    pub open spec fn text(&self) -> Seq<u8> {
        self.start.text() + seq![46u8, 46] + self.end.text()
    }

    /// The span written out, `start..end`.
    pub fn render(&self) -> (res: Vec<u8>)
        ensures
            res@ == self.text(),
    {
        let mut out = self.start.render();
        out.push(46u8);
        out.push(46u8);
        let end = self.end.render();
        push_all(&mut out, end.as_slice());
        proof {
            assert(out@ =~= self.text());
        }
        out
    }
}

/// Which of the four value grammars matched a value token.
#[derive(Debug, Clone, Copy, PartialEq, Eq, Hash)]
pub enum ValueKind {
    /// `"..."` without backslashes inside.
    QString,
    /// `"..."` whose content holds backslash escapes.
    QEString,
    /// A raw string of `[A-Za-z0-9_./]`, with `-` and `:` allowed inside.
    String,
    /// A raw string that holds backslash escapes.
    EString,
}

#[derive(Debug, Clone, Copy, PartialEq, Eq, Hash)]
pub enum BinaryOpKind {
    Assign,
    AssignIfUndefined,
    Add,
    Remove,
    Group,
}

#[derive(Debug, Clone, Copy, PartialEq, Eq, Hash)]
pub enum SuffixUnaryOpKind {
    Reset,
    Clear,
}

#[derive(Debug, Clone, Copy, PartialEq, Eq, Hash)]
pub enum TokenKind {
    Whitespace,
    Value(ValueKind),
    BinaryOp(BinaryOpKind),
    SuffixUnaryOp(SuffixUnaryOpKind),
    GroupingOpen,
    GroupingClose,
    Terminator,
    Comment,
    Unknown,
}

/// A token: its kind and the byte range `start..end` it covers in the buffer
/// it was read from.
#[derive(Debug, Clone, Copy, PartialEq, Eq, Hash)]
pub struct Token {
    pub kind: TokenKind,
    pub start: usize,
    pub end: usize,
}

// ---------------------------------------------------------------------------
// Byte classes

/// ASCII whitespace: tab, line feed, vertical tab, form feed, carriage return
/// and space.
pub open spec fn is_ws(b: u8) -> bool {
    b == 9 || b == 10 || b == 11 || b == 12 || b == 13 || b == 32
}

/// Bytes that may start and end a raw string: `[A-Za-z0-9_./]`.
pub open spec fn is_raw_edge(b: u8) -> bool {
    (65 <= b <= 90) || (97 <= b <= 122) || (48 <= b <= 57) || b == 95 || b == 46 || b == 47
}

/// Bytes that may appear inside a raw string: the edge bytes, `-` and `:`.
pub open spec fn is_raw_inner(b: u8) -> bool {
    is_raw_edge(b) || b == 45 || b == 58
}

pub const QUOTE: u8 = 34;
pub const BACKSLASH: u8 = 92;
pub const NEWLINE: u8 = 10;

fn exec_is_ws(b: u8) -> (res: bool)
    ensures res == is_ws(b),
{
    b == 9 || b == 10 || b == 11 || b == 12 || b == 13 || b == 32
}

fn exec_is_raw_edge(b: u8) -> (res: bool)
    ensures res == is_raw_edge(b),
{
    (65 <= b && b <= 90) || (97 <= b && b <= 122) || (48 <= b && b <= 57) || b == 95 || b == 46
        || b == 47
}

fn exec_is_raw_inner(b: u8) -> (res: bool)
    ensures res == is_raw_inner(b),
{
    exec_is_raw_edge(b) || b == 45 || b == 58
}

// ---------------------------------------------------------------------------
// The token grammar as spec functions

/// The end of the run of whitespace that starts at `i`.
pub open spec fn ws_end(s: Seq<u8>, i: int) -> int
    decreases s.len() - i,
{
    if 0 <= i < s.len() && is_ws(s[i]) {
        ws_end(s, i + 1)
    } else {
        i
    }
}

/// The first index at or after `i` that holds a quote or a backslash (or the
/// end of the buffer).
pub open spec fn plain_end(s: Seq<u8>, i: int) -> int
    decreases s.len() - i,
{
    if 0 <= i < s.len() && s[i] != QUOTE && s[i] != BACKSLASH {
        plain_end(s, i + 1)
    } else {
        i
    }
}

/// The end of the longest run of quoted-string units (a byte other than a
/// quote or a backslash, or a backslash followed by any byte) starting at `i`.
pub open spec fn escaped_end(s: Seq<u8>, i: int) -> int
    decreases s.len() - i,
{
    if 0 <= i < s.len() && s[i] != QUOTE && s[i] != BACKSLASH {
        escaped_end(s, i + 1)
    } else if 0 <= i && i + 1 < s.len() && s[i] == BACKSLASH {
        escaped_end(s, i + 2)
    } else {
        i
    }
}

/// The end of the run of raw-string inner bytes that starts at `i`.
pub open spec fn raw_run_end(s: Seq<u8>, i: int) -> int
    decreases s.len() - i,
{
    if 0 <= i < s.len() && is_raw_inner(s[i]) {
        raw_run_end(s, i + 1)
    } else {
        i
    }
}

/// Steps back from `r` to the end of the last edge byte of a raw string that
/// starts at `p`.
pub open spec fn raw_trim(s: Seq<u8>, p: int, r: int) -> int
    decreases r - p,
{
    if r > p + 1 && 0 <= r - 1 < s.len() && !is_raw_edge(s[r - 1]) {
        raw_trim(s, p, r - 1)
    } else {
        r
    }
}

/// Scans the units of an escaped raw string from `i` (an inner byte, or a
/// backslash followed by any byte) and returns the end of the last unit that
/// may end such a string (an edge byte or an escape); `last` is the end of the
/// last such unit seen so far.
pub open spec fn escaped_raw_scan(s: Seq<u8>, i: int, last: int) -> int
    decreases s.len() - i,
{
    if 0 <= i < s.len() && is_raw_inner(s[i]) {
        escaped_raw_scan(s, i + 1, if is_raw_edge(s[i]) { i + 1 } else { last })
    } else if 0 <= i && i + 1 < s.len() && s[i] == BACKSLASH {
        escaped_raw_scan(s, i + 2, i + 2)
    } else {
        last
    }
}

/// Where a comment that reaches `i` stops: just after the first `\n` at or
/// after `i`, or at the end of the buffer where there is none.
pub open spec fn line_end(s: Seq<u8>, i: int) -> int
    decreases s.len() - i,
{
    if 0 <= i < s.len() && s[i] != NEWLINE {
        line_end(s, i + 1)
    } else if 0 <= i < s.len() {
        i + 1
    } else {
        i
    }
}

/// The token that starts at `p`, as its kind and its end, if any token starts
/// there.
pub open spec fn match_at(s: Seq<u8>, p: int) -> Option<(TokenKind, int)> {
    if p < 0 || p >= s.len() {
        None
    } else {
        let b = s[p];
        if is_ws(b) {
            Some((TokenKind::Whitespace, ws_end(s, p)))
        } else if b == QUOTE {
            let q = plain_end(s, p + 1);
            let e = escaped_end(s, p + 1);
            if q < s.len() && s[q] == QUOTE {
                Some((TokenKind::Value(ValueKind::QString), q + 1))
            } else if e < s.len() && s[e] == QUOTE {
                Some((TokenKind::Value(ValueKind::QEString), e + 1))
            } else {
                None
            }
        } else if is_raw_edge(b) {
            let r = raw_trim(s, p, raw_run_end(s, p));
            let e = escaped_raw_scan(s, p + 1, p + 1);
            if e == r {
                Some((TokenKind::Value(ValueKind::String), r))
            } else {
                Some((TokenKind::Value(ValueKind::EString), e))
            }
        } else if b == BACKSLASH {
            if p + 1 < s.len() {
                Some((TokenKind::Value(ValueKind::EString), escaped_raw_scan(s, p + 2, p + 2)))
            } else {
                None
            }
        } else if b == 61 {
            Some((TokenKind::BinaryOp(BinaryOpKind::Assign), p + 1))
        } else if b == 58 {
            if p + 1 < s.len() && s[p + 1] == 61 {
                Some((TokenKind::BinaryOp(BinaryOpKind::AssignIfUndefined), p + 2))
            } else {
                Some((TokenKind::BinaryOp(BinaryOpKind::Group), p + 1))
            }
        } else if b == 43 {
            if p + 1 < s.len() && s[p + 1] == 61 {
                Some((TokenKind::BinaryOp(BinaryOpKind::Add), p + 2))
            } else {
                None
            }
        } else if b == 45 {
            if p + 1 < s.len() && s[p + 1] == 61 {
                Some((TokenKind::BinaryOp(BinaryOpKind::Remove), p + 2))
            } else {
                None
            }
        } else if b == 33 {
            if p + 1 < s.len() && s[p + 1] == 33 {
                Some((TokenKind::SuffixUnaryOp(SuffixUnaryOpKind::Clear), p + 2))
            } else {
                Some((TokenKind::SuffixUnaryOp(SuffixUnaryOpKind::Reset), p + 1))
            }
        } else if b == 123 {
            Some((TokenKind::GroupingOpen, p + 1))
        } else if b == 125 {
            Some((TokenKind::GroupingClose, p + 1))
        } else if b == 59 {
            Some((TokenKind::Terminator, p + 1))
        } else if b == 35 {
            Some((TokenKind::Comment, line_end(s, p + 1)))
        } else {
            None
        }
    }
}

/// The first index at or after `q` at which a token starts, or the end of the
/// buffer.
pub open spec fn unknown_end(s: Seq<u8>, q: int) -> int
    decreases s.len() - q,
{
    if q < 0 || q >= s.len() {
        s.len() as int
    } else if match_at(s, q) is Some {
        q
    } else {
        unknown_end(s, q + 1)
    }
}

/// The token read at position `p` (which must be inside the buffer).
pub open spec fn next_token(s: Seq<u8>, p: int) -> Token {
    match match_at(s, p) {
        Some((kind, end)) => Token { kind, start: p as usize, end: end as usize },
        None => Token { kind: TokenKind::Unknown, start: p as usize, end: unknown_end(s, p + 1) as usize },
    }
}

/// All tokens read from position `p` onwards.
pub open spec fn tokenize_from(s: Seq<u8>, p: int) -> Seq<Token>
    decreases s.len() - p,
{
    if p < 0 || p >= s.len() {
        seq![]
    } else {
        let t = next_token(s, p);
        if p < t.end <= s.len() {
            seq![t].add(tokenize_from(s, t.end as int))
        } else {
            seq![]
        }
    }
}

/// The tokens of a whole buffer.
pub open spec fn tokenize_spec(s: Seq<u8>) -> Seq<Token> {
    tokenize_from(s, 0)
}

// ---------------------------------------------------------------------------
// Bounds of the scanners

proof fn lemma_ws_end(s: Seq<u8>, i: int)
    requires 0 <= i <= s.len(),
    ensures i <= ws_end(s, i) <= s.len(),
    decreases s.len() - i,
{
    if i < s.len() && is_ws(s[i]) {
        lemma_ws_end(s, i + 1);
    }
}

proof fn lemma_plain_end(s: Seq<u8>, i: int)
    requires 0 <= i <= s.len(),
    ensures i <= plain_end(s, i) <= s.len(),
    decreases s.len() - i,
{
    if i < s.len() && s[i] != QUOTE && s[i] != BACKSLASH {
        lemma_plain_end(s, i + 1);
    }
}

proof fn lemma_escaped_end(s: Seq<u8>, i: int)
    requires 0 <= i <= s.len(),
    ensures i <= escaped_end(s, i) <= s.len(),
    decreases s.len() - i,
{
    if i < s.len() && s[i] != QUOTE && s[i] != BACKSLASH {
        lemma_escaped_end(s, i + 1);
    } else if i + 1 < s.len() && s[i] == BACKSLASH {
        lemma_escaped_end(s, i + 2);
    }
}

proof fn lemma_raw_run_end(s: Seq<u8>, i: int)
    requires 0 <= i <= s.len(),
    ensures i <= raw_run_end(s, i) <= s.len(),
    decreases s.len() - i,
{
    if i < s.len() && is_raw_inner(s[i]) {
        lemma_raw_run_end(s, i + 1);
    }
}

proof fn lemma_raw_trim(s: Seq<u8>, p: int, r: int)
    requires 0 <= p < r <= s.len(),
    ensures p + 1 <= raw_trim(s, p, r) <= r,
    decreases r - p,
{
    if r > p + 1 && !is_raw_edge(s[r - 1]) {
        lemma_raw_trim(s, p, r - 1);
    }
}

proof fn lemma_escaped_raw_scan(s: Seq<u8>, i: int, last: int)
    requires 0 <= last <= i <= s.len(),
    ensures last <= escaped_raw_scan(s, i, last) <= s.len(),
    decreases s.len() - i,
{
    if i < s.len() && is_raw_inner(s[i]) {
        lemma_escaped_raw_scan(s, i + 1, if is_raw_edge(s[i]) { i + 1 } else { last });
    } else if i + 1 < s.len() && s[i] == BACKSLASH {
        lemma_escaped_raw_scan(s, i + 2, i + 2);
    }
}

proof fn lemma_line_end(s: Seq<u8>, i: int)
    requires 0 <= i <= s.len(),
    ensures i <= line_end(s, i) <= s.len(),
    decreases s.len() - i,
{
    if i < s.len() && s[i] != NEWLINE {
        lemma_line_end(s, i + 1);
    }
}

proof fn lemma_unknown_end(s: Seq<u8>, q: int)
    requires 0 <= q <= s.len(),
    ensures q <= unknown_end(s, q) <= s.len(),
    decreases s.len() - q,
{
    if q < s.len() && !(match_at(s, q) is Some) {
        lemma_unknown_end(s, q + 1);
    }
}

/// A token that starts inside the buffer is non-empty and ends inside it.
pub proof fn lemma_match_at(s: Seq<u8>, p: int)
    requires 0 <= p < s.len(), s.len() <= usize::MAX,
    ensures
        match_at(s, p) matches Some((k, e)) ==> p < e <= s.len(),
{
    let b = s[p];
    if is_ws(b) {
        lemma_ws_end(s, p + 1);
        assert(ws_end(s, p) == ws_end(s, p + 1));
    } else if b == QUOTE {
        lemma_plain_end(s, p + 1);
        lemma_escaped_end(s, p + 1);
    } else if is_raw_edge(b) {
        lemma_raw_run_end(s, p + 1);
        assert(raw_run_end(s, p) == raw_run_end(s, p + 1));
        lemma_raw_trim(s, p, raw_run_end(s, p));
        lemma_escaped_raw_scan(s, p + 1, p + 1);
    } else if b == BACKSLASH {
        if p + 1 < s.len() {
            lemma_escaped_raw_scan(s, p + 2, p + 2);
        }
    } else if b == 35 {
        lemma_line_end(s, p + 1);
    }
}

/// The token read at a position inside the buffer starts there, is non-empty
/// and ends inside the buffer.
pub proof fn lemma_next_token(s: Seq<u8>, p: int)
    requires 0 <= p < s.len(), s.len() <= usize::MAX,
    ensures
        next_token(s, p).start == p,
        p < next_token(s, p).end <= s.len(),
{
    lemma_match_at(s, p);
    lemma_unknown_end(s, p + 1);
}

// ---------------------------------------------------------------------------
// Executable scanners

fn exec_ws_end(s: &Vec<u8>, i: usize) -> (res: usize)
    requires i <= s@.len(),
    ensures res == ws_end(s@, i as int),
{
    let mut j = i;
    while j < s.len() && exec_is_ws(s[j])
        invariant
            i <= j <= s@.len(),
            ws_end(s@, i as int) == ws_end(s@, j as int),
        decreases s@.len() - j,
    {
        j = j + 1;
    }
    j
}

fn exec_plain_end(s: &Vec<u8>, i: usize) -> (res: usize)
    requires i <= s@.len(),
    ensures res == plain_end(s@, i as int),
{
    let mut j = i;
    while j < s.len() && s[j] != QUOTE && s[j] != BACKSLASH
        invariant
            i <= j <= s@.len(),
            plain_end(s@, i as int) == plain_end(s@, j as int),
        decreases s@.len() - j,
    {
        j = j + 1;
    }
    j
}

fn exec_escaped_end(s: &Vec<u8>, i: usize) -> (res: usize)
    requires i <= s@.len(),
    ensures res == escaped_end(s@, i as int),
{
    let mut j = i;
    loop
        invariant
            i <= j <= s@.len(),
            escaped_end(s@, i as int) == escaped_end(s@, j as int),
        decreases s@.len() - j,
    {
        if j < s.len() && s[j] != QUOTE && s[j] != BACKSLASH {
            j = j + 1;
        } else if j < s.len() && s.len() - j > 1 && s[j] == BACKSLASH {
            j = j + 2;
        } else {
            return j;
        }
    }
}

fn exec_raw_run_end(s: &Vec<u8>, i: usize) -> (res: usize)
    requires i <= s@.len(),
    ensures res == raw_run_end(s@, i as int),
{
    let mut j = i;
    while j < s.len() && exec_is_raw_inner(s[j])
        invariant
            i <= j <= s@.len(),
            raw_run_end(s@, i as int) == raw_run_end(s@, j as int),
        decreases s@.len() - j,
    {
        j = j + 1;
    }
    j
}

fn exec_raw_trim(s: &Vec<u8>, p: usize, r: usize) -> (res: usize)
    requires p < r <= s@.len(),
    ensures res == raw_trim(s@, p as int, r as int),
{
    let mut j = r;
    while j > p + 1 && !exec_is_raw_edge(s[j - 1])
        invariant
            p < j <= r,
            r <= s@.len(),
            raw_trim(s@, p as int, r as int) == raw_trim(s@, p as int, j as int),
        decreases j,
    {
        j = j - 1;
    }
    j
}

fn exec_escaped_raw_scan(s: &Vec<u8>, i: usize, last: usize) -> (res: usize)
    requires last <= i <= s@.len(),
    ensures res == escaped_raw_scan(s@, i as int, last as int),
{
    let mut j = i;
    let mut l = last;
    loop
        invariant
            l <= j <= s@.len(),
            escaped_raw_scan(s@, i as int, last as int) == escaped_raw_scan(s@, j as int, l as int),
        decreases s@.len() - j,
    {
        if j < s.len() && exec_is_raw_inner(s[j]) {
            if exec_is_raw_edge(s[j]) {
                l = j + 1;
            }
            j = j + 1;
        } else if j < s.len() && s.len() - j > 1 && s[j] == BACKSLASH {
            j = j + 2;
            l = j;
        } else {
            return l;
        }
    }
}

fn exec_line_end(s: &Vec<u8>, i: usize) -> (res: usize)
    requires i <= s@.len(),
    ensures res == line_end(s@, i as int),
{
    let mut j = i;
    while j < s.len() && s[j] != NEWLINE
        invariant
            i <= j <= s@.len(),
            line_end(s@, i as int) == line_end(s@, j as int),
        decreases s@.len() - j,
    {
        j = j + 1;
    }
    if j < s.len() {
        j + 1
    } else {
        j
    }
}

fn exec_match_at(s: &Vec<u8>, p: usize) -> (res: Option<(TokenKind, usize)>)
    requires p < s@.len(),
    ensures
        res matches Some((k, e)) ==> match_at(s@, p as int) == Some((k, e as int)),
        res is None ==> match_at(s@, p as int) is None,
{
    let len = s.len();
    proof {
        lemma_match_at(s@, p as int);
    }
    let b = s[p];
    if exec_is_ws(b) {
        Some((TokenKind::Whitespace, exec_ws_end(s, p)))
    } else if b == QUOTE {
        let q = exec_plain_end(s, p + 1);
        let e = exec_escaped_end(s, p + 1);
        if q < s.len() && s[q] == QUOTE {
            Some((TokenKind::Value(ValueKind::QString), q + 1))
        } else if e < s.len() && s[e] == QUOTE {
            Some((TokenKind::Value(ValueKind::QEString), e + 1))
        } else {
            None
        }
    } else if exec_is_raw_edge(b) {
        let run = exec_raw_run_end(s, p);
        proof {
            lemma_raw_run_end(s@, p + 1);
            assert(raw_run_end(s@, p as int) == raw_run_end(s@, p + 1));
        }
        let r = exec_raw_trim(s, p, run);
        let e = exec_escaped_raw_scan(s, p + 1, p + 1);
        if e == r {
            Some((TokenKind::Value(ValueKind::String), r))
        } else {
            Some((TokenKind::Value(ValueKind::EString), e))
        }
    } else if b == BACKSLASH {
        if p + 1 < s.len() {
            Some((TokenKind::Value(ValueKind::EString), exec_escaped_raw_scan(s, p + 2, p + 2)))
        } else {
            None
        }
    } else if b == 61 {
        Some((TokenKind::BinaryOp(BinaryOpKind::Assign), p + 1))
    } else if b == 58 {
        if p + 1 < s.len() && s[p + 1] == 61 {
            Some((TokenKind::BinaryOp(BinaryOpKind::AssignIfUndefined), p + 2))
        } else {
            Some((TokenKind::BinaryOp(BinaryOpKind::Group), p + 1))
        }
    } else if b == 43 {
        if p + 1 < s.len() && s[p + 1] == 61 {
            Some((TokenKind::BinaryOp(BinaryOpKind::Add), p + 2))
        } else {
            None
        }
    } else if b == 45 {
        if p + 1 < s.len() && s[p + 1] == 61 {
            Some((TokenKind::BinaryOp(BinaryOpKind::Remove), p + 2))
        } else {
            None
        }
    } else if b == 33 {
        if p + 1 < s.len() && s[p + 1] == 33 {
            Some((TokenKind::SuffixUnaryOp(SuffixUnaryOpKind::Clear), p + 2))
        } else {
            Some((TokenKind::SuffixUnaryOp(SuffixUnaryOpKind::Reset), p + 1))
        }
    } else if b == 123 {
        Some((TokenKind::GroupingOpen, p + 1))
    } else if b == 125 {
        Some((TokenKind::GroupingClose, p + 1))
    } else if b == 59 {
        Some((TokenKind::Terminator, p + 1))
    } else if b == 35 {
        Some((TokenKind::Comment, exec_line_end(s, p + 1)))
    } else {
        None
    }
}

fn exec_unknown_end(s: &Vec<u8>, q: usize) -> (res: usize)
    requires q <= s@.len(),
    ensures res == unknown_end(s@, q as int),
{
    let mut j = q;
    loop
        invariant
            q <= j <= s@.len(),
            unknown_end(s@, q as int) == unknown_end(s@, j as int),
        decreases s@.len() - j,
    {
        if j >= s.len() {
            return s.len();
        }
        match exec_match_at(s, j) {
            Some(_) => {
                return j;
            },
            None => {
                j = j + 1;
            },
        }
    }
}

// ---------------------------------------------------------------------------
// Coverage: the tokens partition the buffer

/// `toks` are non-empty, contiguous and cover exactly `from..to`.
pub open spec fn tokens_cover(toks: Seq<Token>, from: int, to: int) -> bool
    decreases toks.len(),
{
    if toks.len() == 0 {
        from == to
    } else {
        &&& toks[0].start == from
        &&& from < toks[0].end
        &&& tokens_cover(toks.drop_first(), toks[0].end as int, to)
    }
}

/// The tokens read from `p` are non-empty and cover `p..` to the end of the
/// buffer, each starting where the previous one ended.
pub proof fn lemma_tokenize_from_covers(s: Seq<u8>, p: int)
    requires
        0 <= p <= s.len(),
        s.len() <= usize::MAX,
    ensures
        tokens_cover(tokenize_from(s, p), p, s.len() as int),
    decreases s.len() - p,
{
    if p < s.len() {
        lemma_next_token(s, p);
        let t = next_token(s, p);
        lemma_tokenize_from_covers(s, t.end as int);
        let toks = tokenize_from(s, p);
        assert(toks.drop_first() =~= tokenize_from(s, t.end as int));
    }
}

// ---------------------------------------------------------------------------
// Positions

/// The number of line feeds in `s`.
pub open spec fn count_newlines(s: Seq<u8>) -> nat
    decreases s.len(),
{
    if s.len() == 0 {
        0
    } else {
        count_newlines(s.drop_last()) + if s.last() == NEWLINE { 1nat } else { 0nat }
    }
}

/// The index just after the last line feed of `s`, or zero when there is none.
pub open spec fn line_start(s: Seq<u8>) -> int
    decreases s.len(),
{
    if s.len() == 0 {
        0
    } else if s.last() == NEWLINE {
        s.len() as int
    } else {
        line_start(s.drop_last())
    }
}

/// The position just after the bytes `s`: the number of line feeds and the
/// number of bytes after the last one.
pub open spec fn pos_of(s: Seq<u8>) -> Pos {
    Pos { line: count_newlines(s) as usize, column: (s.len() - line_start(s)) as usize }
}

proof fn lemma_line_start_bounds(s: Seq<u8>)
    ensures
        0 <= line_start(s) <= s.len(),
        count_newlines(s) <= s.len(),
        count_newlines(s) == 0 ==> line_start(s) == 0,
    decreases s.len(),
{
    if s.len() > 0 {
        lemma_line_start_bounds(s.drop_last());
    }
}

proof fn lemma_newlines_concat(a: Seq<u8>, b: Seq<u8>)
    ensures
        count_newlines(a + b) == count_newlines(a) + count_newlines(b),
        line_start(a + b) == if count_newlines(b) > 0 {
            a.len() + line_start(b)
        } else {
            line_start(a)
        },
    decreases b.len(),
{
    if b.len() == 0 {
        assert(a + b =~= a);
    } else {
        lemma_newlines_concat(a, b.drop_last());
        assert((a + b).drop_last() =~= a + b.drop_last());
        lemma_line_start_bounds(b.drop_last());
    }
}

/// The position after the bytes of `bytes`: its line is the number of line
/// feeds, its column the number of bytes after the last line feed.
pub fn get_pos(bytes: &[u8]) -> (res: Pos)
    ensures res == pos_of(bytes@),
{
    let len = bytes.len();
    let mut line: usize = 0;
    let mut start: usize = 0;
    let mut i: usize = 0;
    while i < len
        invariant
            len == bytes@.len(),
            i <= len,
            line == count_newlines(bytes@.subrange(0, i as int)),
            start == line_start(bytes@.subrange(0, i as int)),
        decreases len - i,
    {
        proof {
            let pre = bytes@.subrange(0, i as int);
            let next = bytes@.subrange(0, i + 1);
            assert(next.drop_last() =~= pre);
            lemma_line_start_bounds(pre);
        }
        if bytes[i] == NEWLINE {
            line = line + 1;
            start = i + 1;
        }
        i = i + 1;
    }
    proof {
        assert(bytes@.subrange(0, len as int) =~= bytes@);
        lemma_line_start_bounds(bytes@);
    }
    Pos { line, column: len - start }
}

/// The bytes `start..end` of `buffer`.
pub fn slice_bytes(buffer: &Vec<u8>, start: usize, end: usize) -> (res: Vec<u8>)
    requires start <= end <= buffer@.len(),
    ensures res@ == buffer@.subrange(start as int, end as int),
{
    let mut out: Vec<u8> = Vec::new();
    let mut i = start;
    while i < end
        invariant
            start <= i <= end,
            end <= buffer@.len(),
            out@ == buffer@.subrange(start as int, i as int),
        decreases end - i,
    {
        out.push(buffer[i]);
        proof {
            assert(out@ =~= buffer@.subrange(start as int, i + 1));
        }
        i = i + 1;
    }
    out
}

impl Token {
    /// The token lies inside a buffer of `len` bytes.
    pub open spec fn within(self, len: int) -> bool {
        self.start <= self.end <= len
    }

    /// The bytes of the token.
    pub fn as_bytes(&self, buffer: &Vec<u8>) -> (res: Vec<u8>)
        requires self.within(buffer@.len() as int),
        ensures res@ == buffer@.subrange(self.start as int, self.end as int),
    {
        slice_bytes(buffer, self.start, self.end)
    }

    /// The position of the token's first byte.
    pub fn start_pos(&self, buffer: &Vec<u8>) -> (res: Pos)
        requires self.within(buffer@.len() as int),
        ensures res == pos_of(buffer@.subrange(0, self.start as int)),
    {
        get_pos(slice_bytes(buffer, 0, self.start).as_slice())
    }

    /// The position just after the token's last byte.
    pub fn end_pos(&self, buffer: &Vec<u8>) -> (res: Pos)
        requires self.within(buffer@.len() as int),
        ensures res == pos_of(buffer@.subrange(0, self.end as int)),
    {
        get_pos(slice_bytes(buffer, 0, self.end).as_slice())
    }

    /// The span of the token, computed from the position of its start and
    /// the line feeds inside it; it always agrees with the positions of the
    /// token's first byte and of the byte after it.
    pub fn span(&self, buffer: &Vec<u8>) -> (res: Span)
        requires self.within(buffer@.len() as int),
        ensures
            res.start == pos_of(buffer@.subrange(0, self.start as int)),
            res.end == pos_of(buffer@.subrange(0, self.end as int)),
    {
        let start = get_pos(slice_bytes(buffer, 0, self.start).as_slice());
        let inner = get_pos(slice_bytes(buffer, self.start, self.end).as_slice());
        let ghost a = buffer@.subrange(0, self.start as int);
        let ghost b = buffer@.subrange(self.start as int, self.end as int);
        proof {
            assert(a + b =~= buffer@.subrange(0, self.end as int));
            lemma_newlines_concat(a, b);
            lemma_line_start_bounds(a);
            lemma_line_start_bounds(b);
            lemma_line_start_bounds(a + b);
        }
        let mut end = inner;
        end.line = inner.line + start.line;
        if start.line == end.line {
            end.column = inner.column + start.column;
        }
        Span { start, end }
    }
}

// ---------------------------------------------------------------------------
// The tokenizer

/// The tokenizer of the configuration language.
#[derive(Debug, Clone, Copy, PartialEq, Eq)]
pub struct Tokenizer;

impl Tokenizer {
    pub fn new() -> (res: Self) {
        Tokenizer
    }

    /// Builds the tokenizer; the token grammar is fixed, so this cannot fail.
    pub fn compile() -> (res: Self) {
        Tokenizer
    }

    /// An iterator over the tokens of `buffer`, from its start.
    pub fn tokenize<'h>(&self, buffer: &'h Vec<u8>) -> (res: TokenIter<'h>)
        ensures
            res.buffer@ == buffer@,
            res.last_end == 0,
    {
        TokenIter { buffer, last_end: 0 }
    }

    /// All tokens of `buffer`, in order.
    pub fn tokenize_all(&self, buffer: &Vec<u8>) -> (res: Vec<Token>)
        ensures
            res@ == tokenize_spec(buffer@),
            tokens_cover(res@, 0, buffer@.len() as int),
    {
        let len = buffer.len();
        proof {
            lemma_tokenize_from_covers(buffer@, 0);
        }
        let mut iter = self.tokenize(buffer);
        let mut tokens: Vec<Token> = Vec::new();
        loop
            invariant
                len == buffer@.len(),
                iter.buffer@ == buffer@,
                iter.last_end <= buffer@.len(),
                tokenize_spec(buffer@) == tokens@ + tokenize_from(buffer@, iter.last_end as int),
            decreases buffer@.len() - iter.last_end,
        {
            let ghost before = iter.last_end;
            match iter.next() {
                Some(t) => {
                    proof {
                        lemma_next_token(buffer@, before as int);
                        assert(tokenize_from(buffer@, before as int) == seq![t].add(
                            tokenize_from(buffer@, t.end as int),
                        ));
                        assert(tokens@.push(t) + tokenize_from(buffer@, t.end as int) =~= tokens@
                            + seq![t].add(tokenize_from(buffer@, t.end as int)));
                    }
                    tokens.push(t);
                },
                None => {
                    assert(tokens@ + tokenize_from(buffer@, before as int) =~= tokens@);
                    proof {
                        lemma_tokenize_from_covers(buffer@, 0);
                    }
                    return tokens;
                },
            }
        }
    }
}

impl Default for Tokenizer {
    fn default() -> (res: Self) {
        Tokenizer
    }
}

/// An iterator over the tokens of a buffer.
#[derive(Debug)]
pub struct TokenIter<'h> {
    pub buffer: &'h Vec<u8>,
    pub last_end: usize,
}

impl<'h> TokenIter<'h> {
    pub fn new(buffer: &'h Vec<u8>) -> (res: Self)
        ensures
            res.buffer@ == buffer@,
            res.last_end == 0,
    {
        TokenIter { buffer, last_end: 0 }
    }

    /// The next token, or `None` once the buffer is exhausted.
    pub fn next(&mut self) -> (res: Option<Token>)
        requires old(self).last_end <= old(self).buffer@.len(),
        ensures
            final(self).buffer@ == old(self).buffer@,
            final(self).last_end <= final(self).buffer@.len(),
            old(self).last_end < old(self).buffer@.len() ==> {
                &&& res == Some(next_token(old(self).buffer@, old(self).last_end as int))
                &&& final(self).last_end == next_token(old(self).buffer@, old(self).last_end as int).end
            },
            old(self).last_end >= old(self).buffer@.len() ==> res is None && final(self).last_end
                == old(self).last_end,
    {
        let p = self.last_end;
        if p >= self.buffer.len() {
            return None;
        }
        proof {
            lemma_next_token(self.buffer@, p as int);
        }
        let t = match exec_match_at(self.buffer, p) {
            Some((kind, end)) => Token { kind, start: p, end },
            None => Token { kind: TokenKind::Unknown, start: p, end: exec_unknown_end(self.buffer, p + 1) },
        };
        self.last_end = t.end;
        Some(t)
    }
}

} // verus!
