//! Reading configuration text: tokens, syntax entries, the AST and the raw
//! entries handed to configurations.
use vstd::prelude::*;

use crate::ext::lossy::{lossy_text, utf8_lossy};

pub mod ast;
pub mod document;
pub mod lex;
pub mod syn;
pub mod token_stream;
pub mod written;

use crate::parse::ast::{
    ast_entries_view, ast_entry_view, ast_parse_spec, AstEntry, AstNode, AstOperation,
    AstParseError, AstParser,
};

verus! {

pub const OPERATOR_GROUP: &'static str = ":";
pub const OPERATOR_ASSIGN: &'static str = "=";
pub const OPERATOR_ASSIGN_IF_UNDEFINED: &'static str = ":=";
pub const OPERATOR_ADD: &'static str = "+=";
pub const OPERATOR_REMOVE: &'static str = "-=";
pub const OPERATOR_RESET: &'static str = "!";
pub const OPERATOR_CLEAR: &'static str = "!!";


/// The failure of [`Parser::parse_bytes`]: the input is not well-formed.
#[derive(Debug)]
pub struct ParseError(pub AstParseError);

/// A top-level (or group) entry handed to a configuration.
#[derive(Debug)]
pub enum RawEntry {
    Group { key: Vec<u8>, body: RawGroup },
    Operation { key: Vec<u8>, body: RawOperation },
}

/// The entries of a group, in order.
#[derive(Debug)]
pub struct RawGroup(pub Vec<AstEntry>);

/// The operation of an entry.
#[derive(Debug)]
pub struct RawOperation(pub AstOperation);

impl RawEntry {
    /// The AST entry this raw entry stands for.
    pub open spec fn view(self) -> AstNode {
        match self {
            RawEntry::Group { key, body } => AstNode::Group {
                key: key@,
                group: ast_entries_view(body.0@),
            },
            RawEntry::Operation { key, body } => AstNode::Operation {
                key: key@,
                operation: body.0.view(),
            },
        }
    }

    pub fn new(entry: AstEntry) -> (res: Self)
        ensures res.view() == entry.view(),
    {
        let ghost v = entry.view();
        match entry {
            AstEntry::Group { key, group } => {
                let res = RawEntry::Group { key, body: RawGroup(group) };
                proof {
                    assert(match v {
                        AstNode::Group { group, .. } => group,
                        _ => seq![],
                    } =~= ast_entries_view(group@));
                }
                res
            },
            AstEntry::Operation { key, operation } => RawEntry::Operation {
                key,
                body: RawOperation(operation),
            },
        }
    }

    /// The key of the entry, written as text.
    pub fn display_key(&self) -> (res: Vec<u8>)
        ensures
            res@ == utf8_lossy(
                match self.view() {
                    AstNode::Group { key, .. } => key,
                    AstNode::Operation { key, .. } => key,
                },
            ),
    {
        match self {
            RawEntry::Group { key, .. } => lossy_text(key.as_slice()),
            RawEntry::Operation { key, .. } => lossy_text(key.as_slice()),
        }
    }
}

/// The entries of a parsed input, handed out one by one.
#[derive(Debug)]
pub struct ParseEntryIter {
    rest: Vec<AstEntry>,
}

impl ParseEntryIter {
    /// The entries still to be handed out.
    pub closed spec fn remaining(&self) -> Seq<AstNode> {
        ast_entries_view(self.rest@)
    }

    pub fn new(entries: Vec<AstEntry>) -> (res: Self)
        ensures res.remaining() == ast_entries_view(entries@),
    {
        ParseEntryIter { rest: entries }
    }

    /// The next entry, or `None` when all have been handed out.
    pub fn next(&mut self) -> (res: Option<RawEntry>)
        ensures
            old(self).remaining().len() == 0 ==> res is None && final(self).remaining().len() == 0,
            old(self).remaining().len() > 0 ==> (res matches Some(e) && e.view() == old(
                self,
            ).remaining()[0]) && final(self).remaining() == old(self).remaining().drop_first(),
    {
        if self.rest.len() == 0 {
            return None;
        }
        let ghost before = self.rest@;
        let first = self.rest.remove(0);
        proof {
            assert(ast_entries_view(self.rest@) =~= ast_entries_view(before).drop_first());
        }
        Some(RawEntry::new(first))
    }
}

/// The entry point for reading configuration text.
#[derive(Debug, Default, Clone, Copy)]
pub struct Parser {
    parser: AstParser,
}

impl Parser {
    pub fn new() -> (res: Self) {
        Parser { parser: AstParser::new() }
    }

    /// Parses `bytes`; on success, the entries of the input in order.
    pub fn parse_bytes(&self, bytes: Vec<u8>) -> (res: Result<ParseEntryIter, ParseError>)
        ensures
            ast_parse_spec(bytes@) matches Ok(es) ==> res matches Ok(it) && it.remaining() == es,
            ast_parse_spec(bytes@) matches Err(e) ==> res matches Err(ParseError(AstParseError(err)))
                && err == e,
    {
        match self.parser.parse(bytes) {
            Ok(ast) => Ok(ParseEntryIter::new(ast.entries)),
            Err(e) => Err(ParseError(e)),
        }
    }
}

} // verus!
