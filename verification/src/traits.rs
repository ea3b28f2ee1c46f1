//! The traits a configuration implements: reading the entries of parsed
//! text, replaying another configuration and writing itself out.
use vstd::prelude::*;

use crate::errors::{ConfigParseBytesError, ConfigParseError};
use crate::fmt::ConfigFmt;
use crate::key::Key;
use crate::parse::ast::{ast_entries_view, ast_parse_spec, AstNode, AstParseError};
use crate::parse::{ParseEntryIter, ParseError, Parser, RawEntry, RawGroup};

verus! {

/// A configuration: something the entries of configuration text are
/// applied to, one by one. An implementation says, through `entry_step`,
/// what applying one entry does.
pub trait Config: Sized {
    type Err;

    /// What applying `entry` to the configuration as it stands gives: the
    /// configuration after it, or the error with which it is refused.
    spec fn entry_step(&self, entry: AstNode) -> Result<Self, Self::Err>;

    /// Applies one entry.
    fn parse_entry(&mut self, entry: RawEntry) -> (res: Result<(), Self::Err>)
        ensures
            match old(self).entry_step(entry.view()) {
                Ok(c) => res is Ok && *final(self) == c,
                Err(e) => res == Err::<(), Self::Err>(e),
            },
    ;

    /// Applies the operations recorded by `other`.
    fn replay(&mut self, other: &Self);

    /// The configuration written out as text.
    fn display(&self, fmt: &ConfigFmt) -> Vec<u8>;

    /// Applies `entries` in order, stopping at the first that is refused:
    /// the configuration they leave, or that refusal.
    fn parse(&mut self, entries: ParseEntryIter) -> (res: Result<(), Self::Err>)
        ensures
            match apply_entries(|c: Self, e: AstNode| c.entry_step(e), *old(self), entries.remaining()) {
                Ok(c) => res is Ok && *final(self) == c,
                Err(e) => res == Err::<(), Self::Err>(e),
            },
    {
        let ghost step = |c: Self, e: AstNode| c.entry_step(e);
        let ghost all = entries.remaining();
        let mut it = entries;
        loop
            invariant
                step == (|c: Self, e: AstNode| c.entry_step(e)),
                all == entries.remaining(),
                apply_entries(step, *old(self), all) == apply_entries(step, *self, it.remaining()),
            ensures
                it.remaining().len() == 0,
                apply_entries(step, *old(self), all) == apply_entries(step, *self, it.remaining()),
            decreases it.remaining().len(),
        {
            let ghost rest = it.remaining();
            match it.next() {
                None => {
                    proof {
                        assert(it.remaining() =~= rest);
                    }
                    break;
                },
                Some(entry) => {
                    let ghost cur = *self;
                    proof {
                        assert(step(cur, rest[0]) == cur.entry_step(rest[0]));
                    }
                    match self.parse_entry(entry) {
                        Ok(()) => {},
                        Err(e) => {
                            proof {
                                assert(apply_entries(step, cur, rest) == Err::<Self, Self::Err>(e));
                                assert(apply_entries(step, *old(self), all) == Err::<Self, Self::Err>(e));
                            }
                            return Err(e);
                        },
                    }
                    proof {
                        assert(rest.drop_first() == it.remaining());
                    }
                },
            }
        }
        Ok(())
    }
}

/// Applying `entries` in order to `c`, each as `step` says: the state left
/// once all are accepted, or the refusal of the first one refused.
pub open spec fn apply_entries<C, E>(
    step: spec_fn(C, AstNode) -> Result<C, E>,
    c: C,
    entries: Seq<AstNode>,
) -> Result<C, E>
    decreases entries.len(),
{
    if entries.len() == 0 {
        Ok(c)
    } else {
        match step(c, entries[0]) {
            Ok(next) => apply_entries(step, next, entries.drop_first()),
            Err(e) => Err(e),
        }
    }
}

/// Reading a configuration from bytes.
pub trait ConfigExt: Config<Err = ConfigParseError> {
    /// Parses `bytes` and applies their entries in order: the syntax error,
    /// with the configuration unchanged, where the text is malformed; else
    /// what applying the entries gives, stopping at the first one refused.
    fn parse_bytes(&mut self, bytes: Vec<u8>) -> (res: Result<(), ConfigParseBytesError>)
        ensures
            ast_parse_spec(bytes@) matches Err(e) ==> res == Err::<(), ConfigParseBytesError>(
                ConfigParseBytesError::Parse(ParseError(AstParseError(e))),
            ) && *final(self) == *old(self),
            ast_parse_spec(bytes@) matches Ok(es) ==> match apply_entries(
                |c: Self, e: AstNode| c.entry_step(e),
                *old(self),
                es,
            ) {
                Ok(c) => res is Ok && *final(self) == c,
                Err(e) => res == Err::<(), ConfigParseBytesError>(ConfigParseBytesError::Config(e)),
            },
    {
        let parser = Parser::new();
        let entries = match parser.parse_bytes(bytes) {
            Ok(entries) => entries,
            Err(e) => {
                return Err(ConfigParseBytesError::Parse(e));
            },
        };
        match self.parse(entries) {
            Ok(()) => Ok(()),
            Err(e) => Err(ConfigParseBytesError::Config(e)),
        }
    }
}

impl<C: Config<Err = ConfigParseError>> ConfigExt for C {

}

/// A group of a configuration: something the entries of a `key: { ... }`
/// group are applied to. An implementation says, through `entry_step`, what
/// applying one entry does.
pub trait ConfigGroup: Sized {
    type Err;

    /// What applying `entry` of the group `key` to the group as it stands
    /// gives: the group after it, or the error with which it is refused.
    spec fn entry_step(&self, key: Seq<u8>, entry: AstNode) -> Result<Self, Self::Err>;

    fn new(key: Key) -> Self;

    /// Applies one entry of the group `key`.
    fn parse_entry(&mut self, key: &Key, body: RawEntry) -> (res: Result<(), Self::Err>)
        ensures
            match old(self).entry_step(key@, body.view()) {
                Ok(g) => res is Ok && *final(self) == g,
                Err(e) => res == Err::<(), Self::Err>(e),
            },
    ;

    /// Applies the operations recorded by `other`.
    fn replay(&mut self, other: &Self);

    /// The group written out as text.
    fn display(&self, fmt: &ConfigFmt) -> Vec<u8>;

    /// Applies the entries of the group `key` in order, stopping at the first
    /// that is refused: the group they leave, or that refusal.
    fn parse_group(&mut self, key: Key, body: RawGroup) -> (res: Result<(), Self::Err>)
        ensures
            match apply_entries(
                |g: Self, e: AstNode| g.entry_step(key@, e),
                *old(self),
                ast_entries_view(body.0@),
            ) {
                Ok(g) => res is Ok && *final(self) == g,
                Err(e) => res == Err::<(), Self::Err>(e),
            },
    {
        let ghost step = |g: Self, e: AstNode| g.entry_step(key@, e);
        let ghost all = ast_entries_view(body.0@);
        let mut it = ParseEntryIter::new(body.0);
        loop
            invariant
                step == (|g: Self, e: AstNode| g.entry_step(key@, e)),
                all == ast_entries_view(body.0@),
                apply_entries(step, *old(self), all) == apply_entries(step, *self, it.remaining()),
            ensures
                it.remaining().len() == 0,
                apply_entries(step, *old(self), all) == apply_entries(step, *self, it.remaining()),
            decreases it.remaining().len(),
        {
            let ghost rest = it.remaining();
            match it.next() {
                None => {
                    proof {
                        assert(it.remaining() =~= rest);
                    }
                    break;
                },
                Some(entry) => {
                    let ghost cur = *self;
                    proof {
                        assert(step(cur, rest[0]) == cur.entry_step(key@, rest[0]));
                    }
                    match self.parse_entry(&key, entry) {
                        Ok(()) => {},
                        Err(e) => {
                            proof {
                                assert(apply_entries(step, cur, rest) == Err::<Self, Self::Err>(e));
                                assert(apply_entries(step, *old(self), all) == Err::<Self, Self::Err>(e));
                            }
                            return Err(e);
                        },
                    }
                    proof {
                        assert(rest.drop_first() == it.remaining());
                    }
                },
            }
        }
        Ok(())
    }
}

} // verus!
