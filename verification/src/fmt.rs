//! How a configuration is written out: at what indentation, under which
//! key, and whether a group's entries are written inside it or flattened
//! into the enclosing one.
use vstd::prelude::*;

use crate::ext::indent::saturating_add_spec;
use crate::ext::Indent;
use crate::key::Key;

verus! {

/// Settings for writing a configuration out.
#[derive(Debug, Clone, Copy)]
pub struct ConfigFmt<'a> {
    key: Option<&'a Key>,
    increment_indent_by: Indent,
    indent: Indent,
    flatten: bool,
}

impl<'a> ConfigFmt<'a> {
    pub closed spec fn key_spec(&self) -> Option<Seq<u8>> {
        match self.key {
            Some(k) => Some(k@),
            None => None,
        }
    }

    pub closed spec fn increment_spec(&self) -> usize {
        self.increment_indent_by.0
    }

    pub closed spec fn indent_spec(&self) -> usize {
        self.indent.0
    }

    pub closed spec fn flatten_spec(&self) -> bool {
        self.flatten
    }

    /// No key, no indentation, four spaces more for each level, not
    /// flattened.
    pub fn new() -> (res: Self)
        ensures
            res.key_spec() is None,
            res.indent_spec() == 0,
            res.increment_spec() == 4,
            !res.flatten_spec(),
    {
        ConfigFmt { key: None, indent: Indent::new(0), increment_indent_by: Indent::new(4), flatten: false }
    }

    pub fn with_key(self, key: &'a Key) -> (res: Self)
        ensures
            res.key_spec() == Some(key@),
            res.indent_spec() == self.indent_spec(),
            res.increment_spec() == self.increment_spec(),
            res.flatten_spec() == self.flatten_spec(),
    {
        ConfigFmt { key: Some(key), ..self }
    }

    /// Sets the indentation (the step by which each level is indented is
    /// left as it is).
    pub fn with_indent_increments(self, indent: Indent) -> (res: Self)
        ensures
            res.indent_spec() == indent.0,
            res.key_spec() == self.key_spec(),
            res.increment_spec() == self.increment_spec(),
            res.flatten_spec() == self.flatten_spec(),
    {
        ConfigFmt { indent, ..self }
    }

    pub fn with_indent(self, indent: Indent) -> (res: Self)
        ensures
            res.indent_spec() == indent.0,
            res.key_spec() == self.key_spec(),
            res.increment_spec() == self.increment_spec(),
            res.flatten_spec() == self.flatten_spec(),
    {
        ConfigFmt { indent, ..self }
    }

    pub fn with_flatten(self) -> (res: Self)
        ensures
            res.flatten_spec(),
            res.key_spec() == self.key_spec(),
            res.indent_spec() == self.indent_spec(),
            res.increment_spec() == self.increment_spec(),
    {
        ConfigFmt { flatten: true, ..self }
    }

    pub fn key(&self) -> (res: Option<&'a Key>)
        ensures
            match res {
                Some(k) => self.key_spec() == Some(k@),
                None => self.key_spec() is None,
            },
    {
        self.key
    }

    pub fn indent(&self) -> (res: Indent)
        ensures
            res.0 == self.indent_spec(),
    {
        self.indent
    }

    pub fn flatten(&self) -> (res: bool)
        ensures
            res == self.flatten_spec(),
    {
        self.flatten
    }

    /// The settings one level down: no key, not flattened, and indented one
    /// step further unless these settings flatten.
    pub fn next(&self) -> (res: Self)
        ensures
            res.key_spec() is None,
            !res.flatten_spec(),
            res.increment_spec() == self.increment_spec(),
            res.indent_spec() == if self.flatten_spec() {
                self.indent_spec()
            } else {
                saturating_add_spec(self.indent_spec(), self.increment_spec())
            },
    {
        let indent = if self.flatten {
            self.indent
        } else {
            self.indent + self.increment_indent_by
        };
        ConfigFmt { key: None, increment_indent_by: self.increment_indent_by, indent, flatten: false }
    }
}

impl<'a> Default for ConfigFmt<'a> {
    fn default() -> (res: Self)
        ensures
            res.key_spec() is None,
            res.indent_spec() == 0,
            res.increment_spec() == 4,
            !res.flatten_spec(),
    {
        Self::new()
    }
}

} // verus!
