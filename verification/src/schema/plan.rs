//! What the code derived for a configuration struct decides: where an entry
//! of configuration text goes among the struct's fields, and in what order
//! and under which settings the fields are written out.
//!
//! An entry is first offered to the flattened fields, in order; one that
//! refuses it as an unknown key passes it on. What follows depends on the
//! entry's key alone: a group entry goes to the group field with that key,
//! else to the first field that takes any group; an operation entry goes to
//! the collection field with that key. An entry no field takes is ignored,
//! unless the struct is exhaustive: then it is refused, and the error says
//! whether the key belongs to a field of the other kind.
use vstd::prelude::*;
use vstd::utf8::encode_utf8;

use crate::cval::bytes_eq;
use crate::errors::ConfigParseError;
use crate::ext::join::{join_spec, texts_view, Join};
use crate::ext::lossy::{lossy_text, utf8_lossy};
use crate::ext::text::{repeat, repeat_byte};
use crate::fmt::ConfigFmt;
use crate::ext::indent::saturating_add_spec;
use crate::key::Key;
use crate::schema::field::FieldType;
use crate::schema::{ConfigField, ConfigStruct};

verus! {

/// The kind of each field and the bytes of its key.
pub open spec fn route_keys(fields: Seq<ConfigField>) -> Seq<(FieldType, Seq<u8>)> {
    fields.map_values(|f: ConfigField| (f.attributes.parser, encode_utf8(f.key@)))
}

/// The first index in `s` of a field of kind `ns` whose key is `key`.
pub open spec fn first_keyed(s: Seq<(FieldType, Seq<u8>)>, ns: FieldType, key: Seq<u8>) -> Option<int>
    decreases s.len(),
{
    if s.len() == 0 {
        None
    } else {
        match first_keyed(s.drop_last(), ns, key) {
            Some(i) => Some(i),
            None => if s.last().0 == ns && s.last().1 == key {
                Some(s.len() - 1)
            } else {
                None
            },
        }
    }
}

/// The first index in `s` of a field of kind `ns`.
pub open spec fn first_of_kind(s: Seq<(FieldType, Seq<u8>)>, ns: FieldType) -> Option<int>
    decreases s.len(),
{
    if s.len() == 0 {
        None
    } else {
        match first_of_kind(s.drop_last(), ns) {
            Some(i) => Some(i),
            None => if s.last().0 == ns {
                Some(s.len() - 1)
            } else {
                None
            },
        }
    }
}

/// Where an entry goes once no flattened field has taken it.
#[derive(Debug, Clone, Copy, PartialEq, Eq)]
pub enum Route {
    /// The body of a group entry is read into this group field.
    Group(usize),
    /// The group entry, key and all, is read by this field, which takes
    /// any group.
    AnyGroup(usize),
    /// The operation is applied to this collection field.
    Collection(usize),
    /// The entry is skipped.
    Ignore,
    /// A group entry whose key is that of a collection field.
    UnknownGroupKey,
    /// An operation entry whose key is that of a group field.
    UnknownOperationKey,
    /// An entry whose key no field has.
    UnknownKey,
}

/// Where an entry (a group entry where `is_group`) with key `key` goes.
pub open spec fn route_spec(
    s: Seq<(FieldType, Seq<u8>)>,
    exhaustive: bool,
    is_group: bool,
    key: Seq<u8>,
) -> Route {
    if is_group {
        match first_keyed(s, FieldType::Group, key) {
            Some(i) => Route::Group(i as usize),
            None => match first_of_kind(s, FieldType::AnyGroup) {
                Some(i) => Route::AnyGroup(i as usize),
                None => if !exhaustive {
                    Route::Ignore
                } else if first_keyed(s, FieldType::Config, key) is Some {
                    Route::UnknownGroupKey
                } else {
                    Route::UnknownKey
                },
            },
        }
    } else {
        match first_keyed(s, FieldType::Config, key) {
            Some(i) => Route::Collection(i as usize),
            None => if !exhaustive {
                Route::Ignore
            } else if first_keyed(s, FieldType::Group, key) is Some {
                Route::UnknownOperationKey
            } else {
                Route::UnknownKey
            },
        }
    }
}

/// The indices of the fields of kind `ns` in `s`, in order.
pub open spec fn indices_of_kind(s: Seq<(FieldType, Seq<u8>)>, ns: FieldType) -> Seq<int>
    decreases s.len(),
{
    if s.len() == 0 {
        Seq::empty()
    } else if s.last().0 == ns {
        indices_of_kind(s.drop_last(), ns).push(s.len() - 1)
    } else {
        indices_of_kind(s.drop_last(), ns)
    }
}

/// How a field is written out.
#[derive(Debug, Clone, Copy, PartialEq, Eq)]
pub enum DisplayKind {
    /// A collection, under its key.
    Collection,
    /// A group, in braces under its key.
    Group,
    /// A group whose entries are written into the enclosing one.
    Flatten,
}

/// How a field of kind `t` is written out; the field holding the group's
/// key is not written.
pub open spec fn display_kind(t: FieldType) -> Option<DisplayKind> {
    match t {
        FieldType::GroupKey => None,
        FieldType::Config => Some(DisplayKind::Collection),
        FieldType::Group => Some(DisplayKind::Group),
        FieldType::AnyGroup => Some(DisplayKind::Group),
        FieldType::Flatten => Some(DisplayKind::Flatten),
    }
}

/// One field to write out: which, how, and under which key.
pub struct DisplayStep {
    pub field_index: usize,
    pub kind: DisplayKind,
    pub key: Vec<u8>,
}

impl View for DisplayStep {
    type V = (int, DisplayKind, Seq<u8>);

    open spec fn view(&self) -> (int, DisplayKind, Seq<u8>) {
        (self.field_index as int, self.kind, self.key@)
    }
}

pub open spec fn steps_view(v: Seq<DisplayStep>) -> Seq<(int, DisplayKind, Seq<u8>)> {
    v.map_values(|d: DisplayStep| d@)
}

/// The fields of `s` that are written out, in order.
pub open spec fn display_plan_spec(s: Seq<(FieldType, Seq<u8>)>) -> Seq<(int, DisplayKind, Seq<u8>)>
    decreases s.len(),
{
    if s.len() == 0 {
        Seq::empty()
    } else {
        let r = display_plan_spec(s.drop_last());
        match display_kind(s.last().0) {
            Some(k) => r.push((s.len() - 1, k, s.last().1)),
            None => r,
        }
    }
}

/// The lines of `parts`, one after another, separated by newlines.
pub open spec fn lines(parts: Seq<Seq<u8>>) -> Seq<u8> {
    join_spec(parts, seq![10u8])
}

/// The text of a struct whose fields were written as `parts`, with the
/// settings `key`, `indent` and `flatten`: under a key and not flattened,
/// the fields go in braces after `key: {` (or `key: { }` where there are
/// none); otherwise they stand alone.
pub open spec fn struct_text(key: Option<Seq<u8>>, indent: nat, flatten: bool, parts: Seq<Seq<u8>>) -> Seq<u8> {
    let spaces = repeat_byte(32u8, indent);
    match key {
        Some(k) => if flatten {
            lines(parts)
        } else if parts.len() == 0 {
            spaces + utf8_lossy(k) + seq![58u8, 32u8, 123u8, 32u8, 125u8]
        } else {
            spaces + utf8_lossy(k) + seq![58u8, 32u8, 123u8, 10u8] + lines(parts) + seq![10u8]
                + spaces + seq![125u8]
        },
        None => lines(parts),
    }
}

impl ConfigStruct {
    /// The first field of kind `ns` whose key is `key`.
    fn find_keyed(&self, ns: FieldType, key: &[u8]) -> (res: Option<usize>)
        ensures
            match first_keyed(route_keys(self.fields@), ns, key@) {
                Some(i) => res == Some(i as usize),
                None => res is None,
            },
    {
        let ghost s = route_keys(self.fields@);
        let mut i: usize = 0;
        while i < self.fields.len()
            invariant
                i <= self.fields@.len(),
                s == route_keys(self.fields@),
                first_keyed(s.take(i as int), ns, key@) is None,
            decreases self.fields@.len() - i,
        {
            proof {
                assert(s.take(i + 1).drop_last() =~= s.take(i as int));
                assert(s.take(i + 1).last() == s[i as int]);
            }
            let f = &self.fields[i];
            if f.attributes.parser == ns && bytes_eq(f.key.as_str().as_bytes(), key) {
                proof {
                    assert(first_keyed(s.take(i + 1), ns, key@) == Some(i as int));
                    lemma_first_keyed_extend(s, ns, key@, i + 1);
                }
                return Some(i);
            }
            i = i + 1;
        }
        proof {
            assert(s.take(self.fields@.len() as int) =~= s);
        }
        None
    }

    /// The first field of kind `ns`.
    fn find_kind(&self, ns: FieldType) -> (res: Option<usize>)
        ensures
            match first_of_kind(route_keys(self.fields@), ns) {
                Some(i) => res == Some(i as usize),
                None => res is None,
            },
    {
        let ghost s = route_keys(self.fields@);
        let mut i: usize = 0;
        while i < self.fields.len()
            invariant
                i <= self.fields@.len(),
                s == route_keys(self.fields@),
                first_of_kind(s.take(i as int), ns) is None,
            decreases self.fields@.len() - i,
        {
            proof {
                assert(s.take(i + 1).drop_last() =~= s.take(i as int));
                assert(s.take(i + 1).last() == s[i as int]);
            }
            if self.fields[i].attributes.parser == ns {
                proof {
                    assert(first_of_kind(s.take(i + 1), ns) == Some(i as int));
                    lemma_first_of_kind_extend(s, ns, i + 1);
                }
                return Some(i);
            }
            i = i + 1;
        }
        proof {
            assert(s.take(self.fields@.len() as int) =~= s);
        }
        None
    }

    /// Where an entry with key `key` (a group entry where `is_group`) goes
    /// once no flattened field has taken it.
    pub fn route_entry(&self, is_group: bool, key: &Vec<u8>) -> (res: Route)
        ensures
            res == route_spec(route_keys(self.fields@), self.attributes.exhaustive, is_group, key@),
    {
        let k = key.as_slice();
        if is_group {
            match self.find_keyed(FieldType::Group, k) {
                Some(i) => Route::Group(i),
                None => match self.find_kind(FieldType::AnyGroup) {
                    Some(i) => Route::AnyGroup(i),
                    None => if !self.attributes.exhaustive {
                        Route::Ignore
                    } else if self.find_keyed(FieldType::Config, k).is_some() {
                        Route::UnknownGroupKey
                    } else {
                        Route::UnknownKey
                    },
                },
            }
        } else {
            match self.find_keyed(FieldType::Config, k) {
                Some(i) => Route::Collection(i),
                None => if !self.attributes.exhaustive {
                    Route::Ignore
                } else if self.find_keyed(FieldType::Group, k).is_some() {
                    Route::UnknownOperationKey
                } else {
                    Route::UnknownKey
                },
            }
        }
    }

    /// The flattened fields, in the order an entry is offered to them.
    pub fn flatten_order(&self) -> (res: Vec<usize>)
        ensures
            res@.map_values(|i: usize| i as int) == indices_of_kind(
                route_keys(self.fields@),
                FieldType::Flatten,
            ),
    {
        let ghost s = route_keys(self.fields@);
        let mut out: Vec<usize> = Vec::new();
        let mut i: usize = 0;
        while i < self.fields.len()
            invariant
                i <= self.fields@.len(),
                s == route_keys(self.fields@),
                out@.map_values(|i: usize| i as int) == indices_of_kind(
                    s.take(i as int),
                    FieldType::Flatten,
                ),
            decreases self.fields@.len() - i,
        {
            proof {
                assert(s.take(i + 1).drop_last() =~= s.take(i as int));
                assert(s.take(i + 1).last() == s[i as int]);
            }
            if self.fields[i].attributes.parser == FieldType::Flatten {
                let ghost before = out@;
                out.push(i);
                proof {
                    assert(out@.map_values(|i: usize| i as int) =~= before.map_values(
                        |i: usize| i as int,
                    ).push(i as int));
                }
            }
            i = i + 1;
        }
        proof {
            assert(s.take(self.fields@.len() as int) =~= s);
        }
        out
    }

    /// The fields to write out, in order, each with how it is written and
    /// the key it is written under.
    pub fn display_plan(&self) -> (res: Vec<DisplayStep>)
        ensures
            steps_view(res@) == display_plan_spec(route_keys(self.fields@)),
    {
        let ghost s = route_keys(self.fields@);
        let mut out: Vec<DisplayStep> = Vec::new();
        let mut i: usize = 0;
        proof {
            assert(steps_view(out@) =~= display_plan_spec(s.take(0)));
        }
        while i < self.fields.len()
            invariant
                i <= self.fields@.len(),
                s == route_keys(self.fields@),
                steps_view(out@) == display_plan_spec(s.take(i as int)),
            decreases self.fields@.len() - i,
        {
            proof {
                assert(s.take(i + 1).drop_last() =~= s.take(i as int));
                assert(s.take(i + 1).last() == s[i as int]);
            }
            let f = &self.fields[i];
            let kind = match f.attributes.parser {
                FieldType::GroupKey => None,
                FieldType::Config => Some(DisplayKind::Collection),
                FieldType::Group => Some(DisplayKind::Group),
                FieldType::AnyGroup => Some(DisplayKind::Group),
                FieldType::Flatten => Some(DisplayKind::Flatten),
            };
            match kind {
                Some(kind) => {
                    let ghost before = steps_view(out@);
                    let key = vstd::slice::slice_to_vec(f.key.as_str().as_bytes());
                    out.push(DisplayStep { field_index: i, kind, key });
                    proof {
                        assert(steps_view(out@) =~= before.push((i as int, kind, s[i as int].1)));
                    }
                },
                None => {},
            }
            i = i + 1;
        }
        proof {
            assert(s.take(self.fields@.len() as int) =~= s);
        }
        out
    }
}

proof fn lemma_first_keyed_extend(s: Seq<(FieldType, Seq<u8>)>, ns: FieldType, key: Seq<u8>, m: int)
    requires
        0 <= m <= s.len(),
        first_keyed(s.take(m), ns, key) is Some,
    ensures
        first_keyed(s, ns, key) == first_keyed(s.take(m), ns, key),
    decreases s.len() - m,
{
    if m < s.len() {
        assert(s.take(m + 1).drop_last() =~= s.take(m));
        lemma_first_keyed_extend(s, ns, key, m + 1);
    } else {
        assert(s.take(m) =~= s);
    }
}

proof fn lemma_first_of_kind_extend(s: Seq<(FieldType, Seq<u8>)>, ns: FieldType, m: int)
    requires
        0 <= m <= s.len(),
        first_of_kind(s.take(m), ns) is Some,
    ensures
        first_of_kind(s, ns) == first_of_kind(s.take(m), ns),
    decreases s.len() - m,
{
    if m < s.len() {
        assert(s.take(m + 1).drop_last() =~= s.take(m));
        lemma_first_of_kind_extend(s, ns, m + 1);
    } else {
        assert(s.take(m) =~= s);
    }
}

/// Whether a flattened field's refusal passes the entry on to the next
/// field: it does where the field does not know the entry's key.
pub fn passes_on(error: &ConfigParseError) -> (res: bool)
    ensures
        res == (error is UnknownKey || error is UnknownGroupKey || error is UnknownOperationKey),
{
    match error {
        ConfigParseError::UnknownKey(_) => true,
        ConfigParseError::UnknownGroupKey(_) => true,
        ConfigParseError::UnknownOperationKey(_) => true,
        _ => false,
    }
}

/// The settings a field is written with: one level below `fmt`, under the
/// field's key, flattened where the field is.
pub fn field_fmt<'a>(fmt: &ConfigFmt<'a>, kind: DisplayKind, key: &'a Key) -> (res: ConfigFmt<'a>)
    ensures
        res.key_spec() == Some(key@),
        res.flatten_spec() == (kind == DisplayKind::Flatten),
        res.increment_spec() == fmt.increment_spec(),
        res.indent_spec() == if fmt.flatten_spec() {
            fmt.indent_spec()
        } else {
            saturating_add_spec(fmt.indent_spec(), fmt.increment_spec())
        },
{
    let child = fmt.next().with_key(key);
    match kind {
        DisplayKind::Flatten => child.with_flatten(),
        _ => child,
    }
}

/// The text of a struct written with `fmt`, whose fields were written as
/// `parts`, in order.
pub fn render_struct(fmt: &ConfigFmt, parts: Vec<Vec<u8>>) -> (res: Vec<u8>)
    ensures
        res@ == struct_text(fmt.key_spec(), fmt.indent_spec() as nat, fmt.flatten_spec(), texts_view(parts@)),
{
    let n = parts.len();
    let ghost texts = texts_view(parts@);
    let sep: Vec<u8> = vec![10u8];
    proof {
        assert(sep@ =~= seq![10u8]);
    }
    let body = Join::new(parts, sep).render();
    assert(body@ == lines(texts));
    match fmt.key() {
        Some(key) => {
            if fmt.flatten() {
                body
            } else {
                let spaces = repeat(32u8, fmt.indent().level());
                let mut out: Vec<u8> = Vec::new();
                let mut s1 = spaces;
                out.append(&mut s1);
                let mut k = lossy_text(key.as_bytes());
                out.append(&mut k);
                if n == 0 {
                    let mut tail: Vec<u8> = vec![58u8, 32u8, 123u8, 32u8, 125u8];
                    proof {
                        assert(tail@ =~= seq![58u8, 32u8, 123u8, 32u8, 125u8]);
                    }
                    out.append(&mut tail);
                } else {
                    let mut open: Vec<u8> = vec![58u8, 32u8, 123u8, 10u8];
                    proof {
                        assert(open@ =~= seq![58u8, 32u8, 123u8, 10u8]);
                    }
                    out.append(&mut open);
                    let mut b = body;
                    out.append(&mut b);
                    out.push(10u8);
                    let mut s2 = repeat(32u8, fmt.indent().level());
                    out.append(&mut s2);
                    out.push(125u8);
                }
                proof {
                    assert(texts.len() == n);
                    assert(out@ =~= struct_text(fmt.key_spec(), fmt.indent_spec() as nat, fmt.flatten_spec(), texts));
                }
                out
            }
        },
        None => body,
    }
}

} // verus!
