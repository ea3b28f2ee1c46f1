//! A single configuration value with a default.
use vstd::prelude::*;

use crate::collections::{
    lemma_record_normalized, lemma_replay_with_agrees, lemma_replay_with_record, normalized, ops_view, record, replay_with, ConfigCollection,
    ConfigHeader, OpView, Operation,
};
use crate::collections::{entry_line, op_assign_text, push_entry_line};
use crate::ext::lossy::{lossy_text, utf8_lossy};
use crate::cval::{Cval, ICval};
use crate::fmt::ConfigFmt;
use crate::key::Key;

verus! {

/// The state of a single value: the default it was made with, the value
/// set, if any, and whether it holds its default.
pub struct ValueModel<V> {
    pub default: V,
    pub value: Option<V>,
    pub is_default: bool,
}

/// What one operation does to a single value. Assigning and adding set it;
/// assigning if undefined sets it only where none is set; removing unsets it
/// where it equals the removed value; resetting and clearing unset it.
pub open spec fn value_step<V>(m: ValueModel<V>, op: OpView<V>) -> ValueModel<V> {
    match op {
        OpView::Assign(v) => ValueModel { default: m.default, value: Some(v), is_default: false },
        OpView::Add(v) => ValueModel { default: m.default, value: Some(v), is_default: false },
        OpView::AssignIfUndefined(v) => if m.value is None {
            ValueModel { default: m.default, value: Some(v), is_default: false }
        } else {
            m
        },
        OpView::Remove(v) => if m.value == Some(v) {
            ValueModel { default: m.default, value: None, is_default: true }
        } else {
            m
        },
        OpView::Reset => ValueModel { default: m.default, value: None, is_default: true },
        OpView::Clear => ValueModel { default: m.default, value: None, is_default: true },
    }
}

pub open spec fn value_step_fn<V>() -> spec_fn(ValueModel<V>, OpView<V>) -> ValueModel<V> {
    |m: ValueModel<V>, op: OpView<V>| value_step(m, op)
}

/// A single value of type `T`, with the default it falls back to.
pub struct ConfigValue<T: ?Sized + ICval> {
    header: ConfigHeader<T>,
    default: Cval<T>,
    value: Option<Cval<T>>,
}

impl<T: ?Sized + ICval> ConfigValue<T> {
    pub closed spec fn key_view(&self) -> Seq<u8> {
        self.header.key_view()
    }

    /// The value that reads of this collection give: the one set, or else
    /// the default.
    pub open spec fn current(m: ValueModel<<T::Repr as View>::V>) -> <T::Repr as View>::V {
        match m.value {
            Some(v) => v,
            None => m.default,
        }
    }

    /// A value with the type's own default.
    pub fn new(key: Key) -> (res: Self)
        ensures
            res.wf(),
            res.key_view() == key@,
            res.model() == res.fresh_model(),
            res.model().default == T::default_view(),
            res.history_view() == Seq::<OpView<<T::Repr as View>::V>>::empty(),
    {
        Self::new_with_default(key, Cval::from_repr(T::default_repr()))
    }

    /// A value with the given default.
    pub fn new_with_default(key: Key, default: Cval<T>) -> (res: Self)
        ensures
            res.wf(),
            res.key_view() == key@,
            res.model() == res.fresh_model(),
            res.model().default == default@,
            res.history_view() == Seq::<OpView<<T::Repr as View>::V>>::empty(),
    {
        ConfigValue { header: ConfigHeader::new(key), default, value: None }
    }

    pub fn key(&self) -> (res: &Key)
        ensures
            res@ == self.key_view(),
    {
        self.header.key()
    }

    /// The value set, or else the default.
    pub fn value(&self) -> (res: &Cval<T>)
        ensures
            res@ == Self::current(self.model()),
    {
        match &self.value {
            Some(v) => v,
            None => &self.default,
        }
    }

    /// A copy of this collection.
    pub fn duplicate(&self) -> (res: Self)
        requires
            self.wf(),
        ensures
            res.wf(),
            res.key_view() == self.key_view(),
            res.model() == self.model(),
            res.fresh_model() == self.fresh_model(),
            res.history_view() == self.history_view(),
    {
        let value = match &self.value {
            Some(v) => Some(v.duplicate()),
            None => None,
        };
        ConfigValue { header: self.header.duplicate(), default: self.default.duplicate(), value }
    }

    /// Checks the state after `op` against the record.
    proof fn lemma_step_wf(&self, op: OpView<<T::Repr as View>::V>)
        requires
            self.wf(),
        ensures
            replay_with(value_step_fn(), self.fresh_model(), record(self.history_view(), op))
                == value_step(self.model(), op),
            normalized(record(self.history_view(), op)),
    {
        lemma_replay_with_record(value_step_fn(), self.fresh_model(), self.history_view(), op);
        lemma_record_normalized(self.history_view(), op);
    }
}

impl<T: ?Sized + ICval> ConfigCollection<T> for ConfigValue<T> {
    type Model = ValueModel<<T::Repr as View>::V>;

    closed spec fn wf(&self) -> bool {
        &&& replay_with(value_step_fn(), self.fresh_model(), self.history_view()) == self.model()
        &&& normalized(self.history_view())
    }

    closed spec fn model(&self) -> ValueModel<<T::Repr as View>::V> {
        ValueModel {
            default: self.default@,
            value: match self.value {
                Some(v) => Some(v@),
                None => None,
            },
            is_default: self.header.default_flag(),
        }
    }

    closed spec fn fresh_model(&self) -> ValueModel<<T::Repr as View>::V> {
        ValueModel { default: self.default@, value: None, is_default: true }
    }

    closed spec fn history_view(&self) -> Seq<OpView<<T::Repr as View>::V>> {
        self.header.history_view()
    }

    open spec fn step(
        m: ValueModel<<T::Repr as View>::V>,
        op: OpView<<T::Repr as View>::V>,
    ) -> ValueModel<<T::Repr as View>::V> {
        value_step(m, op)
    }

    open spec fn model_defined(m: ValueModel<<T::Repr as View>::V>) -> bool {
        m.value is Some
    }

    open spec fn model_is_default(m: ValueModel<<T::Repr as View>::V>) -> bool {
        m.is_default
    }

    proof fn lemma_wf(&self) {
        lemma_replay_with_agrees(
            |m: ValueModel<<T::Repr as View>::V>, op: OpView<<T::Repr as View>::V>| Self::step(m, op),
            value_step_fn(),
            self.fresh_model(),
            self.history_view(),
        );
    }

    fn assign(&mut self, value: Cval<T>) {
        proof {
            self.lemma_step_wf(OpView::Assign(value@));
        }
        self.header.history_mut().assign(value.duplicate());
        self.header.set_modified();
        self.value = Some(value);
    }

    fn assign_if_undefined(&mut self, value: Cval<T>) {
        proof {
            self.lemma_step_wf(OpView::AssignIfUndefined(value@));
        }
        if self.value.is_none() {
            self.header.set_modified();
            self.value = Some(value.duplicate());
        }
        self.header.history_mut().assign_if_undefined(value);
    }

    fn add(&mut self, value: Cval<T>) {
        proof {
            self.lemma_step_wf(OpView::Add(value@));
        }
        self.header.history_mut().add(value.duplicate());
        self.header.set_modified();
        self.value = Some(value);
    }

    fn remove(&mut self, value: Cval<T>) {
        proof {
            self.lemma_step_wf(OpView::Remove(value@));
        }
        let matches = match &self.value {
            Some(x) => x.same(&value),
            None => false,
        };
        if matches {
            self.value = None;
            self.header.set_default();
        }
        self.header.history_mut().remove(value);
    }

    fn reset(&mut self) {
        proof {
            self.lemma_step_wf(OpView::Reset);
        }
        self.header.history_mut().reset();
        self.header.set_default();
        self.value = None;
    }

    fn clear(&mut self) {
        proof {
            self.lemma_step_wf(OpView::Clear);
        }
        self.header.history_mut().clear();
        self.header.set_default();
        self.value = None;
    }

    fn is_default(&self) -> (res: bool) {
        self.header.is_default()
    }

    fn is_defined(&self) -> (res: bool) {
        self.value.is_some()
    }

    fn history(&self) -> (res: &Vec<Operation<T>>) {
        self.header.history().history()
    }

    /// `key = value;` with the value read gives.
    closed spec fn text(&self, indent: nat) -> Seq<u8> {
        entry_line(
            indent,
            utf8_lossy(self.key_view()),
            op_assign_text(),
            T::render_spec(Self::current(self.model())),
        )
    }

    fn display(&self, fmt: &ConfigFmt) -> (res: Vec<u8>) {
        let mut out: Vec<u8> = Vec::new();
        let assign: [u8; 1] = [61u8];
        proof {
            assert(assign@ =~= op_assign_text());
        }
        let value = self.value().render();
        let key = lossy_text(self.key().as_bytes());
        push_entry_line(&mut out, fmt.indent().0, key.as_slice(), assign.as_slice(), value.as_slice());
        proof {
            assert(out@ =~= self.text(fmt.indent_spec() as nat));
        }
        out
    }
}

/// A value changed by any operations, replayed onto a new value made with
/// the same default (nothing applied to it yet), leaves that value with the
/// state and the record of the first.
pub proof fn lemma_replay_onto_new_value<T: ?Sized + ICval>(x: ConfigValue<T>, y: ConfigValue<T>)
    requires
        x.wf(),
        y.wf(),
        y.model() == y.fresh_model(),
        y.history_view() == Seq::<OpView<<T::Repr as View>::V>>::empty(),
        y.model().default == x.model().default,
    ensures
        crate::collections::replay_ops::<T, ConfigValue<T>>(y.model(), x.history_view()) == x.model(),
        crate::collections::record_all(y.history_view(), x.history_view()) == x.history_view(),
{
    assert(y.fresh_model() == x.fresh_model());
    crate::collections::lemma_replay_onto_fresh::<T, ConfigValue<T>>(x, y);
}

} // verus!
