//! A set of configuration values: each value held at most once, in no
//! particular order.
use vstd::prelude::*;

use crate::collections::list::{copy_cvals, cvals_view};
use crate::collections::{
    lemma_record_normalized, lemma_replay_with_agrees, lemma_replay_with_record, normalized,
    ops_view, record, replay_with, ConfigCollection, ConfigHeader, OpView, Operation,
};
use crate::collections::{list_text, render_list, rendered};
use crate::ext::lossy::{lossy_text, utf8_lossy};
use crate::cval::{Cval, ICval};
use crate::fmt::ConfigFmt;
use crate::key::Key;

verus! {

/// The state of a set: the defaults it was made with, the values it holds
/// and whether it holds its defaults.
#[verifier::reject_recursive_types(V)]
pub struct SetModel<V> {
    pub default: Seq<V>,
    pub set: Set<V>,
    pub is_default: bool,
}

/// What one operation does to a set. Assigning makes it hold just the value;
/// assigning if undefined does so only where the set is empty; adding
/// inserts; removing takes the value out, and changes the set only where it
/// held the value; resetting restores the defaults and clearing empties it.
pub open spec fn set_step<V>(m: SetModel<V>, op: OpView<V>) -> SetModel<V> {
    match op {
        OpView::Assign(v) => SetModel {
            default: m.default,
            set: Set::empty().insert(v),
            is_default: false,
        },
        OpView::AssignIfUndefined(v) => if m.set == Set::<V>::empty() {
            SetModel { default: m.default, set: Set::empty().insert(v), is_default: false }
        } else {
            m
        },
        OpView::Add(v) => SetModel { default: m.default, set: m.set.insert(v), is_default: false },
        OpView::Remove(v) => if m.set.contains(v) {
            SetModel { default: m.default, set: m.set.remove(v), is_default: false }
        } else {
            m
        },
        OpView::Reset => SetModel { default: m.default, set: m.default.to_set(), is_default: true },
        OpView::Clear => SetModel { default: m.default, set: Set::empty(), is_default: false },
    }
}

pub open spec fn set_step_fn<V>() -> spec_fn(SetModel<V>, OpView<V>) -> SetModel<V> {
    |m: SetModel<V>, op: OpView<V>| set_step(m, op)
}

/// The index of a value equal to `x` in `v`, if there is one.
pub fn find_cval<T: ?Sized + ICval>(v: &Vec<Cval<T>>, x: &Cval<T>) -> (res: Option<usize>)
    ensures
        match res {
            Some(i) => i < v@.len() && cvals_view(v@)[i as int] == x@,
            None => !cvals_view(v@).contains(x@),
        },
{
    let mut i: usize = 0;
    while i < v.len()
        invariant
            i <= v@.len(),
            forall|j: int| 0 <= j < i ==> cvals_view(v@)[j] != x@,
        decreases v@.len() - i,
    {
        if v[i].same(x) {
            return Some(i);
        }
        i = i + 1;
    }
    None
}

/// Adds a copy of `x` to `v` unless `v` holds an equal value.
fn insert_cval<T: ?Sized + ICval>(v: &mut Vec<Cval<T>>, x: &Cval<T>)
    requires
        cvals_view(old(v)@).no_duplicates(),
    ensures
        cvals_view(final(v)@).no_duplicates(),
        cvals_view(final(v)@).to_set() == cvals_view(old(v)@).to_set().insert(x@),
{
    match find_cval(v, x) {
        Some(i) => {
            proof {
                assert(cvals_view(v@).to_set().insert(x@) =~= cvals_view(v@).to_set());
            }
        },
        None => {
            let ghost before = cvals_view(v@);
            let c = x.duplicate();
            v.push(c);
            proof {
                let after = cvals_view(v@);
                assert(after =~= before.push(x@));
                assert(after.to_set() =~= before.to_set().insert(x@)) by {
                    assert forall|a| after.contains(a) <==> before.to_set().insert(x@).contains(a) by {
                        if before.contains(a) {
                            let j = choose|j: int| 0 <= j < before.len() && #[trigger] before[j] == a;
                            assert(after[j] == a);
                        }
                        if a == x@ {
                            assert(after[before.len() as int] == a);
                        }
                        if after.contains(a) {
                            let j = choose|j: int| 0 <= j < after.len() && #[trigger] after[j] == a;
                            if j < before.len() {
                                assert(before[j] == a);
                            }
                        }
                    }
                }
            }
        },
    }
}

/// The values of `v`, each once.
fn distinct_copies<T: ?Sized + ICval>(v: &Vec<Cval<T>>) -> (res: Vec<Cval<T>>)
    ensures
        cvals_view(res@).no_duplicates(),
        cvals_view(res@).to_set() == cvals_view(v@).to_set(),
{
    let mut out: Vec<Cval<T>> = Vec::new();
    let mut i: usize = 0;
    proof {
        assert(cvals_view(out@).to_set() =~= cvals_view(v@).take(0).to_set());
    }
    while i < v.len()
        invariant
            i <= v@.len(),
            cvals_view(out@).no_duplicates(),
            cvals_view(out@).to_set() == cvals_view(v@).take(i as int).to_set(),
        decreases v@.len() - i,
    {
        insert_cval(&mut out, &v[i]);
        proof {
            let s = cvals_view(v@);
            assert(s.take(i + 1) =~= s.take(i as int).push(s[i as int]));
            assert(s.take(i + 1).to_set() =~= s.take(i as int).to_set().insert(s[i as int])) by {
                assert forall|a| s.take(i + 1).contains(a) <==> s.take(i as int).to_set().insert(
                    s[i as int],
                ).contains(a) by {
                    if s.take(i as int).contains(a) {
                        let j = choose|j: int| 0 <= j < i && #[trigger] s.take(i as int)[j] == a;
                        assert(s.take(i + 1)[j] == a);
                    }
                    if a == s[i as int] {
                        assert(s.take(i + 1)[i as int] == a);
                    }
                    if s.take(i + 1).contains(a) {
                        let j = choose|j: int| 0 <= j < i + 1 && #[trigger] s.take(i + 1)[j] == a;
                        if j < i {
                            assert(s.take(i as int)[j] == a);
                        }
                    }
                }
            }
        }
        i = i + 1;
    }
    proof {
        assert(cvals_view(v@).take(v@.len() as int) =~= cvals_view(v@));
    }
    out
}

/// A set of values of type `T`, with the defaults it starts with and is
/// reset to.
pub struct ConfigSet<T: ?Sized + ICval> {
    header: ConfigHeader<T>,
    default: Vec<Cval<T>>,
    set: Vec<Cval<T>>,
}

impl<T: ?Sized + ICval> ConfigSet<T> {
    pub closed spec fn key_view(&self) -> Seq<u8> {
        self.header.key_view()
    }

    /// An empty set with no defaults.
    pub fn new(key: Key) -> (res: Self)
        ensures
            res.wf(),
            res.key_view() == key@,
            res.model() == res.fresh_model(),
            res.model().default == Seq::<<T::Repr as View>::V>::empty(),
            res.history_view() == Seq::<OpView<<T::Repr as View>::V>>::empty(),
    {
        let res = ConfigSet { header: ConfigHeader::new(key), default: Vec::new(), set: Vec::new() };
        proof {
            assert(cvals_view(res.default@) =~= Seq::<<T::Repr as View>::V>::empty());
            assert(cvals_view(res.set@) =~= Seq::<<T::Repr as View>::V>::empty());
        }
        res
    }

    /// A set holding, and reset to, the given defaults.
    pub fn new_with_default(key: Key, default: Vec<Cval<T>>) -> (res: Self)
        ensures
            res.wf(),
            res.key_view() == key@,
            res.model() == res.fresh_model(),
            res.model().default == cvals_view(default@),
            res.history_view() == Seq::<OpView<<T::Repr as View>::V>>::empty(),
    {
        let set = distinct_copies(&default);
        ConfigSet { header: ConfigHeader::new(key), default, set }
    }

    pub fn key(&self) -> (res: &Key)
        ensures
            res@ == self.key_view(),
    {
        self.header.key()
    }

    pub fn len(&self) -> (res: usize)
        requires
            self.wf(),
        ensures
            res == self.model().set.len(),
    {
        proof {
            cvals_view(self.set@).unique_seq_to_set();
        }
        self.set.len()
    }

    pub fn is_empty(&self) -> (res: bool)
        requires
            self.wf(),
        ensures
            res == (self.model().set == Set::<<T::Repr as View>::V>::empty()),
    {
        proof {
            if self.set@.len() > 0 {
                assert(self.model().set.contains(cvals_view(self.set@)[0]));
            } else {
                assert(self.model().set =~= Set::<<T::Repr as View>::V>::empty());
            }
        }
        self.set.len() == 0
    }

    /// Whether the set holds a value equal to `value`.
    pub fn contains(&self, value: &Cval<T>) -> (res: bool)
        requires
            self.wf(),
        ensures
            res == self.model().set.contains(value@),
    {
        match find_cval(&self.set, value) {
            Some(i) => {
                proof {
                    assert(cvals_view(self.set@).contains(value@));
                }
                true
            },
            None => false,
        }
    }

    /// The values, each once, in no particular order.
    pub fn values(&self) -> (res: &Vec<Cval<T>>)
        requires
            self.wf(),
        ensures
            cvals_view(res@).to_set() == self.model().set,
            cvals_view(res@).no_duplicates(),
    {
        &self.set
    }

    /// A copy of this collection.
    pub fn duplicate(&self) -> (res: Self)
        requires
            self.wf(),
        ensures
            res.wf(),
            res.key_view() == self.key_view(),
            res.model() == self.model(),
            res.fresh_model() == self.fresh_model(),
            res.history_view() == self.history_view(),
    {
        ConfigSet {
            header: self.header.duplicate(),
            default: copy_cvals(&self.default),
            set: copy_cvals(&self.set),
        }
    }

    proof fn lemma_step_wf(&self, op: OpView<<T::Repr as View>::V>)
        requires
            self.wf(),
        ensures
            replay_with(set_step_fn(), self.fresh_model(), record(self.history_view(), op))
                == set_step(self.model(), op),
            normalized(record(self.history_view(), op)),
    {
        lemma_replay_with_record(set_step_fn(), self.fresh_model(), self.history_view(), op);
        lemma_record_normalized(self.history_view(), op);
    }

    proof fn lemma_empty_set(&self)
        ensures
            (self.set@.len() == 0) <==> (self.model().set == Set::<<T::Repr as View>::V>::empty()),
    {
        if self.set@.len() > 0 {
            assert(self.model().set.contains(cvals_view(self.set@)[0]));
        } else {
            assert(self.model().set =~= Set::<<T::Repr as View>::V>::empty());
        }
    }
}

impl<T: ?Sized + ICval> ConfigCollection<T> for ConfigSet<T> {
    type Model = SetModel<<T::Repr as View>::V>;

    closed spec fn wf(&self) -> bool {
        &&& replay_with(set_step_fn(), self.fresh_model(), self.history_view()) == self.model()
        &&& normalized(self.history_view())
        &&& cvals_view(self.set@).no_duplicates()
    }

    closed spec fn model(&self) -> SetModel<<T::Repr as View>::V> {
        SetModel {
            default: cvals_view(self.default@),
            set: cvals_view(self.set@).to_set(),
            is_default: self.header.default_flag(),
        }
    }

    closed spec fn fresh_model(&self) -> SetModel<<T::Repr as View>::V> {
        SetModel {
            default: cvals_view(self.default@),
            set: cvals_view(self.default@).to_set(),
            is_default: true,
        }
    }

    closed spec fn history_view(&self) -> Seq<OpView<<T::Repr as View>::V>> {
        self.header.history_view()
    }

    open spec fn step(
        m: SetModel<<T::Repr as View>::V>,
        op: OpView<<T::Repr as View>::V>,
    ) -> SetModel<<T::Repr as View>::V> {
        set_step(m, op)
    }

    open spec fn model_defined(m: SetModel<<T::Repr as View>::V>) -> bool {
        m.set != Set::<<T::Repr as View>::V>::empty()
    }

    open spec fn model_is_default(m: SetModel<<T::Repr as View>::V>) -> bool {
        m.is_default
    }

    proof fn lemma_wf(&self) {
        lemma_replay_with_agrees(
            |m: SetModel<<T::Repr as View>::V>, op: OpView<<T::Repr as View>::V>| Self::step(m, op),
            set_step_fn(),
            self.fresh_model(),
            self.history_view(),
        );
    }

    fn assign(&mut self, value: Cval<T>) {
        proof {
            self.lemma_step_wf(OpView::Assign(value@));
        }
        self.header.history_mut().assign(value.duplicate());
        self.header.set_modified();
        self.set.clear();
        self.set.push(value);
        proof {
            assert(cvals_view(self.set@) =~= seq![value@]);
            assert(seq![value@].to_set() =~= Set::<<T::Repr as View>::V>::empty().insert(value@)) by {
                assert(seq![value@][0] == value@);
            }
        }
    }

    fn assign_if_undefined(&mut self, value: Cval<T>) {
        proof {
            self.lemma_step_wf(OpView::AssignIfUndefined(value@));
            self.lemma_empty_set();
        }
        if self.set.len() == 0 {
            self.header.set_modified();
            self.set.push(value.duplicate());
            proof {
                assert(cvals_view(self.set@) =~= seq![value@]);
                assert(seq![value@].to_set() =~= Set::<<T::Repr as View>::V>::empty().insert(
                    value@,
                )) by {
                    assert(seq![value@][0] == value@);
                }
            }
        }
        self.header.history_mut().assign_if_undefined(value);
    }

    fn add(&mut self, value: Cval<T>) {
        proof {
            self.lemma_step_wf(OpView::Add(value@));
        }
        self.header.history_mut().add(value.duplicate());
        self.header.set_modified();
        insert_cval(&mut self.set, &value);
    }

    fn remove(&mut self, value: Cval<T>) {
        proof {
            self.lemma_step_wf(OpView::Remove(value@));
        }
        match find_cval(&self.set, &value) {
            Some(i) => {
                let ghost before = cvals_view(self.set@);
                proof {
                    assert(before.contains(value@));
                }
                self.set.remove(i);
                proof {
                    let after = cvals_view(self.set@);
                    assert(after =~= before.remove(i as int));
                    assert(after.to_set() =~= before.to_set().remove(value@)) by {
                        assert forall|a| after.contains(a) <==> before.to_set().remove(
                            value@,
                        ).contains(a) by {
                            if after.contains(a) {
                                let j = choose|j: int| 0 <= j < after.len() && #[trigger] after[j] == a;
                                if j < i {
                                    assert(before[j] == a);
                                } else {
                                    assert(before[j + 1] == a);
                                }
                            }
                            if before.contains(a) && a != value@ {
                                let j = choose|j: int| 0 <= j < before.len() && #[trigger] before[j] == a;
                                if j < i {
                                    assert(after[j] == a);
                                } else {
                                    assert(after[j - 1] == a);
                                }
                            }
                        }
                    }
                }
                self.header.set_modified();
            },
            None => {},
        }
        self.header.history_mut().remove(value);
    }

    fn reset(&mut self) {
        proof {
            self.lemma_step_wf(OpView::Reset);
        }
        self.header.history_mut().reset();
        self.header.set_default();
        self.set = distinct_copies(&self.default);
    }

    fn clear(&mut self) {
        proof {
            self.lemma_step_wf(OpView::Clear);
        }
        self.header.history_mut().clear();
        self.header.set_modified();
        self.set.clear();
        proof {
            assert(cvals_view(self.set@).to_set() =~= Set::<<T::Repr as View>::V>::empty());
        }
    }

    fn is_default(&self) -> (res: bool) {
        self.header.is_default()
    }

    fn is_defined(&self) -> (res: bool) {
        proof {
            self.lemma_empty_set();
        }
        self.set.len() != 0
    }

    fn history(&self) -> (res: &Vec<Operation<T>>) {
        self.header.history().history()
    }

    /// The values in the order the set holds them: the first assigned and
    /// each other added, one per line, or a clearing line for an empty set.
    closed spec fn text(&self, indent: nat) -> Seq<u8> {
        list_text(indent, utf8_lossy(self.key_view()), rendered::<T>(cvals_view(self.set@)))
    }

    fn display(&self, fmt: &ConfigFmt) -> (res: Vec<u8>) {
        let key = lossy_text(self.key().as_bytes());
        render_list(fmt.indent().0, key.as_slice(), &self.set)
    }
}

/// A set changed by any operations, replayed onto a new set made with
/// the same default (nothing applied to it yet), leaves that set with the
/// state and the record of the first.
pub proof fn lemma_replay_onto_new_set<T: ?Sized + ICval>(x: ConfigSet<T>, y: ConfigSet<T>)
    requires
        x.wf(),
        y.wf(),
        y.model() == y.fresh_model(),
        y.history_view() == Seq::<OpView<<T::Repr as View>::V>>::empty(),
        y.model().default == x.model().default,
    ensures
        crate::collections::replay_ops::<T, ConfigSet<T>>(y.model(), x.history_view()) == x.model(),
        crate::collections::record_all(y.history_view(), x.history_view()) == x.history_view(),
{
    assert(y.fresh_model() == x.fresh_model());
    crate::collections::lemma_replay_onto_fresh::<T, ConfigSet<T>>(x, y);
}

/// Assigning a value (`key = value;`) leaves exactly that value in the set,
/// whatever it held before and whatever its defaults are.
pub proof fn lemma_set_assign<T: ?Sized + ICval>(c: ConfigSet<T>, v: <T::Repr as View>::V)
    requires
        c.wf(),
    ensures
        forall|x: <T::Repr as View>::V|
            #[trigger] <ConfigSet<T> as ConfigCollection<T>>::step(c.model(), OpView::Assign(v)).set.contains(x)
                <==> x == v,
{
}

/// A set that holds a value is defined, so assigning only where none is
/// defined leaves it as it was; adding puts the value in and keeps the rest;
/// removing takes out that value only.
pub proof fn lemma_set_operations<T: ?Sized + ICval>(c: ConfigSet<T>, v: <T::Repr as View>::V)
    requires
        c.wf(),
    ensures
        c.model().set.len() > 0 ==> <ConfigSet<T> as ConfigCollection<T>>::step(
            c.model(),
            OpView::AssignIfUndefined(v),
        ) == c.model(),
        forall|x: <T::Repr as View>::V|
            #[trigger] <ConfigSet<T> as ConfigCollection<T>>::step(c.model(), OpView::Add(v)).set.contains(x)
                <==> (x == v || c.model().set.contains(x)),
        forall|x: <T::Repr as View>::V|
            #[trigger] <ConfigSet<T> as ConfigCollection<T>>::step(c.model(), OpView::Remove(v)).set.contains(x)
                <==> (x != v && c.model().set.contains(x)),
        c.model().set.len() == 0 ==> forall|x: <T::Repr as View>::V|
            #[trigger] <ConfigSet<T> as ConfigCollection<T>>::step(
                c.model(),
                OpView::AssignIfUndefined(v),
            ).set.contains(x) <==> x == v,
        <ConfigSet<T> as ConfigCollection<T>>::step(c.model(), OpView::Clear).set.len() == 0,
        <ConfigSet<T> as ConfigCollection<T>>::step(c.model(), OpView::Reset).set == c.model().default.to_set(),
{
    if c.model().set.len() == 0 {
        assert(c.model().set.finite());
        vstd::set_lib::lemma_set_empty_equivalency_len(c.model().set);
    }
    if c.model().set.len() > 0 {
        if c.model().set == Set::<<T::Repr as View>::V>::empty() {
            assert(c.model().set.len() == 0);
        }
    }
}

} // verus!
