//! A list of configuration values, in the order they were added.
use vstd::prelude::*;

use crate::collections::{
    lemma_record_normalized, lemma_replay_with_agrees, lemma_replay_with_record, normalized,
    ops_view, record, replay_with, ConfigCollection, ConfigHeader, OpView, Operation,
};
use crate::collections::{list_text, render_list, rendered};
use crate::ext::lossy::{lossy_text, utf8_lossy};
use crate::cval::{Cval, ICval};
use crate::fmt::ConfigFmt;
use crate::key::Key;

verus! {

/// The views of a sequence of values.
pub open spec fn cvals_view<T: ?Sized + ICval>(v: Seq<Cval<T>>) -> Seq<<T::Repr as View>::V> {
    v.map_values(|c: Cval<T>| c@)
}

/// `s` with every element equal to `v` taken out, the rest in order.
pub open spec fn without<V>(s: Seq<V>, v: V) -> Seq<V>
    decreases s.len(),
{
    if s.len() == 0 {
        s
    } else if s.last() == v {
        without(s.drop_last(), v)
    } else {
        without(s.drop_last(), v).push(s.last())
    }
}

/// The state of a list: the defaults it was made with, the values it holds
/// and whether it holds its defaults.
pub struct ListModel<V> {
    pub default: Seq<V>,
    pub list: Seq<V>,
    pub is_default: bool,
}

/// What one operation does to a list. Assigning makes it hold just the
/// value; assigning if undefined does so only where the list is empty;
/// adding appends; removing takes out every equal value; resetting restores
/// the defaults and clearing empties it.
pub open spec fn list_step<V>(m: ListModel<V>, op: OpView<V>) -> ListModel<V> {
    match op {
        OpView::Assign(v) => ListModel { default: m.default, list: seq![v], is_default: false },
        OpView::AssignIfUndefined(v) => if m.list.len() == 0 {
            ListModel { default: m.default, list: seq![v], is_default: false }
        } else {
            m
        },
        OpView::Add(v) => ListModel { default: m.default, list: m.list.push(v), is_default: false },
        OpView::Remove(v) => ListModel {
            default: m.default,
            list: without(m.list, v),
            is_default: m.is_default && !m.list.contains(v),
        },
        OpView::Reset => ListModel { default: m.default, list: m.default, is_default: true },
        OpView::Clear => ListModel {
            default: m.default,
            list: Seq::empty(),
            is_default: false,
        },
    }
}

pub open spec fn list_step_fn<V>() -> spec_fn(ListModel<V>, OpView<V>) -> ListModel<V> {
    |m: ListModel<V>, op: OpView<V>| list_step(m, op)
}

/// Copies of `v`'s values.
pub fn copy_cvals<T: ?Sized + ICval>(v: &Vec<Cval<T>>) -> (res: Vec<Cval<T>>)
    ensures
        cvals_view(res@) == cvals_view(v@),
{
    let mut out: Vec<Cval<T>> = Vec::new();
    let mut i: usize = 0;
    while i < v.len()
        invariant
            i <= v@.len(),
            cvals_view(out@) == cvals_view(v@).take(i as int),
        decreases v@.len() - i,
    {
        let c = v[i].duplicate();
        let ghost before = cvals_view(out@);
        out.push(c);
        proof {
            assert(cvals_view(out@) =~= before.push(c@));
            assert(cvals_view(v@).take(i + 1) =~= cvals_view(v@).take(i as int).push(v@[i as int]@));
        }
        i = i + 1;
    }
    proof {
        assert(cvals_view(v@).take(v@.len() as int) =~= cvals_view(v@));
    }
    out
}

/// A list of values of type `T`, with the defaults it starts with and is
/// reset to.
pub struct ConfigList<T: ?Sized + ICval> {
    header: ConfigHeader<T>,
    default: Vec<Cval<T>>,
    list: Vec<Cval<T>>,
}

impl<T: ?Sized + ICval> ConfigList<T> {
    pub closed spec fn key_view(&self) -> Seq<u8> {
        self.header.key_view()
    }

    /// An empty list with no defaults.
    pub fn new(key: Key) -> (res: Self)
        ensures
            res.wf(),
            res.key_view() == key@,
            res.model() == res.fresh_model(),
            res.model().default == Seq::<<T::Repr as View>::V>::empty(),
            res.history_view() == Seq::<OpView<<T::Repr as View>::V>>::empty(),
    {
        let res = ConfigList { header: ConfigHeader::new(key), default: Vec::new(), list: Vec::new() };
        proof {
            assert(cvals_view(res.default@) =~= Seq::<<T::Repr as View>::V>::empty());
            assert(cvals_view(res.list@) =~= Seq::<<T::Repr as View>::V>::empty());
        }
        res
    }

    /// A list holding, and reset to, the given defaults.
    pub fn new_with_default(key: Key, default: Vec<Cval<T>>) -> (res: Self)
        ensures
            res.wf(),
            res.key_view() == key@,
            res.model() == res.fresh_model(),
            res.model().default == cvals_view(default@),
            res.history_view() == Seq::<OpView<<T::Repr as View>::V>>::empty(),
    {
        let list = copy_cvals(&default);
        ConfigList { header: ConfigHeader::new(key), default, list }
    }

    pub fn key(&self) -> (res: &Key)
        ensures
            res@ == self.key_view(),
    {
        self.header.key()
    }

    pub fn len(&self) -> (res: usize)
        ensures
            res == self.model().list.len(),
    {
        self.list.len()
    }

    pub fn is_empty(&self) -> (res: bool)
        ensures
            res == (self.model().list.len() == 0),
    {
        self.list.len() == 0
    }

    /// The value at `index`, if the list is that long.
    pub fn get(&self, index: usize) -> (res: Option<&Cval<T>>)
        ensures
            index < self.model().list.len() ==> (res matches Some(c) && c@ == self.model().list[index as int]),
            index >= self.model().list.len() ==> res is None,
    {
        if index < self.list.len() {
            Some(&self.list[index])
        } else {
            None
        }
    }

    /// The values, in order.
    pub fn values(&self) -> (res: &Vec<Cval<T>>)
        ensures
            cvals_view(res@) == self.model().list,
    {
        &self.list
    }

    /// A copy of this collection.
    pub fn duplicate(&self) -> (res: Self)
        requires
            self.wf(),
        ensures
            res.wf(),
            res.key_view() == self.key_view(),
            res.model() == self.model(),
            res.fresh_model() == self.fresh_model(),
            res.history_view() == self.history_view(),
    {
        ConfigList {
            header: self.header.duplicate(),
            default: copy_cvals(&self.default),
            list: copy_cvals(&self.list),
        }
    }

    proof fn lemma_step_wf(&self, op: OpView<<T::Repr as View>::V>)
        requires
            self.wf(),
        ensures
            replay_with(list_step_fn(), self.fresh_model(), record(self.history_view(), op))
                == list_step(self.model(), op),
            normalized(record(self.history_view(), op)),
    {
        lemma_replay_with_record(list_step_fn(), self.fresh_model(), self.history_view(), op);
        lemma_record_normalized(self.history_view(), op);
    }
}

impl<T: ?Sized + ICval> ConfigCollection<T> for ConfigList<T> {
    type Model = ListModel<<T::Repr as View>::V>;

    closed spec fn wf(&self) -> bool {
        &&& replay_with(list_step_fn(), self.fresh_model(), self.history_view()) == self.model()
        &&& normalized(self.history_view())
    }

    closed spec fn model(&self) -> ListModel<<T::Repr as View>::V> {
        ListModel {
            default: cvals_view(self.default@),
            list: cvals_view(self.list@),
            is_default: self.header.default_flag(),
        }
    }

    closed spec fn fresh_model(&self) -> ListModel<<T::Repr as View>::V> {
        ListModel {
            default: cvals_view(self.default@),
            list: cvals_view(self.default@),
            is_default: true,
        }
    }

    closed spec fn history_view(&self) -> Seq<OpView<<T::Repr as View>::V>> {
        self.header.history_view()
    }

    open spec fn step(
        m: ListModel<<T::Repr as View>::V>,
        op: OpView<<T::Repr as View>::V>,
    ) -> ListModel<<T::Repr as View>::V> {
        list_step(m, op)
    }

    open spec fn model_defined(m: ListModel<<T::Repr as View>::V>) -> bool {
        m.list.len() > 0
    }

    open spec fn model_is_default(m: ListModel<<T::Repr as View>::V>) -> bool {
        m.is_default
    }

    proof fn lemma_wf(&self) {
        lemma_replay_with_agrees(
            |m: ListModel<<T::Repr as View>::V>, op: OpView<<T::Repr as View>::V>| Self::step(m, op),
            list_step_fn(),
            self.fresh_model(),
            self.history_view(),
        );
    }

    fn assign(&mut self, value: Cval<T>) {
        proof {
            self.lemma_step_wf(OpView::Assign(value@));
        }
        self.header.history_mut().assign(value.duplicate());
        self.header.set_modified();
        self.list.clear();
        self.list.push(value);
        proof {
            assert(cvals_view(self.list@) =~= seq![value@]);
        }
    }

    fn assign_if_undefined(&mut self, value: Cval<T>) {
        proof {
            self.lemma_step_wf(OpView::AssignIfUndefined(value@));
        }
        if self.list.len() == 0 {
            self.header.set_modified();
            self.list.push(value.duplicate());
            proof {
                assert(cvals_view(self.list@) =~= seq![value@]);
            }
        }
        self.header.history_mut().assign_if_undefined(value);
    }

    fn add(&mut self, value: Cval<T>) {
        proof {
            self.lemma_step_wf(OpView::Add(value@));
        }
        self.header.history_mut().add(value.duplicate());
        self.header.set_modified();
        let ghost before = cvals_view(self.list@);
        self.list.push(value);
        proof {
            assert(cvals_view(self.list@) =~= before.push(value@));
        }
    }

    fn remove(&mut self, value: Cval<T>) {
        proof {
            self.lemma_step_wf(OpView::Remove(value@));
        }
        let ghost old_list = cvals_view(self.list@);
        let mut kept: Vec<Cval<T>> = Vec::new();
        let mut removed = false;
        let mut i: usize = 0;
        while i < self.list.len()
            invariant
                i <= self.list@.len(),
                old_list == cvals_view(self.list@),
                cvals_view(kept@) == without(old_list.take(i as int), value@),
                removed == old_list.take(i as int).contains(value@),
            decreases self.list@.len() - i,
        {
            let c = &self.list[i];
            proof {
                assert(old_list.take(i + 1).drop_last() =~= old_list.take(i as int));
                assert(old_list.take(i + 1).last() == c@);
            }
            if c.same(&value) {
                removed = true;
                proof {
                    assert(old_list.take(i + 1).contains(value@)) by {
                        assert(old_list.take(i + 1)[i as int] == value@);
                    }
                }
            } else {
                let ghost before = cvals_view(kept@);
                let d = c.duplicate();
                kept.push(d);
                proof {
                    assert(cvals_view(kept@) =~= before.push(d@));
                    if old_list.take(i + 1).contains(value@) {
                        let j = choose|j: int| 0 <= j < i + 1 && #[trigger] old_list.take(i + 1)[j] == value@;
                        assert(old_list.take(i as int)[j] == value@);
                    }
                    if old_list.take(i as int).contains(value@) {
                        let j = choose|j: int| 0 <= j < i && #[trigger] old_list.take(i as int)[j] == value@;
                        assert(old_list.take(i + 1)[j] == value@);
                    }
                }
            }
            i = i + 1;
        }
        proof {
            assert(old_list.take(old_list.len() as int) =~= old_list);
        }
        self.list = kept;
        if removed {
            self.header.set_modified();
        }
        self.header.history_mut().remove(value);
    }

    fn reset(&mut self) {
        proof {
            self.lemma_step_wf(OpView::Reset);
        }
        self.header.history_mut().reset();
        self.header.set_default();
        self.list = copy_cvals(&self.default);
    }

    fn clear(&mut self) {
        proof {
            self.lemma_step_wf(OpView::Clear);
        }
        self.header.history_mut().clear();
        self.header.set_modified();
        self.list.clear();
        proof {
            assert(cvals_view(self.list@) =~= Seq::<<T::Repr as View>::V>::empty());
        }
    }

    fn is_default(&self) -> (res: bool) {
        self.header.is_default()
    }

    fn is_defined(&self) -> (res: bool) {
        self.list.len() != 0
    }

    fn history(&self) -> (res: &Vec<Operation<T>>) {
        self.header.history().history()
    }

    /// The first value assigned and each other added, one per line, or a
    /// clearing line for an empty list.
    closed spec fn text(&self, indent: nat) -> Seq<u8> {
        list_text(indent, utf8_lossy(self.key_view()), rendered::<T>(self.model().list))
    }

    fn display(&self, fmt: &ConfigFmt) -> (res: Vec<u8>) {
        let key = lossy_text(self.key().as_bytes());
        render_list(fmt.indent().0, key.as_slice(), &self.list)
    }
}

/// A list changed by any operations, replayed onto a new list made with
/// the same default (nothing applied to it yet), leaves that list with the
/// state and the record of the first.
pub proof fn lemma_replay_onto_new_list<T: ?Sized + ICval>(x: ConfigList<T>, y: ConfigList<T>)
    requires
        x.wf(),
        y.wf(),
        y.model() == y.fresh_model(),
        y.history_view() == Seq::<OpView<<T::Repr as View>::V>>::empty(),
        y.model().default == x.model().default,
    ensures
        crate::collections::replay_ops::<T, ConfigList<T>>(y.model(), x.history_view()) == x.model(),
        crate::collections::record_all(y.history_view(), x.history_view()) == x.history_view(),
{
    assert(y.fresh_model() == x.fresh_model());
    crate::collections::lemma_replay_onto_fresh::<T, ConfigList<T>>(x, y);
}

/// A list that holds a value is defined, whether or not those are its
/// defaults, so assigning a value only where none is defined
/// (`key := value;`) leaves it exactly as it was. Only an empty list takes
/// the value, as its one element.
pub proof fn lemma_list_assign_if_undefined<T: ?Sized + ICval>(c: ConfigList<T>, v: <T::Repr as View>::V)
    requires
        c.wf(),
    ensures
        c.model().list.len() > 0 ==> <ConfigList<T> as ConfigCollection<T>>::step(
            c.model(),
            OpView::AssignIfUndefined(v),
        ) == c.model(),
        c.model().list.len() == 0 ==> <ConfigList<T> as ConfigCollection<T>>::step(
            c.model(),
            OpView::AssignIfUndefined(v),
        ).list == seq![v],
{
}

/// Assigning a value (`key = value;`) leaves it the list's one element,
/// whatever the list held; adding one appends it and keeps what was there;
/// clearing empties the list; resetting brings back its defaults.
pub proof fn lemma_list_operations<T: ?Sized + ICval>(c: ConfigList<T>, v: <T::Repr as View>::V)
    requires
        c.wf(),
    ensures
        <ConfigList<T> as ConfigCollection<T>>::step(c.model(), OpView::Assign(v)).list == seq![v],
        <ConfigList<T> as ConfigCollection<T>>::step(c.model(), OpView::Add(v)).list.len() == c.model().list.len() + 1,
        <ConfigList<T> as ConfigCollection<T>>::step(c.model(), OpView::Add(v)).list.last() == v,
        <ConfigList<T> as ConfigCollection<T>>::step(c.model(), OpView::Add(v)).list.drop_last() == c.model().list,
        <ConfigList<T> as ConfigCollection<T>>::step(c.model(), OpView::Clear).list.len() == 0,
        <ConfigList<T> as ConfigCollection<T>>::step(c.model(), OpView::Reset).list == c.model().default,
{
    let a = <ConfigList<T> as ConfigCollection<T>>::step(c.model(), OpView::Add(v)).list;
    assert(a.drop_last() =~= c.model().list);
}

/// Taking a value out of a list leaves none of it, every other element as
/// often as before, and nothing new.
pub proof fn lemma_without_drops<V>(s: Seq<V>, v: V)
    ensures
        !without(s, v).contains(v),
        forall|x: V| #[trigger] without(s, v).contains(x) <==> (x != v && s.contains(x)),
        without(s, v).len() <= s.len(),
    decreases s.len(),
{
    if s.len() > 0 {
        lemma_without_drops(s.drop_last(), v);
        let r = without(s.drop_last(), v);
        let p = s.drop_last();
        assert forall|x: V| #[trigger] without(s, v).contains(x) <==> (x != v && s.contains(x)) by {
            // s holds x exactly where its front does or its last element is x
            if s.contains(x) {
                let i = choose|i: int| 0 <= i < s.len() && s[i] == x;
                if i < s.len() - 1 {
                    assert(p[i] == x);
                    assert(p.contains(x));
                }
            }
            if p.contains(x) {
                let i = choose|i: int| 0 <= i < p.len() && p[i] == x;
                assert(s[i] == x);
            }
            if s.last() == x {
                assert(s[s.len() - 1] == x);
            }
            assert(s.contains(x) <==> (p.contains(x) || s.last() == x));
            if s.last() != v {
                let w = r.push(s.last());
                assert(without(s, v) == w);
                if w.contains(x) {
                    let j = choose|j: int| 0 <= j < w.len() && w[j] == x;
                    if j < r.len() {
                        assert(r[j] == x);
                        assert(r.contains(x));
                    }
                }
                if r.contains(x) {
                    let j = choose|j: int| 0 <= j < r.len() && r[j] == x;
                    assert(w[j] == x);
                }
                assert(w[r.len() as int] == s.last());
                assert(w.contains(x) <==> (r.contains(x) || s.last() == x));
            }
        }
        assert(!without(s, v).contains(v));
    }
}

/// Removing a value (`key -= value;`) leaves none of it in the list, and
/// every other value that was there.
pub proof fn lemma_list_remove<T: ?Sized + ICval>(c: ConfigList<T>, v: <T::Repr as View>::V)
    requires
        c.wf(),
    ensures
        forall|x: <T::Repr as View>::V|
            #[trigger] <ConfigList<T> as ConfigCollection<T>>::step(c.model(), OpView::Remove(v)).list.contains(x)
                <==> (x != v && c.model().list.contains(x)),
{
    lemma_without_drops(c.model().list, v);
}

} // verus!
