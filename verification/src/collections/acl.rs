//! An access control list: values each marked allowed or denied, in the
//! order they were last given.
use vstd::prelude::*;

use crate::collections::{
    lemma_record_normalized, lemma_replay_with_agrees, lemma_replay_with_record, normalized,
    ops_view, record, replay_with, ConfigCollection, ConfigHeader, OpView, Operation,
};
use crate::collections::{
    clear_line, entry_line, op_add_text, op_assign_text, op_remove_text, push_clear_line,
    push_entry_line,
};
use crate::cval::{Cval, ICval};
use crate::ext::lossy::{lossy_text, utf8_lossy};
use crate::fmt::ConfigFmt;
use crate::key::Key;

verus! {

/// Whether an entry of an access control list allows or denies its value.
#[derive(Debug, Clone, Copy, PartialEq, Eq, Hash, Structural)]
pub enum AclAction {
    Allow,
    Deny,
}

/// The views of a sequence of entries.
pub open spec fn entries_view<T: ?Sized + ICval>(v: Seq<(AclAction, Cval<T>)>) -> Seq<
    (AclAction, <T::Repr as View>::V),
> {
    v.map_values(|e: (AclAction, Cval<T>)| (e.0, e.1@))
}

/// `s` with every entry for the value `v` taken out, the rest in order.
pub open spec fn without_value<V>(s: Seq<(AclAction, V)>, v: V) -> Seq<(AclAction, V)>
    decreases s.len(),
{
    if s.len() == 0 {
        s
    } else if s.last().1 == v {
        without_value(s.drop_last(), v)
    } else {
        without_value(s.drop_last(), v).push(s.last())
    }
}

/// The values of the entries of `s` marked `action`, in order.
pub open spec fn marked<V>(s: Seq<(AclAction, V)>, action: AclAction) -> Seq<V>
    decreases s.len(),
{
    if s.len() == 0 {
        Seq::empty()
    } else if s.last().0 == action {
        marked(s.drop_last(), action).push(s.last().1)
    } else {
        marked(s.drop_last(), action)
    }
}

/// The state of an access control list: the entries it was made with, the
/// entries it holds and whether it holds its defaults.
pub struct AclModel<V> {
    pub default: Seq<(AclAction, V)>,
    pub acl: Seq<(AclAction, V)>,
    pub is_default: bool,
}

/// What one operation does to an access control list. Assigning makes it
/// allow just the value; assigning if undefined does so only where the list
/// is empty; adding and removing drop every entry for the value and append
/// one that allows (adding) or denies (removing) it; resetting restores the
/// defaults and clearing empties the list.
pub open spec fn acl_step<V>(m: AclModel<V>, op: OpView<V>) -> AclModel<V> {
    match op {
        OpView::Assign(v) => AclModel {
            default: m.default,
            acl: seq![(AclAction::Allow, v)],
            is_default: false,
        },
        OpView::AssignIfUndefined(v) => if m.acl.len() == 0 {
            AclModel { default: m.default, acl: seq![(AclAction::Allow, v)], is_default: false }
        } else {
            m
        },
        OpView::Add(v) => AclModel {
            default: m.default,
            acl: without_value(m.acl, v).push((AclAction::Allow, v)),
            is_default: false,
        },
        OpView::Remove(v) => AclModel {
            default: m.default,
            acl: without_value(m.acl, v).push((AclAction::Deny, v)),
            is_default: false,
        },
        OpView::Reset => AclModel { default: m.default, acl: m.default, is_default: true },
        OpView::Clear => AclModel { default: m.default, acl: Seq::empty(), is_default: false },
    }
}

pub open spec fn acl_step_fn<V>() -> spec_fn(AclModel<V>, OpView<V>) -> AclModel<V> {
    |m: AclModel<V>, op: OpView<V>| acl_step(m, op)
}

/// The entries with their values written out.
pub open spec fn rendered_entries<T: ?Sized + ICval>(s: Seq<(AclAction, <T::Repr as View>::V)>) -> Seq<
    (AclAction, Seq<u8>),
> {
    s.map_values(|e: (AclAction, <T::Repr as View>::V)| (e.0, T::render_spec(e.1)))
}

/// The operator an entry is written with: an allowed value is assigned when
/// it comes first and added otherwise; a denied value is removed.
pub open spec fn acl_op(action: AclAction, first: bool) -> Seq<u8> {
    match action {
        AclAction::Allow => if first {
            op_assign_text()
        } else {
            op_add_text()
        },
        AclAction::Deny => op_remove_text(),
    }
}

/// The entries of an access control list written one after the other.
pub open spec fn acl_text(key: Seq<u8>, entries: Seq<(AclAction, Seq<u8>)>) -> Seq<u8>
    decreases entries.len(),
{
    if entries.len() == 0 {
        clear_line(0, key)
    } else if entries.len() == 1 {
        entry_line(0, key, acl_op(entries[0].0, true), entries[0].1)
    } else {
        acl_text(key, entries.drop_last()) + entry_line(
            0,
            key,
            acl_op(entries.last().0, false),
            entries.last().1,
        )
    }
}

/// Copies of the entries of `v`.
fn copy_entries<T: ?Sized + ICval>(v: &Vec<(AclAction, Cval<T>)>) -> (res: Vec<(AclAction, Cval<T>)>)
    ensures
        entries_view(res@) == entries_view(v@),
{
    let mut out: Vec<(AclAction, Cval<T>)> = Vec::new();
    let mut i: usize = 0;
    while i < v.len()
        invariant
            i <= v@.len(),
            entries_view(out@) == entries_view(v@).take(i as int),
        decreases v@.len() - i,
    {
        let e = (v[i].0, v[i].1.duplicate());
        let ghost before = entries_view(out@);
        out.push(e);
        proof {
            assert(entries_view(out@) =~= before.push((e.0, e.1@)));
            assert(entries_view(v@).take(i + 1) =~= entries_view(v@).take(i as int).push(
                (v@[i as int].0, v@[i as int].1@),
            ));
        }
        i = i + 1;
    }
    proof {
        assert(entries_view(v@).take(v@.len() as int) =~= entries_view(v@));
    }
    out
}

/// Copies of the values of the entries of `v` marked `action`, in order.
fn copy_marked<T: ?Sized + ICval>(v: &Vec<(AclAction, Cval<T>)>, action: AclAction) -> (res: Vec<Cval<T>>)
    ensures
        crate::collections::list::cvals_view(res@) == marked(entries_view(v@), action),
{
    let mut out: Vec<Cval<T>> = Vec::new();
    let mut i: usize = 0;
    while i < v.len()
        invariant
            i <= v@.len(),
            crate::collections::list::cvals_view(out@) == marked(entries_view(v@).take(i as int), action),
        decreases v@.len() - i,
    {
        let ghost s = entries_view(v@);
        proof {
            assert(s.take(i + 1).drop_last() =~= s.take(i as int));
            assert(s.take(i + 1).last() == (v@[i as int].0, v@[i as int].1@));
        }
        if v[i].0 == action {
            let c = v[i].1.duplicate();
            let ghost before = crate::collections::list::cvals_view(out@);
            out.push(c);
            proof {
                assert(crate::collections::list::cvals_view(out@) =~= before.push(c@));
            }
        }
        i = i + 1;
    }
    proof {
        assert(entries_view(v@).take(v@.len() as int) =~= entries_view(v@));
    }
    out
}

/// An access control list of values of type `T`, with the entries it starts
/// with and is reset to.
pub struct ConfigAcl<T: ?Sized + ICval> {
    header: ConfigHeader<T>,
    default: Vec<(AclAction, Cval<T>)>,
    acl: Vec<(AclAction, Cval<T>)>,
}

impl<T: ?Sized + ICval> ConfigAcl<T> {
    pub closed spec fn key_view(&self) -> Seq<u8> {
        self.header.key_view()
    }

    /// An empty list with no defaults.
    pub fn new(key: Key) -> (res: Self)
        ensures
            res.wf(),
            res.key_view() == key@,
            res.model() == res.fresh_model(),
            res.model().default == Seq::<(AclAction, <T::Repr as View>::V)>::empty(),
            res.history_view() == Seq::<OpView<<T::Repr as View>::V>>::empty(),
    {
        let res = ConfigAcl { header: ConfigHeader::new(key), default: Vec::new(), acl: Vec::new() };
        proof {
            assert(entries_view(res.default@) =~= Seq::<(AclAction, <T::Repr as View>::V)>::empty());
            assert(entries_view(res.acl@) =~= Seq::<(AclAction, <T::Repr as View>::V)>::empty());
        }
        res
    }

    /// A list holding, and reset to, the given entries.
    pub fn new_with_default(key: Key, default: Vec<(AclAction, Cval<T>)>) -> (res: Self)
        ensures
            res.wf(),
            res.key_view() == key@,
            res.model() == res.fresh_model(),
            res.model().default == entries_view(default@),
            res.history_view() == Seq::<OpView<<T::Repr as View>::V>>::empty(),
    {
        let acl = copy_entries(&default);
        ConfigAcl { header: ConfigHeader::new(key), default, acl }
    }

    pub fn key(&self) -> (res: &Key)
        ensures
            res@ == self.key_view(),
    {
        self.header.key()
    }

    pub fn len(&self) -> (res: usize)
        ensures
            res == self.model().acl.len(),
    {
        self.acl.len()
    }

    pub fn is_empty(&self) -> (res: bool)
        ensures
            res == (self.model().acl.len() == 0),
    {
        self.acl.len() == 0
    }

    /// The entry at `index`, if the list is that long.
    pub fn get(&self, index: usize) -> (res: Option<(AclAction, &Cval<T>)>)
        ensures
            index < self.model().acl.len() ==> (res matches Some((a, c)) && (a, c@)
                == self.model().acl[index as int]),
            index >= self.model().acl.len() ==> res is None,
    {
        if index < self.acl.len() {
            Some((self.acl[index].0, &self.acl[index].1))
        } else {
            None
        }
    }

    /// The entries, in order.
    pub fn values(&self) -> (res: &Vec<(AclAction, Cval<T>)>)
        ensures
            entries_view(res@) == self.model().acl,
    {
        &self.acl
    }

    /// The allowed values, in order.
    pub fn allowed(&self) -> (res: Vec<Cval<T>>)
        ensures
            crate::collections::list::cvals_view(res@) == marked(self.model().acl, AclAction::Allow),
    {
        copy_marked(&self.acl, AclAction::Allow)
    }

    /// The denied values, in order.
    pub fn denied(&self) -> (res: Vec<Cval<T>>)
        ensures
            crate::collections::list::cvals_view(res@) == marked(self.model().acl, AclAction::Deny),
    {
        copy_marked(&self.acl, AclAction::Deny)
    }

    /// A copy of this collection.
    pub fn duplicate(&self) -> (res: Self)
        requires
            self.wf(),
        ensures
            res.wf(),
            res.key_view() == self.key_view(),
            res.model() == self.model(),
            res.fresh_model() == self.fresh_model(),
            res.history_view() == self.history_view(),
    {
        ConfigAcl {
            header: self.header.duplicate(),
            default: copy_entries(&self.default),
            acl: copy_entries(&self.acl),
        }
    }

    proof fn lemma_step_wf(&self, op: OpView<<T::Repr as View>::V>)
        requires
            self.wf(),
        ensures
            replay_with(acl_step_fn(), self.fresh_model(), record(self.history_view(), op))
                == acl_step(self.model(), op),
            normalized(record(self.history_view(), op)),
    {
        lemma_replay_with_record(acl_step_fn(), self.fresh_model(), self.history_view(), op);
        lemma_record_normalized(self.history_view(), op);
    }

    /// Drops every entry for `value` and appends one marking it `action`.
    fn supersede(&mut self, value: Cval<T>, action: AclAction)
        ensures
            entries_view(final(self).acl@) == without_value(entries_view(old(self).acl@), value@).push(
                (action, value@),
            ),
            final(self).header == old(self).header,
            final(self).default == old(self).default,
    {
        let ghost old_acl = entries_view(self.acl@);
        let mut kept: Vec<(AclAction, Cval<T>)> = Vec::new();
        let mut i: usize = 0;
        while i < self.acl.len()
            invariant
                i <= self.acl@.len(),
                old_acl == entries_view(self.acl@),
                entries_view(kept@) == without_value(old_acl.take(i as int), value@),
            decreases self.acl@.len() - i,
        {
            proof {
                assert(old_acl.take(i + 1).drop_last() =~= old_acl.take(i as int));
                assert(old_acl.take(i + 1).last() == (self.acl@[i as int].0, self.acl@[i as int].1@));
            }
            if !self.acl[i].1.same(&value) {
                let e = (self.acl[i].0, self.acl[i].1.duplicate());
                let ghost before = entries_view(kept@);
                kept.push(e);
                proof {
                    assert(entries_view(kept@) =~= before.push((e.0, e.1@)));
                }
            }
            i = i + 1;
        }
        proof {
            assert(old_acl.take(old_acl.len() as int) =~= old_acl);
        }
        let ghost before = entries_view(kept@);
        kept.push((action, value));
        proof {
            assert(entries_view(kept@) =~= before.push((action, value@)));
        }
        self.acl = kept;
    }
}

impl<T: ?Sized + ICval> ConfigCollection<T> for ConfigAcl<T> {
    type Model = AclModel<<T::Repr as View>::V>;

    closed spec fn wf(&self) -> bool {
        &&& replay_with(acl_step_fn(), self.fresh_model(), self.history_view()) == self.model()
        &&& normalized(self.history_view())
    }

    closed spec fn model(&self) -> AclModel<<T::Repr as View>::V> {
        AclModel {
            default: entries_view(self.default@),
            acl: entries_view(self.acl@),
            is_default: self.header.default_flag(),
        }
    }

    closed spec fn fresh_model(&self) -> AclModel<<T::Repr as View>::V> {
        AclModel {
            default: entries_view(self.default@),
            acl: entries_view(self.default@),
            is_default: true,
        }
    }

    closed spec fn history_view(&self) -> Seq<OpView<<T::Repr as View>::V>> {
        self.header.history_view()
    }

    open spec fn step(
        m: AclModel<<T::Repr as View>::V>,
        op: OpView<<T::Repr as View>::V>,
    ) -> AclModel<<T::Repr as View>::V> {
        acl_step(m, op)
    }

    open spec fn model_defined(m: AclModel<<T::Repr as View>::V>) -> bool {
        m.acl.len() > 0
    }

    open spec fn model_is_default(m: AclModel<<T::Repr as View>::V>) -> bool {
        m.is_default
    }

    proof fn lemma_wf(&self) {
        lemma_replay_with_agrees(
            |m: AclModel<<T::Repr as View>::V>, op: OpView<<T::Repr as View>::V>| Self::step(m, op),
            acl_step_fn(),
            self.fresh_model(),
            self.history_view(),
        );
    }

    fn assign(&mut self, value: Cval<T>) {
        proof {
            self.lemma_step_wf(OpView::Assign(value@));
        }
        self.header.history_mut().assign(value.duplicate());
        self.header.set_modified();
        self.acl.clear();
        self.acl.push((AclAction::Allow, value));
        proof {
            assert(entries_view(self.acl@) =~= seq![(AclAction::Allow, value@)]);
        }
    }

    fn assign_if_undefined(&mut self, value: Cval<T>) {
        proof {
            self.lemma_step_wf(OpView::AssignIfUndefined(value@));
        }
        if self.acl.len() == 0 {
            self.header.set_modified();
            self.acl.push((AclAction::Allow, value.duplicate()));
            proof {
                assert(entries_view(self.acl@) =~= seq![(AclAction::Allow, value@)]);
            }
        }
        self.header.history_mut().assign_if_undefined(value);
    }

    fn add(&mut self, value: Cval<T>) {
        proof {
            self.lemma_step_wf(OpView::Add(value@));
        }
        self.header.history_mut().add(value.duplicate());
        self.header.set_modified();
        self.supersede(value, AclAction::Allow);
    }

    fn remove(&mut self, value: Cval<T>) {
        proof {
            self.lemma_step_wf(OpView::Remove(value@));
        }
        self.header.history_mut().remove(value.duplicate());
        self.header.set_modified();
        self.supersede(value, AclAction::Deny);
    }

    fn reset(&mut self) {
        proof {
            self.lemma_step_wf(OpView::Reset);
        }
        self.header.history_mut().reset();
        self.header.set_default();
        self.acl = copy_entries(&self.default);
    }

    fn clear(&mut self) {
        proof {
            self.lemma_step_wf(OpView::Clear);
        }
        self.header.history_mut().clear();
        self.header.set_modified();
        self.acl.clear();
        proof {
            assert(entries_view(self.acl@) =~= Seq::<(AclAction, <T::Repr as View>::V)>::empty());
        }
    }

    fn is_default(&self) -> (res: bool) {
        self.header.is_default()
    }

    fn is_defined(&self) -> (res: bool) {
        self.acl.len() != 0
    }

    fn history(&self) -> (res: &Vec<Operation<T>>) {
        self.header.history().history()
    }

    /// The entries on one line, without indentation: the first allowed value
    /// assigned, each other added, every denied value removed; a clearing
    /// entry for an empty list.
    closed spec fn text(&self, indent: nat) -> Seq<u8> {
        acl_text(utf8_lossy(self.key_view()), rendered_entries::<T>(self.model().acl))
    }

    fn display(&self, fmt: &ConfigFmt) -> (res: Vec<u8>) {
        let key_text = lossy_text(self.key().as_bytes());
        let key = key_text.as_slice();
        let ghost es = rendered_entries::<T>(entries_view(self.acl@));
        let mut out: Vec<u8> = Vec::new();
        if self.acl.len() == 0 {
            push_clear_line(&mut out, 0, key);
            proof {
                assert(out@ =~= acl_text(key@, es));
            }
            return out;
        }
        let mut i: usize = 0;
        proof {
            assert(out@ =~= acl_text(key@, es.take(0)).take(0));
        }
        while i < self.acl.len()
            invariant
                i <= self.acl@.len(),
                self.acl@.len() > 0,
                es == rendered_entries::<T>(entries_view(self.acl@)),
                key@ == utf8_lossy(self.key_view()),
                i == 0 ==> out@.len() == 0,
                i > 0 ==> out@ == acl_text(key@, es.take(i as int)),
            decreases self.acl@.len() - i,
        {
            let action = self.acl[i].0;
            let value = self.acl[i].1.render();
            let op: Vec<u8> = match action {
                AclAction::Allow => if i == 0 {
                    vec![61u8]
                } else {
                    vec![43u8, 61]
                },
                AclAction::Deny => vec![45u8, 61],
            };
            proof {
                assert(es.take(i + 1).last() == (action, value@));
                if i > 0 {
                    assert(es.take(i + 1).drop_last() =~= es.take(i as int));
                }
                assert(op@ =~= acl_op(action, i == 0));
            }
            push_entry_line(&mut out, 0, key, op.as_slice(), value.as_slice());
            proof {
                if i == 0 {
                    assert(es.take(1).len() == 1);
                    assert(es.take(1)[0] == (action, value@));
                    assert(out@ =~= acl_text(key@, es.take(1)));
                } else {
                    assert(out@ =~= acl_text(key@, es.take(i + 1)));
                }
            }
            i = i + 1;
        }
        proof {
            assert(es.take(self.acl@.len() as int) =~= es);
        }
        out
    }
}

/// No entry for `v` is left once they are dropped.
pub proof fn lemma_without_value_drops<V>(s: Seq<(AclAction, V)>, v: V)
    ensures
        forall|i: int| 0 <= i < without_value(s, v).len() ==> #[trigger] without_value(s, v)[i].1 != v,
    decreases s.len(),
{
    if s.len() > 0 {
        lemma_without_value_drops(s.drop_last(), v);
        let r = without_value(s.drop_last(), v);
        if s.last().1 != v {
            assert forall|i: int| 0 <= i < r.push(s.last()).len() implies #[trigger] r.push(
                s.last(),
            )[i].1 != v by {
                if i < r.len() {
                    assert(r.push(s.last())[i] == r[i]);
                }
            }
        }
    }
}

/// After a value is added to or removed from an access control list, exactly
/// one entry is for that value: the last one, marked as the operation says.
pub proof fn lemma_last_action_wins<V>(m: AclModel<V>, v: V, remove: bool)
    ensures
        ({
            let after = acl_step(m, if remove { OpView::Remove(v) } else { OpView::Add(v) });
            &&& after.acl.last() == (if remove { AclAction::Deny } else { AclAction::Allow }, v)
            &&& forall|i: int| 0 <= i < after.acl.len() - 1 ==> #[trigger] after.acl[i].1 != v
        }),
{
    lemma_without_value_drops(m.acl, v);
    let w = without_value(m.acl, v);
    let act = if remove { AclAction::Deny } else { AclAction::Allow };
    assert forall|i: int| 0 <= i < w.push((act, v)).len() - 1 implies #[trigger] w.push((act, v))[i].1
        != v by {
        assert(w.push((act, v))[i] == w[i]);
    }
}

/// A access control list changed by any operations, replayed onto a new access control list made with
/// the same default (nothing applied to it yet), leaves that access control list with the
/// state and the record of the first.
pub proof fn lemma_replay_onto_new_acl<T: ?Sized + ICval>(x: ConfigAcl<T>, y: ConfigAcl<T>)
    requires
        x.wf(),
        y.wf(),
        y.model() == y.fresh_model(),
        y.history_view() == Seq::<OpView<<T::Repr as View>::V>>::empty(),
        y.model().default == x.model().default,
    ensures
        crate::collections::replay_ops::<T, ConfigAcl<T>>(y.model(), x.history_view()) == x.model(),
        crate::collections::record_all(y.history_view(), x.history_view()) == x.history_view(),
{
    assert(y.fresh_model() == x.fresh_model());
    crate::collections::lemma_replay_onto_fresh::<T, ConfigAcl<T>>(x, y);
}

/// An access control list that holds an entry has a value defined, so
/// assigning a value only where none is defined (`key := value;`) leaves it
/// exactly as it was: its entries, in order, and whether it holds its
/// default. Only an empty list takes the value, as its one allowed entry.
pub proof fn lemma_acl_assign_if_undefined<T: ?Sized + ICval>(c: ConfigAcl<T>, v: <T::Repr as View>::V)
    requires
        c.wf(),
    ensures
        c.model().acl.len() > 0 ==> <ConfigAcl<T> as ConfigCollection<T>>::step(
            c.model(),
            OpView::AssignIfUndefined(v),
        ) == c.model(),
        c.model().acl.len() == 0 ==> <ConfigAcl<T> as ConfigCollection<T>>::step(
            c.model(),
            OpView::AssignIfUndefined(v),
        ).acl == seq![(AclAction::Allow, v)],
{
}

/// Assigning a value (`key = value;`) leaves that value as the one entry of
/// an access control list, allowed, whatever it held before; adding or
/// removing a value leaves it as the last entry, allowed or denied, with no
/// other entry for it.
pub proof fn lemma_acl_assign_add_remove<T: ?Sized + ICval>(c: ConfigAcl<T>, v: <T::Repr as View>::V)
    requires
        c.wf(),
    ensures
        <ConfigAcl<T> as ConfigCollection<T>>::step(c.model(), OpView::Assign(v)).acl == seq![
            (AclAction::Allow, v),
        ],
        ({
            let a = <ConfigAcl<T> as ConfigCollection<T>>::step(c.model(), OpView::Add(v)).acl;
            a.len() > 0 && a.last() == (AclAction::Allow, v) && forall|i: int|
                0 <= i < a.len() - 1 ==> (#[trigger] a[i]).1 != v
        }),
        ({
            let a = <ConfigAcl<T> as ConfigCollection<T>>::step(c.model(), OpView::Remove(v)).acl;
            a.len() > 0 && a.last() == (AclAction::Deny, v) && forall|i: int|
                0 <= i < a.len() - 1 ==> (#[trigger] a[i]).1 != v
        }),
{
    lemma_without_value_drops(c.model().acl, v);
}

} // verus!
