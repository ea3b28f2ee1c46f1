//! Configuration collections: a single value, a list, a set and an access
//! control list. Each records the operations applied to it since the last
//! one that overwrote it (an assignment, a reset or a clear), so that another
//! collection can replay them.
use vstd::prelude::*;

use crate::cval::{Cval, ICval};
use crate::ext::text::{push_all, repeat, repeat_byte};
use crate::fmt::ConfigFmt;
use crate::errors::ConfigParseEntryError;
use crate::key::Key;
use crate::parse::ast::{op_value, AstOp, AstOperation};
use crate::parse::RawOperation;

pub mod acl;
pub mod list;
pub mod set;
pub mod value;

verus! {

/// An operation on a configuration collection.
pub enum Operation<T: ?Sized + ICval> {
    Assign(Cval<T>),
    AssignIfUndefined(Cval<T>),
    Add(Cval<T>),
    Remove(Cval<T>),
    Reset,
    Clear,
}

/// An operation, with its value taken by its view.
pub enum OpView<V> {
    Assign(V),
    AssignIfUndefined(V),
    Add(V),
    Remove(V),
    Reset,
    Clear,
}

impl<T: ?Sized + ICval> View for Operation<T> {
    type V = OpView<<T::Repr as View>::V>;

    open spec fn view(&self) -> OpView<<T::Repr as View>::V> {
        match self {
            Operation::Assign(v) => OpView::Assign(v@),
            Operation::AssignIfUndefined(v) => OpView::AssignIfUndefined(v@),
            Operation::Add(v) => OpView::Add(v@),
            Operation::Remove(v) => OpView::Remove(v@),
            Operation::Reset => OpView::Reset,
            Operation::Clear => OpView::Clear,
        }
    }
}

impl<T: ?Sized + ICval> Operation<T> {
    /// A copy of this operation.
    pub fn duplicate(&self) -> (res: Self)
        ensures
            res@ == self@,
    {
        match self {
            Operation::Assign(v) => Operation::Assign(v.duplicate()),
            Operation::AssignIfUndefined(v) => Operation::AssignIfUndefined(v.duplicate()),
            Operation::Add(v) => Operation::Add(v.duplicate()),
            Operation::Remove(v) => Operation::Remove(v.duplicate()),
            Operation::Reset => Operation::Reset,
            Operation::Clear => Operation::Clear,
        }
    }
}

/// The views of a sequence of operations.
pub open spec fn ops_view<T: ?Sized + ICval>(ops: Seq<Operation<T>>) -> Seq<
    OpView<<T::Repr as View>::V>,
> {
    ops.map_values(|op: Operation<T>| op@)
}

/// Operations that overwrite whatever came before them.
pub open spec fn is_overwrite<V>(op: OpView<V>) -> bool {
    op is Assign || op is Reset || op is Clear
}

/// The recorded operations after `op` is applied: an overwriting operation
/// starts the record afresh, any other is appended.
pub open spec fn record<V>(history: Seq<OpView<V>>, op: OpView<V>) -> Seq<OpView<V>> {
    if is_overwrite(op) {
        seq![op]
    } else {
        history.push(op)
    }
}

/// The record after each of `ops` is applied in turn.
pub open spec fn record_all<V>(history: Seq<OpView<V>>, ops: Seq<OpView<V>>) -> Seq<OpView<V>>
    decreases ops.len(),
{
    if ops.len() == 0 {
        history
    } else {
        record(record_all(history, ops.drop_last()), ops.last())
    }
}

/// Only the first recorded operation may be an overwriting one.
pub open spec fn normalized<V>(history: Seq<OpView<V>>) -> bool {
    forall|i: int| 0 < i < history.len() ==> !is_overwrite(#[trigger] history[i])
}

/// Recording keeps a record normalized.
pub proof fn lemma_record_normalized<V>(history: Seq<OpView<V>>, op: OpView<V>)
    requires
        normalized(history),
    ensures
        normalized(record(history, op)),
{
    if !is_overwrite(op) {
        assert forall|i: int| 0 < i < record(history, op).len() implies !is_overwrite(
            #[trigger] record(history, op)[i],
        ) by {
            if i < history.len() {
                assert(record(history, op)[i] == history[i]);
            }
        }
    }
}

/// Recording a normalized record onto an empty one reproduces it.
pub proof fn lemma_record_all_fresh<V>(ops: Seq<OpView<V>>)
    requires
        normalized(ops),
    ensures
        record_all(Seq::<OpView<V>>::empty(), ops) == ops,
    decreases ops.len(),
{
    if ops.len() > 0 {
        let init = ops.drop_last();
        assert(normalized(init)) by {
            assert forall|i: int| 0 < i < init.len() implies !is_overwrite(#[trigger] init[i]) by {
                assert(init[i] == ops[i]);
            }
        }
        lemma_record_all_fresh(init);
        if is_overwrite(ops.last()) {
            assert(ops.len() == 1);
            assert(ops =~= seq![ops.last()]);
        } else {
            assert(ops =~= init.push(ops.last()));
        }
    }
}

/// The operations recorded for a collection.
pub struct History<T: ?Sized + ICval> {
    history: Vec<Operation<T>>,
}

impl<T: ?Sized + ICval> View for History<T> {
    type V = Seq<OpView<<T::Repr as View>::V>>;

    closed spec fn view(&self) -> Seq<OpView<<T::Repr as View>::V>> {
        ops_view(self.history@)
    }
}

impl<T: ?Sized + ICval> History<T> {
    pub fn new() -> (res: Self)
        ensures
            res@ == Seq::<OpView<<T::Repr as View>::V>>::empty(),
    {
        let res = History { history: Vec::new() };
        proof {
            assert(res@ =~= Seq::<OpView<<T::Repr as View>::V>>::empty());
        }
        res
    }

    fn restart(&mut self, op: Operation<T>)
        ensures
            final(self)@ == seq![op@],
    {
        self.history.clear();
        self.history.push(op);
        proof {
            assert(final(self)@ =~= seq![op@]);
        }
    }

    fn append(&mut self, op: Operation<T>)
        ensures
            final(self)@ == old(self)@.push(op@),
    {
        self.history.push(op);
        proof {
            assert(final(self)@ =~= old(self)@.push(op@));
        }
    }

    pub fn assign(&mut self, value: Cval<T>)
        ensures
            final(self)@ == record(old(self)@, OpView::Assign(value@)),
    {
        self.restart(Operation::Assign(value));
    }

    pub fn assign_if_undefined(&mut self, value: Cval<T>)
        ensures
            final(self)@ == record(old(self)@, OpView::AssignIfUndefined(value@)),
    {
        self.append(Operation::AssignIfUndefined(value));
    }

    pub fn add(&mut self, value: Cval<T>)
        ensures
            final(self)@ == record(old(self)@, OpView::Add(value@)),
    {
        self.append(Operation::Add(value));
    }

    pub fn remove(&mut self, value: Cval<T>)
        ensures
            final(self)@ == record(old(self)@, OpView::Remove(value@)),
    {
        self.append(Operation::Remove(value));
    }

    pub fn reset(&mut self)
        ensures
            final(self)@ == record(old(self)@, OpView::<<T::Repr as View>::V>::Reset),
    {
        self.restart(Operation::Reset);
    }

    pub fn clear(&mut self)
        ensures
            final(self)@ == record(old(self)@, OpView::<<T::Repr as View>::V>::Clear),
    {
        self.restart(Operation::Clear);
    }

    /// The recorded operations, oldest first.
    pub fn history(&self) -> (res: &Vec<Operation<T>>)
        ensures
            ops_view(res@) == self@,
    {
        &self.history
    }

    /// A copy of this record.
    pub fn duplicate(&self) -> (res: Self)
        ensures
            res@ == self@,
    {
        let mut out: Vec<Operation<T>> = Vec::new();
        let mut i: usize = 0;
        while i < self.history.len()
            invariant
                i <= self.history@.len(),
                ops_view(out@) == ops_view(self.history@).take(i as int),
            decreases self.history@.len() - i,
        {
            let op = self.history[i].duplicate();
            let ghost before = ops_view(out@);
            out.push(op);
            proof {
                assert(ops_view(out@) =~= before.push(op@));
                assert(ops_view(self.history@).take(i + 1) =~= ops_view(self.history@).take(
                    i as int,
                ).push(self.history@[i as int]@));
            }
            i = i + 1;
        }
        let res = History { history: out };
        proof {
            assert(ops_view(self.history@).take(self.history@.len() as int) =~= ops_view(
                self.history@,
            ));
        }
        res
    }
}

/// The state every collection shares: its key, the record of operations and
/// whether it holds its default.
pub struct ConfigHeader<T: ?Sized + ICval> {
    key: Key,
    history: History<T>,
    is_default: bool,
}

impl<T: ?Sized + ICval> ConfigHeader<T> {
    pub closed spec fn key_view(&self) -> Seq<u8> {
        self.key@
    }

    pub closed spec fn history_view(&self) -> Seq<OpView<<T::Repr as View>::V>> {
        self.history@
    }

    pub closed spec fn default_flag(&self) -> bool {
        self.is_default
    }

    pub fn new(key: Key) -> (res: Self)
        ensures
            res.key_view() == key@,
            res.history_view() == Seq::<OpView<<T::Repr as View>::V>>::empty(),
            res.default_flag(),
    {
        ConfigHeader { key, history: History::new(), is_default: true }
    }

    pub fn key(&self) -> (res: &Key)
        ensures
            res@ == self.key_view(),
    {
        &self.key
    }

    pub fn history(&self) -> (res: &History<T>)
        ensures
            res@ == self.history_view(),
    {
        &self.history
    }

    pub fn history_mut(&mut self) -> (res: &mut History<T>)
        ensures
            res@ == old(self).history_view(),
            final(self).history_view() == final(res)@,
            final(self).key_view() == old(self).key_view(),
            final(self).default_flag() == old(self).default_flag(),
    {
        &mut self.history
    }

    pub fn set_default(&mut self)
        ensures
            final(self).default_flag(),
            final(self).key_view() == old(self).key_view(),
            final(self).history_view() == old(self).history_view(),
    {
        self.is_default = true;
    }

    pub fn set_modified(&mut self)
        ensures
            !final(self).default_flag(),
            final(self).key_view() == old(self).key_view(),
            final(self).history_view() == old(self).history_view(),
    {
        self.is_default = false;
    }

    pub fn is_default(&self) -> (res: bool)
        ensures
            res == self.default_flag(),
    {
        self.is_default
    }

    /// Records `op` and nothing else.
    pub fn record(&mut self, op: Operation<T>)
        ensures
            final(self).history_view() == record(old(self).history_view(), op@),
            final(self).key_view() == old(self).key_view(),
            final(self).default_flag() == old(self).default_flag(),
    {
        match op {
            Operation::Assign(v) => self.history.assign(v),
            Operation::AssignIfUndefined(v) => self.history.assign_if_undefined(v),
            Operation::Add(v) => self.history.add(v),
            Operation::Remove(v) => self.history.remove(v),
            Operation::Reset => self.history.reset(),
            Operation::Clear => self.history.clear(),
        }
    }

    /// A copy of this header.
    pub fn duplicate(&self) -> (res: Self)
        ensures
            res.key_view() == self.key_view(),
            res.history_view() == self.history_view(),
            res.default_flag() == self.default_flag(),
    {
        ConfigHeader {
            key: self.key.duplicate(),
            history: self.history.duplicate(),
            is_default: self.is_default,
        }
    }
}

/// A collection of configuration values that operations are applied to.
///
/// `Model` is the collection's state as mathematics: what it holds, what it
/// was made with and whether it holds its default. `step` is what one
/// operation does to that state.
pub trait ConfigCollection<T: ?Sized + ICval>: Sized {
    type Model;

    spec fn wf(&self) -> bool;

    spec fn model(&self) -> Self::Model;

    /// The state of a new collection made like this one.
    spec fn fresh_model(&self) -> Self::Model;

    /// The operations recorded since the last overwriting one.
    spec fn history_view(&self) -> Seq<OpView<<T::Repr as View>::V>>;

    spec fn step(m: Self::Model, op: OpView<<T::Repr as View>::V>) -> Self::Model;

    spec fn model_defined(m: Self::Model) -> bool;

    spec fn model_is_default(m: Self::Model) -> bool;

    /// A well-formed collection is what its record, replayed onto a new
    /// collection made like it, gives; and only the first recorded operation
    /// overwrites.
    proof fn lemma_wf(&self)
        requires
            self.wf(),
        ensures
            replay_with(
                |m: Self::Model, op: OpView<<T::Repr as View>::V>| Self::step(m, op),
                self.fresh_model(),
                self.history_view(),
            ) == self.model(),
            normalized(self.history_view()),
    ;

    fn assign(&mut self, value: Cval<T>)
        requires
            old(self).wf(),
        ensures
            final(self).wf(),
            final(self).fresh_model() == old(self).fresh_model(),
            final(self).model() == Self::step(old(self).model(), OpView::Assign(value@)),
            final(self).history_view() == record(old(self).history_view(), OpView::Assign(value@)),
    ;

    fn assign_if_undefined(&mut self, value: Cval<T>)
        requires
            old(self).wf(),
        ensures
            final(self).wf(),
            final(self).fresh_model() == old(self).fresh_model(),
            final(self).model() == Self::step(
                old(self).model(),
                OpView::AssignIfUndefined(value@),
            ),
            final(self).history_view() == record(
                old(self).history_view(),
                OpView::AssignIfUndefined(value@),
            ),
    ;

    fn add(&mut self, value: Cval<T>)
        requires
            old(self).wf(),
        ensures
            final(self).wf(),
            final(self).fresh_model() == old(self).fresh_model(),
            final(self).model() == Self::step(old(self).model(), OpView::Add(value@)),
            final(self).history_view() == record(old(self).history_view(), OpView::Add(value@)),
    ;

    fn remove(&mut self, value: Cval<T>)
        requires
            old(self).wf(),
        ensures
            final(self).wf(),
            final(self).fresh_model() == old(self).fresh_model(),
            final(self).model() == Self::step(old(self).model(), OpView::Remove(value@)),
            final(self).history_view() == record(old(self).history_view(), OpView::Remove(value@)),
    ;

    fn reset(&mut self)
        requires
            old(self).wf(),
        ensures
            final(self).wf(),
            final(self).fresh_model() == old(self).fresh_model(),
            final(self).model() == Self::step(
                old(self).model(),
                OpView::<<T::Repr as View>::V>::Reset,
            ),
            final(self).history_view() == record(
                old(self).history_view(),
                OpView::<<T::Repr as View>::V>::Reset,
            ),
    ;

    fn clear(&mut self)
        requires
            old(self).wf(),
        ensures
            final(self).wf(),
            final(self).fresh_model() == old(self).fresh_model(),
            final(self).model() == Self::step(
                old(self).model(),
                OpView::<<T::Repr as View>::V>::Clear,
            ),
            final(self).history_view() == record(
                old(self).history_view(),
                OpView::<<T::Repr as View>::V>::Clear,
            ),
    ;

    /// Whether the collection holds its default, that is whether nothing has
    /// changed it since it was made or last reset.
    fn is_default(&self) -> (res: bool)
        requires
            self.wf(),
        ensures
            res == Self::model_is_default(self.model()),
    ;

    /// Whether the collection holds a value.
    fn is_defined(&self) -> (res: bool)
        requires
            self.wf(),
        ensures
            res == Self::model_defined(self.model()),
    ;

    /// The recorded operations, oldest first.
    fn history(&self) -> (res: &Vec<Operation<T>>)
        requires
            self.wf(),
        ensures
            ops_view(res@) == self.history_view(),
    ;

    /// The text the collection is written as, indented by `indent` spaces.
    spec fn text(&self, indent: nat) -> Seq<u8>;

    /// Writes the collection out as configuration text.
    fn display(&self, fmt: &ConfigFmt) -> (res: Vec<u8>)
        requires
            self.wf(),
        ensures
            res@ == self.text(fmt.indent_spec() as nat),
    ;
}

pub open spec fn op_assign_text() -> Seq<u8> {
    seq![61u8]
}

pub open spec fn op_add_text() -> Seq<u8> {
    seq![43u8, 61]
}

pub open spec fn op_remove_text() -> Seq<u8> {
    seq![45u8, 61]
}

pub open spec fn op_clear_text() -> Seq<u8> {
    seq![33u8, 33]
}

/// `key op value;`, indented by `indent` spaces.
pub open spec fn entry_line(indent: nat, key: Seq<u8>, op: Seq<u8>, value: Seq<u8>) -> Seq<u8> {
    repeat_byte(32u8, indent) + key + seq![32u8] + op + seq![32u8] + value + seq![59u8]
}

/// `key !!;`, indented by `indent` spaces.
pub open spec fn clear_line(indent: nat, key: Seq<u8>) -> Seq<u8> {
    repeat_byte(32u8, indent) + key + seq![32u8] + op_clear_text() + seq![59u8]
}

/// The lines that give a list its values: the first assigned, each other
/// added, one per line; a clearing line for no values.
pub open spec fn list_text(indent: nat, key: Seq<u8>, values: Seq<Seq<u8>>) -> Seq<u8>
    decreases values.len(),
{
    if values.len() == 0 {
        clear_line(indent, key)
    } else if values.len() == 1 {
        entry_line(indent, key, op_assign_text(), values[0])
    } else {
        list_text(indent, key, values.drop_last()) + seq![10u8] + entry_line(
            indent,
            key,
            op_add_text(),
            values.last(),
        )
    }
}

/// The texts of values.
pub open spec fn rendered<T: ?Sized + ICval>(values: Seq<<T::Repr as View>::V>) -> Seq<Seq<u8>> {
    values.map_values(|v: <T::Repr as View>::V| T::render_spec(v))
}

/// Appends `key op value;`, indented by `indent` spaces.
pub fn push_entry_line(out: &mut Vec<u8>, indent: usize, key: &[u8], op: &[u8], value: &[u8])
    ensures
        final(out)@ == old(out)@ + entry_line(indent as nat, key@, op@, value@),
{
    let spaces = repeat(32u8, indent);
    push_all(out, spaces.as_slice());
    push_all(out, key);
    out.push(32u8);
    push_all(out, op);
    out.push(32u8);
    push_all(out, value);
    out.push(59u8);
    proof {
        assert(final(out)@ =~= old(out)@ + entry_line(indent as nat, key@, op@, value@));
    }
}

/// Appends `key !!;`, indented by `indent` spaces.
pub fn push_clear_line(out: &mut Vec<u8>, indent: usize, key: &[u8])
    ensures
        final(out)@ == old(out)@ + clear_line(indent as nat, key@),
{
    let spaces = repeat(32u8, indent);
    push_all(out, spaces.as_slice());
    push_all(out, key);
    out.push(32u8);
    out.push(33u8);
    out.push(33u8);
    out.push(59u8);
    proof {
        assert(final(out)@ =~= old(out)@ + clear_line(indent as nat, key@));
    }
}

/// The lines that give a list the values `values`, indented by `indent`.
pub fn render_list<T: ?Sized + ICval>(indent: usize, key: &[u8], values: &Vec<Cval<T>>) -> (res: Vec<u8>)
    ensures
        res@ == list_text(indent as nat, key@, rendered::<T>(crate::collections::list::cvals_view(values@))),
{
    let ghost vs = rendered::<T>(crate::collections::list::cvals_view(values@));
    let mut out: Vec<u8> = Vec::new();
    if values.len() == 0 {
        push_clear_line(&mut out, indent, key);
        proof {
            assert(out@ =~= list_text(indent as nat, key@, vs));
        }
        return out;
    }
    let first = values[0].render();
    let assign: [u8; 1] = [61u8];
    let add: [u8; 2] = [43u8, 61];
    proof {
        assert(assign@ =~= op_assign_text());
        assert(add@ =~= op_add_text());
    }
    push_entry_line(&mut out, indent, key, assign.as_slice(), first.as_slice());
    let mut i: usize = 1;
    proof {
        assert(out@ =~= list_text(indent as nat, key@, vs.take(1)));
    }
    while i < values.len()
        invariant
            1 <= i <= values@.len(),
            vs == rendered::<T>(crate::collections::list::cvals_view(values@)),
            add@ == op_add_text(),
            out@ == list_text(indent as nat, key@, vs.take(i as int)),
        decreases values@.len() - i,
    {
        let v = values[i].render();
        out.push(10u8);
        push_entry_line(&mut out, indent, key, add.as_slice(), v.as_slice());
        proof {
            assert(vs.take(i + 1).drop_last() =~= vs.take(i as int));
            assert(vs.take(i + 1).last() == v@);
            assert(out@ =~= list_text(indent as nat, key@, vs.take(i + 1)));
        }
        i = i + 1;
    }
    proof {
        assert(vs.take(values@.len() as int) =~= vs);
    }
    out
}

/// The state after each of `ops` is applied in turn to state `m`, one
/// operation doing what `step` says.
pub open spec fn replay_with<M, V>(step: spec_fn(M, OpView<V>) -> M, m: M, ops: Seq<OpView<V>>) -> M
    decreases ops.len(),
{
    if ops.len() == 0 {
        m
    } else {
        step(replay_with(step, m, ops.drop_last()), ops.last())
    }
}

/// Replaying after one more recorded operation: an overwriting operation
/// starts from the initial state, any other from the state so far.
pub proof fn lemma_replay_with_record<M, V>(
    step: spec_fn(M, OpView<V>) -> M,
    m: M,
    h: Seq<OpView<V>>,
    op: OpView<V>,
)
    ensures
        replay_with(step, m, record(h, op)) == step(
            if is_overwrite(op) {
                m
            } else {
                replay_with(step, m, h)
            },
            op,
        ),
{
    if is_overwrite(op) {
        let one = seq![op];
        assert(one.drop_last() =~= Seq::<OpView<V>>::empty());
        assert(replay_with(step, m, one.drop_last()) == m);
        assert(one.last() == op);
        assert(record(h, op) == one);
    } else {
        assert(h.push(op).drop_last() =~= h);
        assert(record(h, op) == h.push(op));
    }
}

/// Two step functions that agree replay alike.
pub proof fn lemma_replay_with_agrees<M, V>(
    f: spec_fn(M, OpView<V>) -> M,
    g: spec_fn(M, OpView<V>) -> M,
    m: M,
    ops: Seq<OpView<V>>,
)
    requires
        forall|a: M, op: OpView<V>| #[trigger] f(a, op) == g(a, op),
    ensures
        replay_with(f, m, ops) == replay_with(g, m, ops),
    decreases ops.len(),
{
    if ops.len() > 0 {
        lemma_replay_with_agrees(f, g, m, ops.drop_last());
    }
}

/// The state of a collection of type `C` after each of `ops` is applied in
/// turn to state `m`.
pub open spec fn replay_ops<T: ?Sized + ICval, C: ConfigCollection<T>>(
    m: C::Model,
    ops: Seq<OpView<<T::Repr as View>::V>>,
) -> C::Model {
    replay_with(|m: C::Model, op: OpView<<T::Repr as View>::V>| C::step(m, op), m, ops)
}

/// The operation that an AST operation stands for, where its value parses.
pub open spec fn op_of_ast<T: ?Sized + ICval>(op: AstOp) -> Option<OpView<<T::Repr as View>::V>> {
    match op {
        AstOp::Assign(b) => match T::parses_to(b) {
            Some(v) => Some(OpView::Assign(v)),
            None => None,
        },
        AstOp::AssignIfUndefined(b) => match T::parses_to(b) {
            Some(v) => Some(OpView::AssignIfUndefined(v)),
            None => None,
        },
        AstOp::Add(b) => match T::parses_to(b) {
            Some(v) => Some(OpView::Add(v)),
            None => None,
        },
        AstOp::Remove(b) => match T::parses_to(b) {
            Some(v) => Some(OpView::Remove(v)),
            None => None,
        },
        AstOp::Reset => Some(OpView::Reset),
        AstOp::Clear => Some(OpView::Clear),
    }
}

/// What every collection can do with the operations it is handed.
pub trait ConfigCollectionExt<T: ?Sized + ICval>: ConfigCollection<T> {
    /// Applies one operation.
    fn apply(&mut self, event: Operation<T>)
        requires
            old(self).wf(),
        ensures
            final(self).wf(),
            final(self).fresh_model() == old(self).fresh_model(),
            final(self).model() == Self::step(old(self).model(), event@),
            final(self).history_view() == record(old(self).history_view(), event@),
    {
        match event {
            Operation::Assign(v) => self.assign(v),
            Operation::AssignIfUndefined(v) => self.assign_if_undefined(v),
            Operation::Add(v) => self.add(v),
            Operation::Remove(v) => self.remove(v),
            Operation::Reset => self.reset(),
            Operation::Clear => self.clear(),
        }
    }

    /// Applies the operations recorded by `other`, oldest first.
    fn replay(&mut self, other: &Self)
        requires
            old(self).wf(),
            other.wf(),
        ensures
            final(self).wf(),
            final(self).fresh_model() == old(self).fresh_model(),
            final(self).model() == replay_ops::<T, Self>(old(self).model(), other.history_view()),
            final(self).history_view() == record_all(
                old(self).history_view(),
                other.history_view(),
            ),
    {
        let ops = other.history();
        let ghost h = other.history_view();
        let mut i: usize = 0;
        while i < ops.len()
            invariant
                self.wf(),
                ops_view(ops@) == h,
                i <= ops@.len(),
                self.fresh_model() == old(self).fresh_model(),
                self.model() == replay_ops::<T, Self>(old(self).model(), h.take(i as int)),
                self.history_view() == record_all(old(self).history_view(), h.take(i as int)),
            decreases ops@.len() - i,
        {
            let op = ops[i].duplicate();
            proof {
                assert(h.take(i + 1).drop_last() =~= h.take(i as int));
                assert(h.take(i + 1).last() == op@);
            }
            self.apply(op);
            i = i + 1;
        }
        proof {
            assert(h.take(ops@.len() as int) =~= h);
        }
    }

    /// Applies the operation of an entry, reading its value as a `T`: `Ok`
    /// exactly when the value reads, and then the operation is applied;
    /// otherwise nothing changes.
    fn parse_entry(&mut self, key: Key, body: RawOperation) -> (res: Result<(), ConfigParseEntryError>)
        requires
            old(self).wf(),
        ensures
            final(self).wf(),
            final(self).fresh_model() == old(self).fresh_model(),
            res is Ok <==> op_of_ast::<T>(body.0@) is Some,
            op_of_ast::<T>(body.0@) matches Some(op) ==> final(self).model() == Self::step(
                old(self).model(),
                op,
            ) && final(self).history_view() == record(old(self).history_view(), op),
            op_of_ast::<T>(body.0@) is None ==> final(self).model() == old(self).model()
                && final(self).history_view() == old(self).history_view(),
            res matches Err(e) ==> (op_value(body.0@) matches Some(b) && T::refused_with(b, e)),
    {
        match body.0 {
            AstOperation::Assign(bytes) => match Cval::<T>::try_from_bytes(bytes) {
                Ok(v) => {
                    self.assign(v);
                    Ok(())
                },
                Err(e) => Err(e),
            },
            AstOperation::AssignIfUndefined(bytes) => match Cval::<T>::try_from_bytes(bytes) {
                Ok(v) => {
                    self.assign_if_undefined(v);
                    Ok(())
                },
                Err(e) => Err(e),
            },
            AstOperation::Add(bytes) => match Cval::<T>::try_from_bytes(bytes) {
                Ok(v) => {
                    self.add(v);
                    Ok(())
                },
                Err(e) => Err(e),
            },
            AstOperation::Remove(bytes) => match Cval::<T>::try_from_bytes(bytes) {
                Ok(v) => {
                    self.remove(v);
                    Ok(())
                },
                Err(e) => Err(e),
            },
            AstOperation::Reset => {
                self.reset();
                Ok(())
            },
            AstOperation::Clear => {
                self.clear();
                Ok(())
            },
        }
    }
}

impl<T: ?Sized + ICval, C: ConfigCollection<T>> ConfigCollectionExt<T> for C {

}

/// Replaying a collection's record onto a new collection made like it gives
/// the collection's state and its record.
pub proof fn lemma_replay_onto_fresh<T: ?Sized + ICval, C: ConfigCollection<T>>(c: C, fresh: C)
    requires
        c.wf(),
        fresh.wf(),
        fresh.model() == c.fresh_model(),
        fresh.history_view() == Seq::<OpView<<T::Repr as View>::V>>::empty(),
    ensures
        replay_ops::<T, C>(fresh.model(), c.history_view()) == c.model(),
        record_all(fresh.history_view(), c.history_view()) == c.history_view(),
{
    c.lemma_wf();
    lemma_record_all_fresh(c.history_view());
}

} // verus!
