//! Joining pieces of text with a separator between each two.
use vstd::prelude::*;

use crate::ext::text::push_all;

verus! {

/// The pieces `values` with `sep` between each two.
pub open spec fn join_spec(values: Seq<Seq<u8>>, sep: Seq<u8>) -> Seq<u8>
    decreases values.len(),
{
    if values.len() == 0 {
        Seq::empty()
    } else if values.len() == 1 {
        values[0]
    } else {
        join_spec(values.drop_last(), sep) + sep + values.last()
    }
}

pub open spec fn texts_view(values: Seq<Vec<u8>>) -> Seq<Seq<u8>> {
    values.map_values(|v: Vec<u8>| v@)
}

/// Pieces of text to be written with a separator between each two.
pub struct Join {
    values: Vec<Vec<u8>>,
    sep: Vec<u8>,
}

impl Join {
    pub closed spec fn pieces(&self) -> Seq<Seq<u8>> {
        texts_view(self.values@)
    }

    pub closed spec fn separator(&self) -> Seq<u8> {
        self.sep@
    }

    pub fn new(values: Vec<Vec<u8>>, separator: Vec<u8>) -> (res: Self)
        ensures
            res.pieces() == texts_view(values@),
            res.separator() == separator@,
    {
        Join { values, sep: separator }
    }

    /// The pieces with the separator between each two.
    pub fn render(&self) -> (res: Vec<u8>)
        ensures
            res@ == join_spec(self.pieces(), self.separator()),
    {
        let mut out: Vec<u8> = Vec::new();
        let mut i: usize = 0;
        let ghost vs = texts_view(self.values@);
        proof {
            assert(out@ =~= join_spec(vs.take(0), self.sep@));
        }
        while i < self.values.len()
            invariant
                i <= self.values@.len(),
                vs == texts_view(self.values@),
                out@ == join_spec(vs.take(i as int), self.sep@),
            decreases self.values@.len() - i,
        {
            proof {
                assert(vs.take(i + 1).drop_last() =~= vs.take(i as int));
                assert(vs.take(i + 1).last() == self.values@[i as int]@);
            }
            if i > 0 {
                push_all(&mut out, self.sep.as_slice());
            }
            push_all(&mut out, self.values[i].as_slice());
            proof {
                if i == 0 {
                    assert(vs.take(1)[0] == self.values@[0]@);
                    assert(out@ =~= join_spec(vs.take(1), self.sep@));
                }
            }
            i = i + 1;
        }
        proof {
            assert(vs.take(self.values@.len() as int) =~= vs);
        }
        out
    }
}

/// Sequences of text that can be joined.
pub trait IterJoin: Sized {
    spec fn texts(&self) -> Seq<Seq<u8>>;

    fn join(self, separator: Vec<u8>) -> (res: Join)
        ensures
            res.pieces() == self.texts(),
            res.separator() == separator@,
    ;
}

impl IterJoin for Vec<Vec<u8>> {
    open spec fn texts(&self) -> Seq<Seq<u8>> {
        texts_view(self@)
    }

    fn join(self, separator: Vec<u8>) -> (res: Join) {
        Join::new(self, separator)
    }
}

} // verus!
