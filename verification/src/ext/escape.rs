//! Backslash unescaping: `\x` stands for the byte `x`, whatever it is; a lone
//! backslash at the very end stands for itself.
use vstd::prelude::*;

verus! {

pub const BACKSLASH: u8 = 92;

/// The bytes that `s` stands for once its backslash escapes are resolved.
pub open spec fn unescape(s: Seq<u8>) -> Seq<u8>
    decreases s.len(),
{
    if s.len() == 0 {
        seq![]
    } else if s[0] == BACKSLASH && s.len() >= 2 {
        seq![s[1]] + unescape(s.subrange(2, s.len() as int))
    } else {
        seq![s[0]] + unescape(s.drop_first())
    }
}

/// Every byte of `s` preceded by a backslash.
pub open spec fn escape_all(s: Seq<u8>) -> Seq<u8>
    decreases s.len(),
{
    if s.len() == 0 {
        seq![]
    } else {
        seq![BACKSLASH, s[0]] + escape_all(s.drop_first())
    }
}

/// Law: resolving escapes undoes escaping every byte, so any byte string can
/// be written as an escaped value.
pub proof fn lemma_unescape_escape_all(s: Seq<u8>)
    ensures unescape(escape_all(s)) == s,
    decreases s.len(),
{
    if s.len() > 0 {
        lemma_unescape_escape_all(s.drop_first());
        let e = escape_all(s);
        assert(e.subrange(2, e.len() as int) =~= escape_all(s.drop_first()));
        assert(seq![s[0]] + s.drop_first() =~= s);
    }
}

/// Law: a byte string without backslashes is its own unescaped form.
pub proof fn lemma_unescape_plain(s: Seq<u8>)
    requires forall|i: int| 0 <= i < s.len() ==> s[i] != BACKSLASH,
    ensures unescape(s) == s,
    decreases s.len(),
{
    if s.len() > 0 {
        lemma_unescape_plain(s.drop_first());
        assert(seq![s[0]] + s.drop_first() =~= s);
    }
}

/// An unescaping reader over a byte string: each call of `next` yields the
/// next unescaped byte.
#[derive(Debug, Clone)]
pub struct UnescapeBytes {
    bytes: Vec<u8>,
    pos: usize,
}

impl UnescapeBytes {
    /// The input that is still to be read.
    pub closed spec fn remaining(&self) -> Seq<u8> {
        self.bytes@.subrange(self.pos as int, self.bytes@.len() as int)
    }

    pub closed spec fn wf(&self) -> bool {
        self.pos <= self.bytes@.len()
    }

    pub fn new(escaped_string: Vec<u8>) -> (res: Self)
        ensures
            res.wf(),
            res.remaining() == escaped_string@,
    {
        proof {
            assert(escaped_string@.subrange(0, escaped_string@.len() as int) =~= escaped_string@);
        }
        UnescapeBytes { bytes: escaped_string, pos: 0 }
    }

    /// The next unescaped byte; the bytes yielded, followed by the unescaped
    /// form of what remains, always make up the unescaped form of the input.
    pub fn next(&mut self) -> (res: Option<u8>)
        requires old(self).wf(),
        ensures
            final(self).wf(),
            old(self).remaining().len() == 0 ==> res is None && final(self).remaining().len() == 0,
            old(self).remaining().len() > 0 ==> res is Some && unescape(old(self).remaining())
                == seq![res.unwrap()] + unescape(final(self).remaining())
                && final(self).remaining().len() < old(self).remaining().len(),
    {
        let len = self.bytes.len();
        if self.pos >= len {
            return None;
        }
        let ghost r = self.remaining();
        let byte = self.bytes[self.pos];
        if byte == BACKSLASH && len - self.pos >= 2 {
            let next = self.bytes[self.pos + 1];
            self.pos = self.pos + 2;
            proof {
                assert(r.subrange(2, r.len() as int) =~= self.remaining());
            }
            Some(next)
        } else {
            self.pos = self.pos + 1;
            proof {
                assert(r.drop_first() =~= self.remaining());
            }
            Some(byte)
        }
    }

    /// Reads all remaining bytes.
    pub fn collect_bytes(&mut self) -> (res: Vec<u8>)
        requires old(self).wf(),
        ensures
            res@ == unescape(old(self).remaining()),
            final(self).wf(),
            final(self).remaining().len() == 0,
    {
        let mut out: Vec<u8> = Vec::new();
        loop
            invariant
                self.wf(),
                unescape(old(self).remaining()) == out@ + unescape(self.remaining()),
            decreases self.remaining().len(),
        {
            match self.next() {
                Some(b) => {
                    proof {
                        assert(out@.push(b) + unescape(self.remaining()) =~= out@ + (seq![b]
                            + unescape(self.remaining())));
                    }
                    out.push(b);
                },
                None => {
                    assert(out@ + unescape(self.remaining()) =~= out@);
                    return out;
                },
            }
        }
    }
}

/// Byte strings that can be read with their escapes resolved.
pub trait IterEscaped: Sized {
    spec fn escaped_bytes(&self) -> Seq<u8>;

    fn unescaped(self) -> (res: UnescapeBytes)
        ensures
            res.wf(),
            res.remaining() == self.escaped_bytes(),
    ;
}

impl IterEscaped for Vec<u8> {
    open spec fn escaped_bytes(&self) -> Seq<u8> {
        self@
    }

    fn unescaped(self) -> (res: UnescapeBytes) {
        UnescapeBytes::new(self)
    }
}

/// The unescaped form of `bytes`.
pub fn unescape_bytes(bytes: &[u8]) -> (res: Vec<u8>)
    ensures res@ == unescape(bytes@),
{
    let mut v: Vec<u8> = Vec::new();
    let mut i: usize = 0;
    let len: usize = bytes.len();
    while i < len
        invariant
            i <= len,
            len == bytes@.len(),
            v@ == bytes@.subrange(0, i as int),
        decreases len - i,
    {
        v.push(bytes[i]);
        proof {
            assert(v@ =~= bytes@.subrange(0, i + 1));
        }
        i = i + 1;
    }
    proof {
        assert(v@ =~= bytes@);
    }
    let mut reader = UnescapeBytes::new(v);
    reader.collect_bytes()
}

} // verus!
