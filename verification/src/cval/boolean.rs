//! Boolean values: `true`, `enable`, `yes`, `t`, `y` and `false`, `disable`,
//! `no`, `f`, `n`, in any ASCII case.
use vstd::prelude::*;

use crate::cval::ICval;
use crate::errors::{ConfigParseEntryError, ReprParseConfigEntryError};

verus! {

/// The ASCII lower-case form of a byte.
pub open spec fn ascii_lower(b: u8) -> u8 {
    if 65 <= b <= 90 { (b + 32) as u8 } else { b }
}

/// `a` and `b` are equal when ASCII letters are compared without case.
pub open spec fn eq_ignore_ascii_case(a: Seq<u8>, b: Seq<u8>) -> bool {
    a.len() == b.len() && forall|i: int| 0 <= i < a.len() ==> ascii_lower(a[i]) == ascii_lower(b[i])
}

pub open spec fn is_true_word(s: Seq<u8>) -> bool {
    ||| eq_ignore_ascii_case(s, seq![116u8, 114, 117, 101])
    ||| eq_ignore_ascii_case(s, seq![101u8, 110, 97, 98, 108, 101])
    ||| eq_ignore_ascii_case(s, seq![121u8, 101, 115])
    ||| eq_ignore_ascii_case(s, seq![116u8])
    ||| eq_ignore_ascii_case(s, seq![121u8])
}

pub open spec fn is_false_word(s: Seq<u8>) -> bool {
    ||| eq_ignore_ascii_case(s, seq![102u8, 97, 108, 115, 101])
    ||| eq_ignore_ascii_case(s, seq![100u8, 105, 115, 97, 98, 108, 101])
    ||| eq_ignore_ascii_case(s, seq![110u8, 111])
    ||| eq_ignore_ascii_case(s, seq![102u8])
    ||| eq_ignore_ascii_case(s, seq![110u8])
}

fn exec_ascii_lower(b: u8) -> (res: u8)
    ensures res == ascii_lower(b),
{
    if 65 <= b && b <= 90 { b + 32 } else { b }
}

/// Whether `a` and `b` are equal when ASCII letters are compared without case.
pub fn bytes_eq_ignore_ascii_case(a: &[u8], b: &[u8]) -> (res: bool)
    ensures res == eq_ignore_ascii_case(a@, b@),
{
    if a.len() != b.len() {
        return false;
    }
    let mut i: usize = 0;
    while i < a.len()
        invariant
            a@.len() == b@.len(),
            i <= a@.len(),
            forall|j: int| 0 <= j < i ==> ascii_lower(a@[j]) == ascii_lower(b@[j]),
        decreases a@.len() - i,
    {
        if exec_ascii_lower(a[i]) != exec_ascii_lower(b[i]) {
            return false;
        }
        i = i + 1;
    }
    true
}

impl ICval for bool {
    type Repr = bool;

    open spec fn parses_to(bytes: Seq<u8>) -> Option<bool> {
        if is_true_word(bytes) {
            Some(true)
        } else if is_false_word(bytes) {
            Some(false)
        } else {
            None
        }
    }

    open spec fn refused_with(bytes: Seq<u8>, e: ConfigParseEntryError) -> bool {
        e == ConfigParseEntryError(ReprParseConfigEntryError::ParseBoolean)
    }

    fn parse_bytes(bytes: Vec<u8>) -> (res: Result<bool, ConfigParseEntryError>)
        ensures
            res is Err ==> res == Err::<bool, ConfigParseEntryError>(
                ConfigParseEntryError(ReprParseConfigEntryError::ParseBoolean),
            ),
    {
        let b = bytes.as_slice();
        let t1: [u8; 4] = [116u8, 114, 117, 101];
        let t2: [u8; 6] = [101u8, 110, 97, 98, 108, 101];
        let t3: [u8; 3] = [121u8, 101, 115];
        let t4: [u8; 1] = [116u8];
        let t5: [u8; 1] = [121u8];
        let f1: [u8; 5] = [102u8, 97, 108, 115, 101];
        let f2: [u8; 7] = [100u8, 105, 115, 97, 98, 108, 101];
        let f3: [u8; 2] = [110u8, 111];
        let f4: [u8; 1] = [102u8];
        let f5: [u8; 1] = [110u8];
        proof {
            assert(t1@ =~= seq![116u8, 114, 117, 101]);
            assert(t2@ =~= seq![101u8, 110, 97, 98, 108, 101]);
            assert(t3@ =~= seq![121u8, 101, 115]);
            assert(t4@ =~= seq![116u8]);
            assert(t5@ =~= seq![121u8]);
            assert(f1@ =~= seq![102u8, 97, 108, 115, 101]);
            assert(f2@ =~= seq![100u8, 105, 115, 97, 98, 108, 101]);
            assert(f3@ =~= seq![110u8, 111]);
            assert(f4@ =~= seq![102u8]);
            assert(f5@ =~= seq![110u8]);
        }
        if bytes_eq_ignore_ascii_case(b, t1.as_slice()) || bytes_eq_ignore_ascii_case(b, t2.as_slice())
            || bytes_eq_ignore_ascii_case(b, t3.as_slice()) || bytes_eq_ignore_ascii_case(b, t4.as_slice())
            || bytes_eq_ignore_ascii_case(b, t5.as_slice()) {
            Ok(true)
        } else if bytes_eq_ignore_ascii_case(b, f1.as_slice()) || bytes_eq_ignore_ascii_case(
            b,
            f2.as_slice(),
        ) || bytes_eq_ignore_ascii_case(b, f3.as_slice()) || bytes_eq_ignore_ascii_case(
            b,
            f4.as_slice(),
        ) || bytes_eq_ignore_ascii_case(b, f5.as_slice()) {
            Ok(false)
        } else {
            Err(ConfigParseEntryError(ReprParseConfigEntryError::ParseBoolean))
        }
    }

    fn repr_eq(a: &bool, b: &bool) -> (res: bool) {
        *a == *b
    }

    fn repr_clone(a: &bool) -> (res: bool) {
        *a
    }

    open spec fn default_view() -> bool {
        false
    }

    fn default_repr() -> (res: bool) {
        false
    }

    open spec fn render_spec(v: bool) -> Seq<u8> {
        if v { seq![116u8, 114, 117, 101] } else { seq![102u8, 97, 108, 115, 101] }
    }

    fn render(a: &bool) -> (res: Vec<u8>) {
        if *a {
            let v: Vec<u8> = vec![116u8, 114, 117, 101];
            proof {
                assert(v@ =~= seq![116u8, 114, 117, 101]);
            }
            v
        } else {
            let v: Vec<u8> = vec![102u8, 97, 108, 115, 101];
            proof {
                assert(v@ =~= seq![102u8, 97, 108, 115, 101]);
            }
            v
        }
    }
}

} // verus!
