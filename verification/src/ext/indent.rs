use vstd::prelude::*;

verus! {

/// An indentation level, counted in spaces. All arithmetic saturates at the
/// bounds of `usize`.
#[derive(Debug, Clone, Copy, Default, PartialEq, Eq, PartialOrd, Ord, Hash)]
pub struct Indent(pub usize);

/// `a + b`, saturated to the range of `usize`.
pub open spec fn saturating_add_spec(a: usize, b: usize) -> usize {
    if a + b > usize::MAX { usize::MAX } else { (a + b) as usize }
}

/// `a - b`, saturated at zero.
pub open spec fn saturating_sub_spec(a: usize, b: usize) -> usize {
    if a < b { 0 } else { (a - b) as usize }
}

/// `a / b`; division cannot overflow an unsigned integer.
pub open spec fn saturating_div_spec(a: usize, b: usize) -> usize {
    (a / b) as usize
}

/// `a * b`, saturated to the range of `usize`.
pub open spec fn saturating_mul_spec(a: usize, b: usize) -> usize {
    if a * b > usize::MAX { usize::MAX } else { (a * b) as usize }
}

/// `a * b`, saturated to the range of `usize`.
fn saturating_mul(a: usize, b: usize) -> (res: usize)
    ensures
        res == saturating_mul_spec(a, b),
{
    if b == 0 {
        0
    } else if a > usize::MAX / b {
        proof {
            assert(a * b > usize::MAX) by (nonlinear_arith)
                requires
                    b > 0,
                    a > usize::MAX / b,
            ;
        }
        usize::MAX
    } else {
        proof {
            assert(a * b <= usize::MAX) by (nonlinear_arith)
                requires
                    b > 0,
                    a <= usize::MAX / b,
            ;
        }
        a * b
    }
}

impl Indent {
    pub fn new(level: usize) -> (res: Self)
        ensures res.0 == level,
    {
        Indent(level)
    }

    /// The number of spaces of this indentation.
    pub fn level(&self) -> (res: usize)
        ensures res == self.0,
    {
        self.0
    }

    /// The spaces of this indentation.
    pub fn render(&self) -> (res: Vec<u8>)
        ensures
            res@ == crate::ext::text::repeat_byte(32u8, self.0 as nat),
    {
        crate::ext::text::repeat(32u8, self.0)
    }
}



impl core::ops::Add<usize> for Indent {
    type Output = Indent;

    fn add(self, rhs: usize) -> (res: Indent) {
        Indent(self.0.saturating_add(rhs))
    }
}

impl vstd::std_specs::ops::AddSpecImpl<usize> for Indent {
    open spec fn obeys_add_spec() -> bool {
        true
    }

    open spec fn add_req(self, rhs: usize) -> bool {
        true
    }

    open spec fn add_spec(self, rhs: usize) -> Indent {
        Indent(saturating_add_spec(self.0, rhs))
    }
}

impl core::ops::Add for Indent {
    type Output = Indent;

    fn add(self, rhs: Indent) -> (res: Indent) {
        Indent(self.0.saturating_add(rhs.0))
    }
}

impl vstd::std_specs::ops::AddSpecImpl for Indent {
    open spec fn obeys_add_spec() -> bool {
        true
    }

    open spec fn add_req(self, rhs: Indent) -> bool {
        true
    }

    open spec fn add_spec(self, rhs: Indent) -> Indent {
        Indent(saturating_add_spec(self.0, rhs.0))
    }
}

impl core::ops::AddAssign<usize> for Indent {
    fn add_assign(&mut self, rhs: usize)
        ensures
            final(self).0 == saturating_add_spec(old(self).0, rhs),
    {
        self.0 = self.0.saturating_add(rhs);
    }
}

impl core::ops::AddAssign for Indent {
    fn add_assign(&mut self, rhs: Indent)
        ensures
            final(self).0 == saturating_add_spec(old(self).0, rhs.0),
    {
        self.0 = self.0.saturating_add(rhs.0);
    }
}

impl core::ops::Sub<usize> for Indent {
    type Output = Indent;

    fn sub(self, rhs: usize) -> (res: Indent) {
        Indent(self.0.saturating_sub(rhs))
    }
}

impl vstd::std_specs::ops::SubSpecImpl<usize> for Indent {
    open spec fn obeys_sub_spec() -> bool {
        true
    }

    open spec fn sub_req(self, rhs: usize) -> bool {
        true
    }

    open spec fn sub_spec(self, rhs: usize) -> Indent {
        Indent(saturating_sub_spec(self.0, rhs))
    }
}

impl core::ops::Sub for Indent {
    type Output = Indent;

    fn sub(self, rhs: Indent) -> (res: Indent) {
        Indent(self.0.saturating_sub(rhs.0))
    }
}

impl vstd::std_specs::ops::SubSpecImpl for Indent {
    open spec fn obeys_sub_spec() -> bool {
        true
    }

    open spec fn sub_req(self, rhs: Indent) -> bool {
        true
    }

    open spec fn sub_spec(self, rhs: Indent) -> Indent {
        Indent(saturating_sub_spec(self.0, rhs.0))
    }
}

impl core::ops::SubAssign<usize> for Indent {
    fn sub_assign(&mut self, rhs: usize)
        ensures
            final(self).0 == saturating_sub_spec(old(self).0, rhs),
    {
        self.0 = self.0.saturating_sub(rhs);
    }
}

impl core::ops::SubAssign for Indent {
    fn sub_assign(&mut self, rhs: Indent)
        ensures
            final(self).0 == saturating_sub_spec(old(self).0, rhs.0),
    {
        self.0 = self.0.saturating_sub(rhs.0);
    }
}

impl core::ops::Mul<usize> for Indent {
    type Output = Indent;

    fn mul(self, rhs: usize) -> (res: Indent) {
        Indent(saturating_mul(self.0, rhs))
    }
}

impl vstd::std_specs::ops::MulSpecImpl<usize> for Indent {
    open spec fn obeys_mul_spec() -> bool {
        true
    }

    open spec fn mul_req(self, rhs: usize) -> bool {
        true
    }

    open spec fn mul_spec(self, rhs: usize) -> Indent {
        Indent(saturating_mul_spec(self.0, rhs))
    }
}

impl core::ops::Mul for Indent {
    type Output = Indent;

    fn mul(self, rhs: Indent) -> (res: Indent) {
        Indent(saturating_mul(self.0, rhs.0))
    }
}

impl vstd::std_specs::ops::MulSpecImpl for Indent {
    open spec fn obeys_mul_spec() -> bool {
        true
    }

    open spec fn mul_req(self, rhs: Indent) -> bool {
        true
    }

    open spec fn mul_spec(self, rhs: Indent) -> Indent {
        Indent(saturating_mul_spec(self.0, rhs.0))
    }
}

impl core::ops::MulAssign<usize> for Indent {
    fn mul_assign(&mut self, rhs: usize)
        ensures
            final(self).0 == saturating_mul_spec(old(self).0, rhs),
    {
        self.0 = saturating_mul(self.0, rhs);
    }
}

impl core::ops::MulAssign for Indent {
    fn mul_assign(&mut self, rhs: Indent)
        ensures
            final(self).0 == saturating_mul_spec(old(self).0, rhs.0),
    {
        self.0 = saturating_mul(self.0, rhs.0);
    }
}

impl core::ops::Div<usize> for Indent {
    type Output = Indent;

    fn div(self, rhs: usize) -> (res: Indent) {
        Indent(self.0 / rhs)
    }
}

impl vstd::std_specs::ops::DivSpecImpl<usize> for Indent {
    open spec fn obeys_div_spec() -> bool {
        true
    }

    open spec fn div_req(self, rhs: usize) -> bool {
        rhs != 0
    }

    open spec fn div_spec(self, rhs: usize) -> Indent {
        Indent(saturating_div_spec(self.0, rhs))
    }
}

impl core::ops::Div for Indent {
    type Output = Indent;

    fn div(self, rhs: Indent) -> (res: Indent) {
        Indent(self.0 / rhs.0)
    }
}

impl vstd::std_specs::ops::DivSpecImpl for Indent {
    open spec fn obeys_div_spec() -> bool {
        true
    }

    open spec fn div_req(self, rhs: Indent) -> bool {
        rhs.0 != 0
    }

    open spec fn div_spec(self, rhs: Indent) -> Indent {
        Indent(saturating_div_spec(self.0, rhs.0))
    }
}

impl core::ops::DivAssign<usize> for Indent {
    fn div_assign(&mut self, rhs: usize)
        requires
            rhs != 0,
        ensures
            final(self).0 == saturating_div_spec(old(self).0, rhs),
    {
        self.0 = self.0 / rhs;
    }
}

impl core::ops::DivAssign for Indent {
    fn div_assign(&mut self, rhs: Indent)
        requires
            rhs.0 != 0,
        ensures
            final(self).0 == saturating_div_spec(old(self).0, rhs.0),
    {
        self.0 = self.0 / rhs.0;
    }
}

} // verus!
