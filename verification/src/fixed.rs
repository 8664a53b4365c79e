use vstd::prelude::*;

verus! {

/// Fixed-point unit for direction components: a unit heading vector is
/// stored as `(cos * ONE, sin * ONE)`, rounded to integers by the caller.
pub const ONE: i32 = 1024;

/// A heading or ray direction in fixed-point world coordinates.
#[derive(Clone, Copy, PartialEq, Eq, Structural, Debug)]
pub struct Dir {
    pub x: i32,
    pub y: i32,
}

impl Dir {
    /// Components of a scaled unit vector never leave `[-ONE, ONE]`.
    pub open spec fn in_range(self) -> bool {
        &&& -(ONE as int) <= self.x <= ONE as int
        &&& -(ONE as int) <= self.y <= ONE as int
    }
}

/// Dot product of two direction vectors; `dot(a, b) == ONE * ONE` exactly
/// when both are the same scaled unit vector.
pub open spec fn dot(a: Dir, b: Dir) -> int {
    a.x * b.x + a.y * b.y
}

/// Truncating product `s * c / ONE`: the world-unit step along one axis for
/// a speed `s` and a direction component `c` (truncation is toward zero).
pub open spec fn mul_div_one(s: int, c: int) -> int {
    if c >= 0 {
        (s * c) / (ONE as int)
    } else {
        -((s * -c) / (ONE as int))
    }
}

/// Computes `mul_div_one` on machine integers.
pub fn step_component(speed: u32, c: i32) -> (d: i64)
    requires
        -(ONE as int) <= c <= ONE as int,
    ensures
        d == mul_div_one(speed as int, c as int),
        -(speed as int) <= d <= speed as int,
{
    proof {
        lemma_scaled_step_bound(speed as int, if c >= 0 { c as int } else { -c as int });
    }
    if c >= 0 {
        let q: u64 = (speed as u64) * (c as u64) / (ONE as u64);
        q as i64
    } else {
        let m: u64 = (speed as u64) * ((-c) as u64) / (ONE as u64);
        -(m as i64)
    }
}

/// For `0 <= c <= ONE`, the scaled step `s * c / ONE` never exceeds `s`.
proof fn lemma_scaled_step_bound(s: int, c: int)
    requires
        s >= 0,
        0 <= c <= ONE as int,
    ensures
        0 <= (s * c) / (ONE as int) <= s,
{
    assert(s * c >= 0) by (nonlinear_arith)
        requires s >= 0 && c >= 0;
    assert(s * c <= s * (ONE as int)) by (nonlinear_arith)
        requires s >= 0 && c <= ONE as int;
    assert(s * (ONE as int) / (ONE as int) == s) by (nonlinear_arith);
    assert((s * c) / (ONE as int) <= (s * (ONE as int)) / (ONE as int)) by {
        vstd::arithmetic::div_mod::lemma_div_is_ordered(s * c, s * (ONE as int), ONE as int);
    }
    assert((s * c) / (ONE as int) >= 0) by {
        vstd::arithmetic::div_mod::lemma_div_pos_is_pos(s * c, ONE as int);
    }
}

/// For `0 <= x < d * b` with `d > 0`, the quotient `x / d` stays below
/// `b`.
pub proof fn lemma_div_strict_bound(x: int, d: int, b: int)
    requires
        0 <= x,
        0 < d,
        x < d * b,
    ensures
        0 <= x / d < b,
{
    vstd::arithmetic::div_mod::lemma_div_pos_is_pos(x, d);
    vstd::arithmetic::div_mod::lemma_fundamental_div_mod(x, d);
    assert(x / d < b) by (nonlinear_arith)
        requires d > 0 && d * (x / d) <= x && x < d * b;
}

} // verus!
