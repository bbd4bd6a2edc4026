use vstd::prelude::*;

verus! {

/// The Mersenne prime 2^31 - 1, the modulus of the base field.
pub const P: u32 = 2147483647;

/// A field element is a canonical residue, below the modulus.
pub open spec fn is_felt(x: u32) -> bool {
    x < P
}

/// Sum of two field elements.
pub open spec fn add_spec(a: u32, b: u32) -> u32 {
    ((a as int + b as int) % (P as int)) as u32
}

/// Product of two field elements.
pub open spec fn mul_spec(a: u32, b: u32) -> u32 {
    ((a as int * b as int) % (P as int)) as u32
}

/// Square of a field element.
pub open spec fn sq_spec(a: u32) -> u32 {
    mul_spec(a, a)
}

/// The recurrence of the squared-Fibonacci AIR: `a^2 + b^2`.
#[verifier::opaque]
pub open spec fn step_spec(a: u32, b: u32) -> u32 {
    add_spec(sq_spec(a), sq_spec(b))
}

/// The field operations stay below the modulus.
pub proof fn lemma_ops_are_felts(a: u32, b: u32)
    ensures
        is_felt(add_spec(a, b)),
        is_felt(mul_spec(a, b)),
        is_felt(step_spec(a, b)),
{
    reveal(step_spec);
}

/// Addition modulo the field prime.
pub fn m31_add(a: u32, b: u32) -> (r: u32)
    requires
        is_felt(a),
        is_felt(b),
    ensures
        r == add_spec(a, b),
{
    let s: u64 = a as u64 + b as u64;
    if s >= P as u64 {
        (s - P as u64) as u32
    } else {
        s as u32
    }
}

/// Multiplication modulo the field prime.
pub fn m31_mul(a: u32, b: u32) -> (r: u32)
    requires
        is_felt(a),
        is_felt(b),
    ensures
        r == mul_spec(a, b),
{
    assert((a as u64) * (b as u64) < 0x4000_0000_0000_0000u64) by (nonlinear_arith)
        requires
            a < P,
            b < P,
    ;
    let m: u64 = (a as u64 * b as u64) % (P as u64);
    m as u32
}

/// The recurrence step `a^2 + b^2` in the field.
pub fn m31_step(a: u32, b: u32) -> (r: u32)
    requires
        is_felt(a),
        is_felt(b),
    ensures
        r == step_spec(a, b),
        is_felt(r),
{
    proof {
        reveal(step_spec);
    }
    let sa = m31_mul(a, a);
    let sb = m31_mul(b, b);
    m31_add(sa, sb)
}

} // verus!
