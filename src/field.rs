//! Arithmetic in the prime field of order `P = 2^31 - 2^24 + 1`.
//! A field element is held as its canonical representative, a `u32` below `P`.
use vstd::prelude::*;

verus! {

/// The order of the field.
pub const P: u32 = 2130706433;

/// A canonical representative of a field element.
pub open spec fn is_elem(a: int) -> bool {
    0 <= a < P
}

/// Every entry of `s` is canonical.
pub open spec fn all_elems(s: Seq<u32>) -> bool {
    forall|i: int| 0 <= i < s.len() ==> #[trigger] s[i] < P
}

/// Reduction of an integer to its canonical representative.
#[verifier::opaque]
pub open spec fn fe(a: int) -> int {
    a % (P as int)
}

/// Field addition.
pub fn f_add(a: u32, b: u32) -> (r: u32)
    requires
        a < P,
        b < P,
    ensures
        r == fe(a + b),
        r < P,
{
    reveal(fe);
    ((a as u64 + b as u64) % (P as u64)) as u32
}

/// Field doubling.
pub fn f_double(a: u32) -> (r: u32)
    requires
        a < P,
    ensures
        r == fe(2 * a),
        r < P,
{
    f_add(a, a)
}

/// Field multiplication.
pub fn f_mul(a: u32, b: u32) -> (r: u32)
    requires
        a < P,
        b < P,
    ensures
        r == fe(a * b),
        r < P,
{
    reveal(fe);
    assert((a as u64) * (b as u64) < 0x1_0000_0000_0000_0000) by (nonlinear_arith)
        requires a < P, b < P;
    ((a as u64 * b as u64) % (P as u64)) as u32
}

/// The field element `a` for any `u64`, reduced.
pub fn f_reduce(a: u64) -> (r: u32)
    ensures
        r == fe(a as int),
        r < P,
{
    reveal(fe);
    (a % (P as u64)) as u32
}

/// `fe(x + y) == fe(fe(x) + y)`.
pub proof fn lemma_fe_add_left(x: int, y: int)
    ensures
        fe(fe(x) + y) == fe(x + y),
{
    reveal(fe);
    vstd::arithmetic::div_mod::lemma_add_mod_noop(x, y, P as int);
    vstd::arithmetic::div_mod::lemma_add_mod_noop(x % (P as int), y, P as int);
    vstd::arithmetic::div_mod::lemma_mod_twice(x, P as int);
}

/// `fe(fe(x) + fe(y)) == fe(x + y)`.
pub proof fn lemma_fe_add2(x: int, y: int)
    ensures
        fe(fe(x) + fe(y)) == fe(x + y),
{
    reveal(fe);
    vstd::arithmetic::div_mod::lemma_add_mod_noop(x, y, P as int);
}

/// A canonical value is its own reduction.
pub proof fn lemma_fe_small(x: int)
    requires
        is_elem(x),
    ensures
        fe(x) == x,
{
    reveal(fe);
    vstd::arithmetic::div_mod::lemma_small_mod(x as nat, P as nat);
}

/// Adding a multiple of `P` does not change the reduction.
pub proof fn lemma_fe_multiple(x: int, k: int)
    ensures
        fe(x + k * P) == fe(x),
{
    reveal(fe);
    vstd::arithmetic::div_mod::lemma_mod_multiples_vanish(k, x, P as int);
    assert(k * P + x == x + k * P);
}

/// The field sum of two canonical values, as an integer.
pub proof fn lemma_fe_sum_elems(x: int, y: int)
    requires
        is_elem(x),
        is_elem(y),
    ensures
        fe(x + y) == x + y + P * (if x + y >= P { -1int } else { 0 }),
{
    reveal(fe);
    if x + y >= P {
        vstd::arithmetic::div_mod::lemma_fundamental_div_mod_converse(x + y, P as int, 1, x + y - P);
    } else {
        vstd::arithmetic::div_mod::lemma_small_mod((x + y) as nat, P as nat);
    }
}

} // verus!
