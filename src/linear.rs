//! The two linear mixing layers of the permutation: the external layer, built from
//! the 4x4 circulant block `mix4`, and the internal layer `I + 1 * diag`.
use vstd::prelude::*;
use crate::field::{P, fe, is_elem, all_elems, f_add, f_double, f_mul, lemma_fe_add2, lemma_fe_add_left, lemma_fe_multiple, lemma_fe_sum_elems, lemma_fe_small, f_reduce};

verus! {

/// The width of the permutation state.
pub const WIDTH: usize = 16;

/// The entries of a sequence of `u32` as integers.
pub open spec fn ints(s: Seq<u32>) -> Seq<int> {
    s.map_values(|x: u32| x as int)
}

/// The circulant matrix with rows (2,3,1,1), (1,2,3,1), (1,1,2,3), (3,1,1,2).
pub open spec fn m4_entry(r: int, c: int) -> int {
    let d = (c - r + 4) % 4;
    if d == 0 { 2 } else if d == 1 { 3 } else { 1 }
}

/// Row `r` of the matrix applied to `x`, over the integers.
pub open spec fn m4_row(x: Seq<int>, r: int) -> int {
    m4_entry(r, 0) * x[0] + m4_entry(r, 1) * x[1] + m4_entry(r, 2) * x[2] + m4_entry(r, 3) * x[3]
}

/// The image of a 4-element block under the circulant matrix, in the field.
pub open spec fn mix4(x: Seq<int>) -> Seq<int> {
    seq![fe(m4_row(x, 0)), fe(m4_row(x, 1)), fe(m4_row(x, 2)), fe(m4_row(x, 3))]
}

/// Entry `i` of the state after `mix4` on the block that holds `i`, over the integers.
pub open spec fn block_mix_int(v: Seq<int>, i: int) -> int {
    let b = i - i % 4;
    m4_row(v.subrange(b, b + 4), i % 4)
}

/// The sum over the four blocks of the mixed entry at within-block offset `k`.
pub open spec fn column_sum_int(v: Seq<int>, k: int) -> int {
    block_mix_int(v, k) + block_mix_int(v, 4 + k) + block_mix_int(v, 8 + k) + block_mix_int(v, 12 + k)
}

/// Entry `i` of the external linear layer, over the integers.
pub open spec fn external_int(v: Seq<int>, i: int) -> int {
    block_mix_int(v, i) + column_sum_int(v, i % 4)
}

/// The external linear layer on a 16-element state.
pub open spec fn external_layer(v: Seq<int>) -> Seq<int> {
    Seq::new(16, |i: int| fe(external_int(v, i)))
}

/// The diagonal of the internal linear layer, derived from `P`:
/// P - 2, 1, 2, (P + 1) / 2, 3, 4, (P - 1) / 2, P - 3, P - 4, P - (P - 1) / 2^8, P - (P - 1) / 2^3, P - 127, (P - 1) / 2^8, (P - 1) / 2^3, (P - 1) / 2^4, 127.
pub open spec fn diag(i: int) -> int {
    if i == 0 { 2130706431 }
    else if i == 1 { 1 }
    else if i == 2 { 2 }
    else if i == 3 { 1065353217 }
    else if i == 4 { 3 }
    else if i == 5 { 4 }
    else if i == 6 { 1065353216 }
    else if i == 7 { 2130706430 }
    else if i == 8 { 2130706429 }
    else if i == 9 { 2122383361 }
    else if i == 10 { 1864368129 }
    else if i == 11 { 2130706306 }
    else if i == 12 { 8323072 }
    else if i == 13 { 266338304 }
    else if i == 14 { 133169152 }
    else { 127 }
}

/// The sum of a sequence of integers.
pub open spec fn seq_sum(s: Seq<int>) -> int
    decreases s.len(),
{
    if s.len() == 0 { 0 } else { seq_sum(s.drop_last()) + s.last() }
}

/// The internal linear layer on a 16-element state.
pub open spec fn internal_layer(v: Seq<int>) -> Seq<int> {
    Seq::new(16, |i: int| fe(seq_sum(v) + diag(i) * v[i]))
}

/// The diagonal of the internal linear layer as field elements.
pub fn internal_diag() -> (r: [u32; 16])
    ensures
        forall|i: int| 0 <= i < 16 ==> #[trigger] r[i] as int == diag(i),
        all_elems(r@),
{
    [
        2130706431,
        1,
        2,
        1065353217,
        3,
        4,
        1065353216,
        2130706430,
        2130706429,
        2122383361,
        1864368129,
        2130706306,
        8323072,
        266338304,
        133169152,
        127,
    ]
}

/// Replaces a 4-element block with its image under the circulant matrix with
/// rows (2,3,1,1), (1,2,3,1), (1,1,2,3), (3,1,1,2), using additions and doublings
/// only. `x[1]` and `x[3]` are written before `x[0]` and `x[2]`, from the
/// original `x[0]` and `x[2]`.
pub fn apply_m_4(x: &mut [u32])
    requires
        old(x)@.len() == 4,
        all_elems(old(x)@),
    ensures
        final(x)@.len() == 4,
        all_elems(final(x)@),
        ints(final(x)@) == mix4(ints(old(x)@)),
{
    let ghost v = ints(x@);
    let t01 = f_add(x[0], x[1]);
    let t23 = f_add(x[2], x[3]);
    let t0123 = f_add(t01, t23);
    let t01123 = f_add(t0123, x[1]);
    let t01233 = f_add(t0123, x[3]);
    let d0 = f_double(x[0]);
    let d2 = f_double(x[2]);
    x[3] = f_add(t01233, d0);
    x[1] = f_add(t01123, d2);
    x[0] = f_add(t01123, t01);
    x[2] = f_add(t01233, t23);
    proof {
        lemma_mix4(v[0], v[1], v[2], v[3], t01 as int, t23 as int, t0123 as int, t01123 as int,
            t01233 as int, d0 as int, d2 as int, x[0] as int, x[1] as int, x[2] as int, x[3] as int);
        assert(ints(x@) =~= mix4(v));
    }
}

/// The additions and doublings of `apply_m_4` compute the circulant matrix.
proof fn lemma_mix4(a: int, b: int, c: int, d: int, t01: int, t23: int, t0123: int, t01123: int,
    t01233: int, d0: int, d2: int, y0: int, y1: int, y2: int, y3: int)
    requires
        is_elem(a), is_elem(b), is_elem(c), is_elem(d),
        t01 == fe(a + b),
        t23 == fe(c + d),
        t0123 == fe(t01 + t23),
        t01123 == fe(t0123 + b),
        t01233 == fe(t0123 + d),
        d0 == fe(2 * a),
        d2 == fe(2 * c),
        y3 == fe(t01233 + d0),
        y1 == fe(t01123 + d2),
        y0 == fe(t01123 + t01),
        y2 == fe(t01233 + t23),
    ensures
        y0 == fe(2 * a + 3 * b + c + d),
        y1 == fe(a + 2 * b + 3 * c + d),
        y2 == fe(a + b + 2 * c + 3 * d),
        y3 == fe(3 * a + b + c + 2 * d),
{
    lemma_fe_add2(a + b, c + d);
    lemma_fe_small(b);
    lemma_fe_small(d);
    lemma_fe_add2(a + b + c + d, b);
    lemma_fe_add2(a + b + c + d, d);
    lemma_fe_add2(a + b + c + d + b, 2 * c);
    lemma_fe_add2(a + b + c + d + d, 2 * a);
    lemma_fe_add2(a + b + c + d + b, a + b);
    lemma_fe_add2(a + b + c + d + d, c + d);
}

/// The field sum of the mixed entries at within-block offset `k`.
fn column_sum(state: &[u32; 16], k: usize) -> (r: u32)
    requires
        k < 4,
        all_elems(state@),
    ensures
        r as int == fe(state[k as int] + state[4 + k as int] + state[8 + k as int] + state[12 + k as int]),
        r < P,
{
    let r1 = f_add(state[k], state[4 + k]);
    let r2 = f_add(r1, state[8 + k]);
    let r3 = f_add(r2, state[12 + k]);
    proof {
        let (a, b, c, d) = (state[k as int] as int, state[4 + k as int] as int,
            state[8 + k as int] as int, state[12 + k as int] as int);
        lemma_fe_small(c);
        lemma_fe_small(d);
        lemma_fe_add2(a + b, c);
        lemma_fe_add2(a + b + c, d);
    }
    r3
}

/// Applies `mix4` to each of the four 4-element blocks.
fn mix_blocks(state: &mut [u32; 16])
    requires
        all_elems(old(state)@),
    ensures
        all_elems(final(state)@),
        forall|i: int| 0 <= i < 16 ==> #[trigger] final(state)[i] as int == fe(block_mix_int(ints(old(state)@), i)),
{
    let ghost v = ints(state@);
    let mut j: usize = 0;
    while j < 4
        invariant
            j <= 4,
            v == ints(old(state)@),
            all_elems(state@),
            forall|i: int| 0 <= i < 4 * j ==> #[trigger] state[i] as int == fe(block_mix_int(v, i)),
            forall|i: int| 4 * j <= i < 16 ==> #[trigger] state[i] as int == v[i],
        decreases 4 - j,
    {
        let b: usize = 4 * j;
        let mut block: [u32; 4] = [state[b], state[b + 1], state[b + 2], state[b + 3]];
        let ghost before = ints(block@);
        proof {
            assert(before =~= v.subrange(b as int, b as int + 4));
        }
        apply_m_4(&mut block);
        state[b] = block[0];
        state[b + 1] = block[1];
        state[b + 2] = block[2];
        state[b + 3] = block[3];
        proof {
            assert forall|i: int| 0 <= i < 4 * (j + 1) implies #[trigger] state[i] as int == fe(block_mix_int(v, i)) by {
                if i >= b {
                    assert(i % 4 == i - b);
                    assert(mix4(before)[i - b] == ints(block@)[i - b]);
                }
            }
        }
        j += 1;
    }
}

/// Applies `mix4` to each of the four 4-element blocks, then adds to every entry
/// the sum over the blocks of the entries at its within-block offset.
pub fn external_linear_layer(state: &mut [u32; 16])
    requires
        all_elems(old(state)@),
    ensures
        all_elems(final(state)@),
        ints(final(state)@) == external_layer(ints(old(state)@)),
{
    let ghost v = ints(state@);
    mix_blocks(state);
    let s0 = column_sum(state, 0);
    let s1 = column_sum(state, 1);
    let s2 = column_sum(state, 2);
    let s3 = column_sum(state, 3);
    let sums: [u32; 4] = [s0, s1, s2, s3];
    proof {
        assert forall|k: int| 0 <= k < 4 implies #[trigger] sums[k] as int == fe(column_sum_int(v, k)) by {
            lemma_sum4(block_mix_int(v, k), block_mix_int(v, 4 + k), block_mix_int(v, 8 + k),
                block_mix_int(v, 12 + k));
            if k == 0 { assert(sums[k] == s0); }
            else if k == 1 { assert(sums[k] == s1); }
            else if k == 2 { assert(sums[k] == s2); }
            else { assert(sums[k] == s3); }
        }
    }
    let ghost mixed = state@;
    let mut i: usize = 0;
    while i < 16
        invariant
            i <= 16,
            all_elems(state@),
            all_elems(sums@),
            forall|k: int| 0 <= k < 4 ==> #[trigger] sums[k] as int == fe(column_sum_int(v, k)),
            forall|n: int| 0 <= n < i ==> #[trigger] state[n] as int == fe(external_int(v, n)),
            forall|n: int| i <= n < 16 ==> #[trigger] state[n] as int == fe(block_mix_int(v, n)),
        decreases 16 - i,
    {
        let t = f_add(state[i], sums[i % 4]);
        proof {
            lemma_fe_add2(block_mix_int(v, i as int), column_sum_int(v, i as int % 4));
        }
        state[i] = t;
        i += 1;
    }
    proof {
        assert(ints(state@) =~= external_layer(v));
    }
}

/// The field sum of four reduced values is the reduction of their sum.
proof fn lemma_sum4(a: int, b: int, c: int, d: int)
    ensures
        fe(fe(a) + fe(b) + fe(c) + fe(d)) == fe(a + b + c + d),
{
    let (fa, fb, fc, fd) = (fe(a), fe(b), fe(c), fe(d));
    lemma_fe_add_left(a, fb + fc + fd);
    assert(fa + fb + fc + fd == fa + (fb + fc + fd));
    lemma_fe_add_left(b, a + fc + fd);
    assert(fb + (a + fc + fd) == a + fb + fc + fd);
    lemma_fe_add_left(c, a + b + fd);
    assert(fc + (a + b + fd) == a + (b + fc + fd));
    lemma_fe_add_left(d, a + b + c);
    assert(fd + (a + b + c) == a + b + fc + fd - fc + c);
}

/// Sets every entry to the sum of the state plus the entry times its diagonal
/// coefficient.
pub fn internal_linear_layer(state: &mut [u32; 16])
    requires
        all_elems(old(state)@),
    ensures
        all_elems(final(state)@),
        ints(final(state)@) == internal_layer(ints(old(state)@)),
{
    let ghost v = ints(state@);
    let d = internal_diag();
    let mut s: u64 = 0;
    let mut i: usize = 0;
    while i < 16
        invariant
            i <= 16,
            v == ints(state@),
            all_elems(state@),
            s as int == seq_sum(v.take(i as int)),
            s <= (i as u64) * 2130706433,
        decreases 16 - i,
    {
        proof {
            assert(v.take(i as int + 1).drop_last() =~= v.take(i as int));
            assert(state[i as int] < P);
        }
        s = s + state[i] as u64;
        i += 1;
    }
    proof {
        assert(v.take(16) =~= v);
    }
    let total = f_reduce(s);
    let mut j: usize = 0;
    while j < 16
        invariant
            j <= 16,
            v.len() == 16,
            all_elems(state@),
            all_elems(d@),
            forall|n: int| 0 <= n < 16 ==> #[trigger] d[n] as int == diag(n),
            total < P,
            total as int == fe(seq_sum(v)),
            forall|n: int| 0 <= n < j ==> #[trigger] state[n] as int == internal_layer(v)[n],
            forall|n: int| j <= n < 16 ==> #[trigger] state[n] as int == v[n],
        decreases 16 - j,
    {
        let t = f_add(total, f_mul(d[j], state[j]));
        proof {
            lemma_fe_add2(seq_sum(v), diag(j as int) * v[j as int]);
        }
        state[j] = t;
        j += 1;
    }
    proof {
        assert(ints(state@) =~= internal_layer(v));
    }
}

/// Entrywise field addition of two vectors.
pub open spec fn vec_add(v: Seq<int>, w: Seq<int>) -> Seq<int> {
    Seq::new(v.len(), |i: int| fe(v[i] + w[i]))
}

/// A vector of field elements of the permutation's width.
pub open spec fn is_state(v: Seq<int>) -> bool {
    v.len() == 16 && forall|i: int| 0 <= i < 16 ==> is_elem(#[trigger] v[i])
}

/// Row `r` of the circulant matrix, written out.
proof fn lemma_m4_row_explicit(x: Seq<int>, r: int)
    requires
        0 <= r < 4,
    ensures
        m4_row(x, r) == if r == 0 {
            2 * x[0] + 3 * x[1] + x[2] + x[3]
        } else if r == 1 {
            x[0] + 2 * x[1] + 3 * x[2] + x[3]
        } else if r == 2 {
            x[0] + x[1] + 2 * x[2] + 3 * x[3]
        } else {
            3 * x[0] + x[1] + x[2] + 2 * x[3]
        },
{
}

/// `block_mix_int` is additive and commutes with scaling by `P`:
/// where `c[j] == a[j] + P * b[j]`, `block_mix_int(c, n) == block_mix_int(a, n) + P * block_mix_int(b, n)`.
proof fn lemma_block_mix_linear(a: Seq<int>, b: Seq<int>, c: Seq<int>, n: int)
    requires
        a.len() == 16,
        b.len() == 16,
        c.len() == 16,
        0 <= n < 16,
        forall|j: int| 0 <= j < 16 ==> #[trigger] c[j] == a[j] + P * b[j],
    ensures
        block_mix_int(c, n) == block_mix_int(a, n) + P * block_mix_int(b, n),
{
    let base = n - n % 4;
    let (sa, sb, sc) = (a.subrange(base, base + 4), b.subrange(base, base + 4), c.subrange(base, base + 4));
    assert(sc[0] == sa[0] + P * sb[0]);
    assert(sc[1] == sa[1] + P * sb[1]);
    assert(sc[2] == sa[2] + P * sb[2]);
    assert(sc[3] == sa[3] + P * sb[3]);
    lemma_m4_row_explicit(sa, n % 4);
    lemma_m4_row_explicit(sb, n % 4);
    lemma_m4_row_explicit(sc, n % 4);
}

/// `external_int` is additive and commutes with scaling by `P`.
proof fn lemma_external_int_linear(a: Seq<int>, b: Seq<int>, c: Seq<int>, i: int)
    requires
        a.len() == 16,
        b.len() == 16,
        c.len() == 16,
        0 <= i < 16,
        forall|j: int| 0 <= j < 16 ==> #[trigger] c[j] == a[j] + P * b[j],
    ensures
        external_int(c, i) == external_int(a, i) + P * external_int(b, i),
{
    let k = i % 4;
    lemma_block_mix_linear(a, b, c, i);
    lemma_block_mix_linear(a, b, c, k);
    lemma_block_mix_linear(a, b, c, 4 + k);
    lemma_block_mix_linear(a, b, c, 8 + k);
    lemma_block_mix_linear(a, b, c, 12 + k);
}

/// The external linear layer is additive: for field vectors `v` and `w`, the
/// layer applied to `v + w` is the layer applied to `v` plus the layer applied to `w`.
pub proof fn lemma_external_layer_additive(v: Seq<int>, w: Seq<int>)
    requires
        is_state(v),
        is_state(w),
    ensures
        external_layer(vec_add(v, w)) == vec_add(external_layer(v), external_layer(w)),
{
    let u = vec_add(v, w);
    let s = Seq::new(16, |j: int| v[j] + w[j]);
    let k = Seq::new(16, |j: int| if v[j] + w[j] >= P { -1int } else { 0 });
    assert forall|j: int| 0 <= j < 16 implies #[trigger] u[j] == s[j] + P * k[j] by {
        lemma_fe_sum_elems(v[j], w[j]);
    }
    assert forall|i: int| 0 <= i < 16 implies #[trigger] external_layer(u)[i] == vec_add(external_layer(v), external_layer(w))[i] by {
        lemma_external_int_linear(s, k, u, i);
        lemma_external_int_sum(v, w, s, i);
        lemma_fe_multiple(external_int(v, i) + external_int(w, i), external_int(k, i));
        lemma_fe_add2(external_int(v, i), external_int(w, i));
    }
    assert(external_layer(u) =~= vec_add(external_layer(v), external_layer(w)));
}

/// `external_int` is additive.
proof fn lemma_external_int_sum(a: Seq<int>, b: Seq<int>, c: Seq<int>, i: int)
    requires
        a.len() == 16,
        b.len() == 16,
        c.len() == 16,
        0 <= i < 16,
        forall|j: int| 0 <= j < 16 ==> #[trigger] c[j] == a[j] + b[j],
    ensures
        external_int(c, i) == external_int(a, i) + external_int(b, i),
{
    let k = i % 4;
    lemma_block_mix_sum(a, b, c, i);
    lemma_block_mix_sum(a, b, c, k);
    lemma_block_mix_sum(a, b, c, 4 + k);
    lemma_block_mix_sum(a, b, c, 8 + k);
    lemma_block_mix_sum(a, b, c, 12 + k);
}

/// `block_mix_int` is additive.
proof fn lemma_block_mix_sum(a: Seq<int>, b: Seq<int>, c: Seq<int>, n: int)
    requires
        a.len() == 16,
        b.len() == 16,
        c.len() == 16,
        0 <= n < 16,
        forall|j: int| 0 <= j < 16 ==> #[trigger] c[j] == a[j] + b[j],
    ensures
        block_mix_int(c, n) == block_mix_int(a, n) + block_mix_int(b, n),
{
    let base = n - n % 4;
    let (sa, sb, sc) = (a.subrange(base, base + 4), b.subrange(base, base + 4), c.subrange(base, base + 4));
    assert(sc[0] == sa[0] + sb[0]);
    assert(sc[1] == sa[1] + sb[1]);
    assert(sc[2] == sa[2] + sb[2]);
    assert(sc[3] == sa[3] + sb[3]);
    lemma_m4_row_explicit(sa, n % 4);
    lemma_m4_row_explicit(sb, n % 4);
    lemma_m4_row_explicit(sc, n % 4);
}

/// The external linear layer maps the zero vector to the zero vector.
pub proof fn lemma_external_layer_zero()
    ensures
        external_layer(Seq::new(16, |j: int| 0int)) == Seq::new(16, |j: int| 0int),
{
    let z = Seq::new(16, |j: int| 0int);
    assert forall|i: int| 0 <= i < 16 implies #[trigger] external_layer(z)[i] == 0 by {
        lemma_external_int_sum(z, z, z, i);
        lemma_fe_small(0);
    }
    assert(external_layer(z) =~= Seq::new(16, |j: int| 0int));
}

} // verus!
