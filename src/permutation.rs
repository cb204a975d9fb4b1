//! The round constants, the S-box, the two kinds of round and the full schedule of
//! 4 external rounds, 13 internal rounds and 4 external rounds.
use vstd::prelude::*;
use crate::field::{P, fe, all_elems, f_add, f_mul};
use crate::linear::{ints, external_layer, internal_layer, external_linear_layer, internal_linear_layer};

verus! {

/// The number of external rounds.
pub const NUM_EXTERNAL_ROUNDS: usize = 8;

/// The number of internal rounds.
pub const NUM_INTERNAL_ROUNDS: usize = 13;

/// The number of rounds.
pub const NUM_ROUNDS: usize = NUM_EXTERNAL_ROUNDS + NUM_INTERNAL_ROUNDS;

/// The rate of the sponge built on the permutation.
pub const RATE: usize = 8;

/// The round constants: one vector per external round, added to every entry, and
/// one scalar per internal round, added to the first entry.
#[derive(Clone, Copy, Debug, PartialEq, Eq)]
pub struct RoundConstants {
    pub external: [[u32; 16]; 8],
    pub internal: [u32; 13],
}

impl RoundConstants {
    /// Every constant is a canonical field element.
    pub open spec fn wf(&self) -> bool {
        &&& forall|r: int, i: int| 0 <= r < 8 && 0 <= i < 16 ==> #[trigger] self.external@[r]@[i] < P
        &&& forall|k: int| 0 <= k < 13 ==> #[trigger] self.internal@[k] < P
    }

    /// The constant vector of external round `r`.
    pub open spec fn ext(&self, r: int) -> Seq<int> {
        ints(self.external@[r]@)
    }

    /// The constant of internal round `k`.
    pub open spec fn internal_const(&self, k: int) -> int {
        self.internal@[k] as int
    }
}

/// The square of `x` in the field, the first step of the S-box.
pub open spec fn square(x: int) -> int {
    fe(x * x)
}

/// The S-box: `x^3` in the field, as the square times `x`.
pub open spec fn cube(x: int) -> int {
    fe(square(x) * x)
}

/// The entries of `s` plus the constants `c`, in the field.
pub open spec fn add_constants(s: Seq<int>, c: Seq<int>) -> Seq<int> {
    Seq::new(16, |i: int| fe(s[i] + c[i]))
}

/// The S-box applied to every entry.
pub open spec fn sbox_all(s: Seq<int>) -> Seq<int> {
    Seq::new(16, |i: int| cube(s[i]))
}

/// An external round: constants added to every entry, the S-box on every entry,
/// then the external linear layer.
pub open spec fn external_round(s: Seq<int>, c: Seq<int>) -> Seq<int> {
    external_layer(sbox_all(add_constants(s, c)))
}

/// An internal round: the constant added to the first entry, the S-box on the
/// first entry, then the internal linear layer.
pub open spec fn internal_round(s: Seq<int>, c: int) -> Seq<int> {
    internal_layer(s.update(0, cube(fe(s[0] + c))))
}

/// The state after the first `n` internal rounds, from `s`.
pub open spec fn internal_rounds(s: Seq<int>, rc: RoundConstants, n: nat) -> Seq<int>
    decreases n,
{
    if n == 0 { s } else { internal_round(internal_rounds(s, rc, (n - 1) as nat), rc.internal_const(n - 1)) }
}

/// The external round that trace row `r` performs (rows other than 4).
pub open spec fn external_index(r: int) -> int {
    if r < 4 { r } else { r - 1 }
}

/// What trace row `r` does to its input: row 4 performs all internal rounds, the
/// others one external round each.
pub open spec fn row_step(s: Seq<int>, rc: RoundConstants, r: int) -> Seq<int> {
    if r == 4 { internal_rounds(s, rc, 13) } else { external_round(s, rc.ext(external_index(r))) }
}

/// The state entering trace row `r`; for `r == 9`, the output of the permutation.
pub open spec fn state_before_row(input: Seq<int>, rc: RoundConstants, r: nat) -> Seq<int>
    decreases r,
{
    if r == 0 { input } else { row_step(state_before_row(input, rc, (r - 1) as nat), rc, r - 1) }
}

/// The permutation.
pub open spec fn permutation(input: Seq<int>, rc: RoundConstants) -> Seq<int> {
    state_before_row(input, rc, 9)
}

/// The S-box on `x`, with its square.
pub fn sbox(x: u32) -> (r: (u32, u32))
    requires
        x < P,
    ensures
        r.0 as int == square(x as int),
        r.1 as int == cube(x as int),
        r.0 < P,
        r.1 < P,
{
    let sq = f_mul(x, x);
    let cu = f_mul(sq, x);
    (sq, cu)
}

/// Adds the constants `c` to every entry of `state`.
pub fn add_round_constants(state: &mut [u32; 16], c: &[u32; 16])
    requires
        all_elems(old(state)@),
        all_elems(c@),
    ensures
        all_elems(final(state)@),
        ints(final(state)@) == add_constants(ints(old(state)@), ints(c@)),
{
    let ghost v = ints(state@);
    let mut i: usize = 0;
    while i < 16
        invariant
            i <= 16,
            all_elems(state@),
            all_elems(c@),
            forall|n: int| 0 <= n < i ==> #[trigger] state[n] as int == fe(v[n] + c[n]),
            forall|n: int| i <= n < 16 ==> #[trigger] state[n] as int == v[n],
        decreases 16 - i,
    {
        state[i] = f_add(state[i], c[i]);
        i += 1;
    }
    proof {
        assert(ints(state@) =~= add_constants(v, ints(c@)));
    }
}

/// Applies the S-box to every entry of `state`.
pub fn sbox_layer(state: &mut [u32; 16])
    requires
        all_elems(old(state)@),
    ensures
        all_elems(final(state)@),
        ints(final(state)@) == sbox_all(ints(old(state)@)),
{
    let ghost v = ints(state@);
    let mut i: usize = 0;
    while i < 16
        invariant
            i <= 16,
            all_elems(state@),
            forall|n: int| 0 <= n < i ==> #[trigger] state[n] as int == cube(v[n]),
            forall|n: int| i <= n < 16 ==> #[trigger] state[n] as int == v[n],
        decreases 16 - i,
    {
        let (_, cu) = sbox(state[i]);
        state[i] = cu;
        i += 1;
    }
    proof {
        assert(ints(state@) =~= sbox_all(v));
    }
}

/// One external round on `state` with the constants `c`.
pub fn apply_external_round(state: &mut [u32; 16], c: &[u32; 16])
    requires
        all_elems(old(state)@),
        all_elems(c@),
    ensures
        all_elems(final(state)@),
        ints(final(state)@) == external_round(ints(old(state)@), ints(c@)),
{
    add_round_constants(state, c);
    sbox_layer(state);
    external_linear_layer(state);
}

/// One internal round on `state` with the constant `c`.
pub fn apply_internal_round(state: &mut [u32; 16], c: u32)
    requires
        all_elems(old(state)@),
        c < P,
    ensures
        all_elems(final(state)@),
        ints(final(state)@) == internal_round(ints(old(state)@), c as int),
{
    let ghost v = ints(state@);
    let (_, cu) = sbox(f_add(state[0], c));
    state[0] = cu;
    proof {
        assert(ints(state@) =~= v.update(0, cube(fe(v[0] + c))));
    }
    internal_linear_layer(state);
}

/// The permutation of `input` with the round constants `rc`.
pub fn permute(input: [u32; 16], rc: &RoundConstants) -> (r: [u32; 16])
    requires
        all_elems(input@),
        rc.wf(),
    ensures
        all_elems(r@),
        ints(r@) == permutation(ints(input@), *rc),
{
    let mut state = input;
    let mut row: usize = 0;
    while row < 9
        invariant
            row <= 9,
            rc.wf(),
            all_elems(state@),
            ints(state@) == state_before_row(ints(input@), *rc, row as nat),
        decreases 9 - row,
    {
        apply_row(&mut state, rc, row);
        row += 1;
    }
    state
}

/// What trace row `row` does, on `state`.
pub fn apply_row(state: &mut [u32; 16], rc: &RoundConstants, row: usize)
    requires
        row < 9,
        all_elems(old(state)@),
        rc.wf(),
    ensures
        all_elems(final(state)@),
        ints(final(state)@) == row_step(ints(old(state)@), *rc, row as int),
{
    if row == 4 {
        let ghost v = ints(state@);
        let mut k: usize = 0;
        while k < 13
            invariant
                k <= 13,
                rc.wf(),
                all_elems(state@),
                ints(state@) == internal_rounds(v, *rc, k as nat),
            decreases 13 - k,
        {
            apply_internal_round(state, rc.internal[k]);
            k += 1;
        }
    } else {
        let e: usize = if row < 4 { row } else { row - 1 };
        let c = rc.external[e];
        proof {
            assert(all_elems(c@));
        }
        apply_external_round(state, &c);
    }
}

} // verus!
