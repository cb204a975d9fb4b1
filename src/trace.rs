//! Trace rows of the skinny layout and the trace builder. One permutation call takes
//! nine rows: rows 0 to 3 and 5 to 8 perform one external round each, and row 4
//! performs all 13 internal rounds, holding their intermediate states as columns.
use vstd::prelude::*;
use crate::field::{fe, all_elems, f_add};
use crate::linear::{ints, external_layer, internal_layer, external_linear_layer, internal_linear_layer};
use crate::permutation::{
    RoundConstants, square, cube, add_constants, external_index, row_step, state_before_row,
    internal_rounds, permutation, sbox, add_round_constants,
};

verus! {

/// One row of the trace.
#[derive(Clone, Copy, Debug, PartialEq, Eq)]
pub struct Poseidon2Row {
    /// Set on the rows that perform an external round.
    pub is_external: bool,
    /// Set on the first row of a permutation call.
    pub is_first: bool,
    /// Set on the last row of a permutation call.
    pub is_last: bool,
    /// The state entering the row.
    pub state_in: [u32; 16],
    /// External rows: the state plus the round constants, the input of the S-box.
    pub sbox_in: [u32; 16],
    /// External rows: the squares of `sbox_in`.
    pub sbox_sq: [u32; 16],
    /// External rows: the cubes of `sbox_in`, the output of the S-box.
    pub sbox_cube: [u32; 16],
    /// Internal row: the first entry plus the round constant, for each internal round.
    pub internal_in: [u32; 13],
    /// Internal row: the squares of `internal_in`.
    pub internal_sq: [u32; 13],
    /// Internal row: the cubes of `internal_in`.
    pub internal_cube: [u32; 13],
    /// Internal row: the state after each internal round.
    pub internal_states: [[u32; 16]; 13],
    /// The state leaving the row.
    pub state_out: [u32; 16],
}

/// Every entry of `s` is zero.
pub open spec fn all_zero(s: Seq<u32>) -> bool {
    forall|i: int| 0 <= i < s.len() ==> #[trigger] s[i] == 0
}

/// The state entering internal round `k` of the internal row.
pub open spec fn internal_prev(row: Poseidon2Row, k: int) -> Seq<int> {
    if k == 0 { ints(row.state_in@) } else { ints(row.internal_states@[k - 1]@) }
}

/// The cells of an external row performing the external round with constants `c`.
pub open spec fn external_cells_ok(row: Poseidon2Row, c: Seq<int>) -> bool {
    &&& ints(row.sbox_in@) == add_constants(ints(row.state_in@), c)
    &&& forall|i: int| 0 <= i < 16 ==> #[trigger] row.sbox_sq@[i] as int == square(row.sbox_in@[i] as int)
    &&& forall|i: int| 0 <= i < 16 ==> #[trigger] row.sbox_cube@[i] as int == fe(
        row.sbox_sq@[i] * row.sbox_in@[i],
    )
    &&& ints(row.state_out@) == external_layer(ints(row.sbox_cube@))
    &&& all_zero(row.internal_in@)
    &&& all_zero(row.internal_sq@)
    &&& all_zero(row.internal_cube@)
    &&& forall|k: int| 0 <= k < 13 ==> all_zero(#[trigger] row.internal_states@[k]@)
}

/// The cells of internal round `k` of the internal row.
pub open spec fn internal_step_ok(row: Poseidon2Row, rc: RoundConstants, k: int) -> bool {
    &&& row.internal_in@[k] as int == fe(internal_prev(row, k)[0] + rc.internal_const(k))
    &&& row.internal_sq@[k] as int == square(row.internal_in@[k] as int)
    &&& row.internal_cube@[k] as int == fe(row.internal_sq@[k] * row.internal_in@[k])
    &&& ints(row.internal_states@[k]@) == internal_layer(
        internal_prev(row, k).update(0, row.internal_cube@[k] as int),
    )
}

/// The cells of the internal row.
pub open spec fn internal_cells_ok(row: Poseidon2Row, rc: RoundConstants) -> bool {
    &&& forall|k: int| 0 <= k < 13 ==> #[trigger] internal_step_ok(row, rc, k)
    &&& row.state_out@ == row.internal_states@[12]@
    &&& all_zero(row.sbox_in@)
    &&& all_zero(row.sbox_sq@)
    &&& all_zero(row.sbox_cube@)
}

/// Every cell of the row holds a canonical field element.
pub open spec fn row_canonical(row: Poseidon2Row) -> bool {
    &&& all_elems(row.state_in@)
    &&& all_elems(row.sbox_in@)
    &&& all_elems(row.sbox_sq@)
    &&& all_elems(row.sbox_cube@)
    &&& all_elems(row.internal_in@)
    &&& all_elems(row.internal_sq@)
    &&& all_elems(row.internal_cube@)
    &&& forall|k: int| 0 <= k < 13 ==> all_elems(#[trigger] row.internal_states@[k]@)
    &&& all_elems(row.state_out@)
}

/// Row `r` of a permutation call satisfies every constraint on its own cells.
pub open spec fn row_ok(row: Poseidon2Row, r: int, rc: RoundConstants) -> bool {
    &&& 0 <= r < 9
    &&& row_canonical(row)
    &&& row.is_external == (r != 4)
    &&& row.is_first == (r == 0)
    &&& row.is_last == (r == 8)
    &&& if r == 4 { internal_cells_ok(row, rc) } else { external_cells_ok(row, rc.ext(external_index(r))) }
}

/// The constraint between a row and the next: within a permutation call the state
/// leaving a row enters the next one. Nothing links the last row of a call to the
/// row after it.
pub open spec fn transition_ok(local: Poseidon2Row, next: Poseidon2Row) -> bool {
    !local.is_last ==> next.state_in@ == local.state_out@
}

/// A trace: whole permutation calls, each row satisfying its constraints at its
/// position within its call, and each pair of adjacent rows the transition constraint.
pub open spec fn trace_ok(rows: Seq<Poseidon2Row>, rc: RoundConstants) -> bool {
    &&& rows.len() % 9 == 0
    &&& forall|j: int| 0 <= j < rows.len() ==> row_ok(#[trigger] rows[j], j % 9, rc)
    &&& forall|j: int| 0 <= j < rows.len() - 1 ==> transition_ok(#[trigger] rows[j], rows[j + 1])
}

/// The rows of one permutation call on `input`.
pub open spec fn instance_ok(rows: Seq<Poseidon2Row>, input: Seq<int>, rc: RoundConstants) -> bool {
    &&& trace_ok(rows, rc)
    &&& rows.len() == 9
    &&& ints(rows[0].state_in@) == input
}

/// Builds the row that performs external round `r` (any row but 4) on `state_in`.
fn build_external_row(state_in: [u32; 16], rc: &RoundConstants, r: usize) -> (row: Poseidon2Row)
    requires
        r < 9,
        r != 4,
        all_elems(state_in@),
        rc.wf(),
    ensures
        row_ok(row, r as int, *rc),
        row.state_in == state_in,
{
    let e: usize = if r < 4 { r } else { r - 1 };
    let c = rc.external[e];
    proof {
        assert(all_elems(c@));
    }
    let mut sbox_in = state_in;
    add_round_constants(&mut sbox_in, &c);
    let mut sq: [u32; 16] = [0; 16];
    let mut cu: [u32; 16] = [0; 16];
    let mut i: usize = 0;
    while i < 16
        invariant
            i <= 16,
            all_elems(sbox_in@),
            all_elems(sq@),
            all_elems(cu@),
            forall|n: int| 0 <= n < i ==> #[trigger] sq@[n] as int == square(sbox_in@[n] as int),
            forall|n: int| 0 <= n < i ==> #[trigger] cu@[n] as int == fe(sq@[n] * sbox_in@[n]),
        decreases 16 - i,
    {
        let (a, b) = sbox(sbox_in[i]);
        sq[i] = a;
        cu[i] = b;
        i += 1;
    }
    let mut out = cu;
    external_linear_layer(&mut out);
    let row = Poseidon2Row {
        is_external: true,
        is_first: r == 0,
        is_last: r == 8,
        state_in,
        sbox_in,
        sbox_sq: sq,
        sbox_cube: cu,
        internal_in: [0; 13],
        internal_sq: [0; 13],
        internal_cube: [0; 13],
        internal_states: [[0; 16]; 13],
        state_out: out,
    };
    row
}

/// Builds the row that performs all internal rounds on `state_in`.
fn build_internal_row(state_in: [u32; 16], rc: &RoundConstants) -> (row: Poseidon2Row)
    requires
        all_elems(state_in@),
        rc.wf(),
    ensures
        row_ok(row, 4, *rc),
        row.state_in == state_in,
{
    let mut state = state_in;
    let mut ins: [u32; 13] = [0; 13];
    let mut sq: [u32; 13] = [0; 13];
    let mut cu: [u32; 13] = [0; 13];
    let mut states: [[u32; 16]; 13] = [[0; 16]; 13];
    let mut k: usize = 0;
    while k < 13
        invariant
            k <= 13,
            rc.wf(),
            all_elems(state_in@),
            all_elems(state@),
            all_elems(ins@),
            all_elems(sq@),
            all_elems(cu@),
            forall|n: int| 0 <= n < 13 ==> all_elems(#[trigger] states@[n]@),
            k == 0 ==> state@ == state_in@,
            k > 0 ==> state@ == states@[k - 1]@,
            forall|n: int| 0 <= n < k ==> #[trigger] ins@[n] as int == fe(
                (if n == 0 { ints(state_in@) } else { ints(states@[n - 1]@) })[0] + rc.internal_const(n),
            ),
            forall|n: int| 0 <= n < k ==> #[trigger] sq@[n] as int == square(ins@[n] as int),
            forall|n: int| 0 <= n < k ==> #[trigger] cu@[n] as int == fe(sq@[n] * ins@[n]),
            forall|n: int| 0 <= n < k ==> #[trigger] ints(states@[n]@) == internal_layer(
                (if n == 0 { ints(state_in@) } else { ints(states@[n - 1]@) }).update(0, cu@[n] as int),
            ),
        decreases 13 - k,
    {
        let a = f_add(state[0], rc.internal[k]);
        let (s2, c3) = sbox(a);
        ins[k] = a;
        sq[k] = s2;
        cu[k] = c3;
        let ghost before = ints(state@);
        state[0] = c3;
        proof {
            assert(ints(state@) =~= before.update(0, c3 as int));
        }
        internal_linear_layer(&mut state);
        states[k] = state;
        k += 1;
    }
    let row = Poseidon2Row {
        is_external: false,
        is_first: false,
        is_last: false,
        state_in,
        sbox_in: [0; 16],
        sbox_sq: [0; 16],
        sbox_cube: [0; 16],
        internal_in: ins,
        internal_sq: sq,
        internal_cube: cu,
        internal_states: states,
        state_out: state,
    };
    proof {
        assert forall|n: int| 0 <= n < 13 implies #[trigger] internal_step_ok(row, *rc, n) by {
            assert(internal_prev(row, n) == (if n == 0 { ints(state_in@) } else { ints(states@[n - 1]@) }));
        }
    }
    row
}

/// The state leaving a row is what the row's step does to the state entering it.
pub proof fn lemma_row_step(row: Poseidon2Row, r: int, rc: RoundConstants)
    requires
        row_ok(row, r, rc),
    ensures
        ints(row.state_out@) == row_step(ints(row.state_in@), rc, r),
{
    if r == 4 {
        lemma_internal_prefix(row, rc, 13);
    } else {
        assert(ints(row.sbox_cube@) =~= crate::permutation::sbox_all(ints(row.sbox_in@)));
    }
}

/// The state after internal round `k - 1` of the internal row is that of the first
/// `k` internal rounds.
proof fn lemma_internal_prefix(row: Poseidon2Row, rc: RoundConstants, k: nat)
    requires
        row_ok(row, 4, rc),
        1 <= k <= 13,
    ensures
        ints(row.internal_states@[k - 1]@) == internal_rounds(ints(row.state_in@), rc, k),
    decreases k,
{
    if k > 1 {
        lemma_internal_prefix(row, rc, (k - 1) as nat);
    }
    let n = k - 1;
    assert(internal_step_ok(row, rc, n));
    let prev = internal_prev(row, n);
    assert(prev == internal_rounds(ints(row.state_in@), rc, n as nat));
    assert(row.internal_cube@[n] as int == cube(fe(prev[0] + rc.internal_const(n))));
}

/// Builds row `r` of a permutation call, entered by `state_in`.
fn build_row(state_in: [u32; 16], rc: &RoundConstants, r: usize) -> (row: Poseidon2Row)
    requires
        r < 9,
        all_elems(state_in@),
        rc.wf(),
    ensures
        row_ok(row, r as int, *rc),
        row.state_in == state_in,
        all_elems(row.state_out@),
        ints(row.state_out@) == row_step(ints(state_in@), *rc, r as int),
{
    let row = if r == 4 { build_internal_row(state_in, rc) } else { build_external_row(state_in, rc, r) };
    proof {
        lemma_row_step(row, r as int, *rc);
    }
    row
}

/// Builds the nine rows of one permutation call on `input`.
pub fn generate_trace_rows(input: [u32; 16], rc: &RoundConstants) -> (rows: Vec<Poseidon2Row>)
    requires
        all_elems(input@),
        rc.wf(),
    ensures
        instance_ok(rows@, ints(input@), *rc),
        rows@.len() == 9,
        ints(rows@[8].state_out@) == permutation(ints(input@), *rc),
{
    let mut rows: Vec<Poseidon2Row> = Vec::new();
    let mut state = input;
    let mut r: usize = 0;
    while r < 9
        invariant
            r <= 9,
            rc.wf(),
            rows@.len() == r,
            all_elems(state@),
            ints(state@) == state_before_row(ints(input@), *rc, r as nat),
            r > 0 ==> rows@[r - 1].state_out == state,
            r > 0 ==> rows@[0].state_in == input,
            r == 0 ==> state == input,
            forall|j: int| 0 <= j < r ==> row_ok(#[trigger] rows@[j], j, *rc),
            forall|j: int| 0 <= j < r - 1 ==> #[trigger] rows@[j + 1].state_in == rows@[j].state_out,
        decreases 9 - r,
    {
        let row = build_row(state, rc, r);
        state = row.state_out;
        rows.push(row);
        r += 1;
    }
    proof {
        let s = rows@;
        assert forall|j: int| 0 <= j < s.len() implies row_ok(#[trigger] s[j], j % 9, *rc) by {
            assert(j % 9 == j);
        }
        assert forall|j: int| 0 <= j < s.len() - 1 implies transition_ok(#[trigger] s[j], s[j + 1]) by {
            assert(s[j + 1].state_in == s[j].state_out);
        }
    }
    rows
}

/// Traces of whole permutation calls compose: the concatenation of two traces
/// satisfies every constraint exactly when each of them does, since no transition
/// constraint links the last row of a call to the row after it.
pub proof fn lemma_trace_concat(a: Seq<Poseidon2Row>, b: Seq<Poseidon2Row>, rc: RoundConstants)
    requires
        a.len() % 9 == 0,
    ensures
        trace_ok(a + b, rc) <==> (trace_ok(a, rc) && trace_ok(b, rc)),
{
    let c = a + b;
    let q: int = a.len() as int / 9;
    assert(a.len() == 9 * q);
    assert forall|j: int| 0 <= j < b.len() implies #[trigger] c[a.len() + j] == b[j] by {}
    if trace_ok(a, rc) && trace_ok(b, rc) {
        vstd::arithmetic::div_mod::lemma_mod_multiples_vanish(q, b.len() as int, 9);
        assert(c.len() % 9 == 0);
        assert forall|j: int| 0 <= j < c.len() implies row_ok(#[trigger] c[j], j % 9, rc) by {
            if j >= a.len() {
                assert(c[a.len() + (j - a.len())] == b[j - a.len()]);
                vstd::arithmetic::div_mod::lemma_mod_multiples_vanish(q, j - a.len(), 9);
            }
        }
        assert forall|j: int| 0 <= j < c.len() - 1 implies transition_ok(#[trigger] c[j], c[j + 1]) by {
            if j + 1 < a.len() {
            } else if j + 1 == a.len() {
                vstd::arithmetic::div_mod::lemma_mod_multiples_vanish(q - 1, 8, 9);
                assert(row_ok(a[j], j % 9, rc));
            } else {
                assert(c[a.len() + (j - a.len())] == b[j - a.len()]);
                assert(c[a.len() + (j + 1 - a.len())] == b[j + 1 - a.len()]);
                assert(transition_ok(b[j - a.len()], b[j - a.len() + 1]));
            }
        }
    }
    if trace_ok(c, rc) {
        vstd::arithmetic::div_mod::lemma_mod_multiples_vanish(q, b.len() as int, 9);
        assert(b.len() % 9 == 0) by {
            vstd::arithmetic::div_mod::lemma_mod_multiples_vanish(q, b.len() as int, 9);
        }
        assert forall|j: int| 0 <= j < a.len() implies row_ok(#[trigger] a[j], j % 9, rc) by {
            assert(c[j] == a[j]);
        }
        assert forall|j: int| 0 <= j < a.len() - 1 implies transition_ok(#[trigger] a[j], a[j + 1]) by {
            assert(c[j] == a[j] && c[j + 1] == a[j + 1]);
        }
        assert forall|j: int| 0 <= j < b.len() implies row_ok(#[trigger] b[j], j % 9, rc) by {
            assert(c[a.len() + j] == b[j]);
            vstd::arithmetic::div_mod::lemma_mod_multiples_vanish(q, j, 9);
        }
        assert forall|j: int| 0 <= j < b.len() - 1 implies transition_ok(#[trigger] b[j], b[j + 1]) by {
            assert(c[a.len() + j] == b[j]);
            assert(c[a.len() + j + 1] == b[j + 1]);
            assert(transition_ok(c[a.len() + j], c[a.len() + j + 1]));
        }
    }
}

/// The constraints are sound: the rows of any permutation call that satisfy every
/// constraint, however they were built, carry the state through the round schedule,
/// so the last row leaves the permutation of the first row's input.
pub proof fn lemma_constraints_sound(rows: Seq<Poseidon2Row>, input: Seq<int>, rc: RoundConstants)
    requires
        instance_ok(rows, input, rc),
    ensures
        forall|j: int| 0 <= j < 9 ==> ints(#[trigger] rows[j].state_in@) == state_before_row(input, rc, j as nat),
        ints(rows[8].state_out@) == permutation(input, rc),
{
    lemma_states_along(rows, input, rc, 8);
    assert(row_ok(rows[8], 8int % 9, rc));
    lemma_row_step(rows[8], 8, rc);
}

/// Within a satisfying call, row `j` is entered by the state before row `j`.
proof fn lemma_states_along(rows: Seq<Poseidon2Row>, input: Seq<int>, rc: RoundConstants, j: nat)
    requires
        instance_ok(rows, input, rc),
        j < 9,
    ensures
        forall|n: int| 0 <= n <= j ==> ints(#[trigger] rows[n].state_in@) == state_before_row(input, rc, n as nat),
    decreases j,
{
    if j > 0 {
        lemma_states_along(rows, input, rc, (j - 1) as nat);
        let n = j - 1;
        assert(row_ok(rows[n], n % 9, rc));
        assert(n % 9 == n);
        lemma_row_step(rows[n], n, rc);
        assert(transition_ok(rows[n], rows[n + 1]));
    }
}

} // verus!
