//! The constraint system: evaluation of the constraints of each row, of each pair of
//! adjacent rows, and of a whole trace.
use vstd::prelude::*;
use crate::field::{P, fe, all_elems, f_add, f_mul};
use crate::linear::{ints, external_linear_layer, internal_linear_layer};
use crate::permutation::{RoundConstants, add_round_constants};
use crate::trace::{
    Poseidon2Row, all_zero, internal_prev, external_cells_ok, internal_step_ok, internal_cells_ok,
    row_canonical, row_ok, transition_ok, trace_ok,
};

verus! {

/// Two sequences whose entries are equal as integers are equal.
pub proof fn lemma_ints_injective(a: Seq<u32>, b: Seq<u32>)
    requires
        ints(a) == ints(b),
    ensures
        a == b,
{
    assert(a.len() == ints(a).len());
    assert(b.len() == ints(b).len());
    assert forall|i: int| 0 <= i < a.len() implies a[i] == b[i] by {
        assert(ints(a)[i] == ints(b)[i]);
        assert(ints(a)[i] == a[i] as int);
        assert(ints(b)[i] == b[i] as int);
    }
    assert(a =~= b);
}

/// Whether every entry is a canonical field element.
pub fn all_canonical(s: &[u32]) -> (r: bool)
    ensures
        r == all_elems(s@),
{
    let mut i: usize = 0;
    while i < s.len()
        invariant
            i <= s@.len(),
            forall|n: int| 0 <= n < i ==> #[trigger] s@[n] < P,
        decreases s@.len() - i,
    {
        if s[i] >= P {
            return false;
        }
        i += 1;
    }
    true
}

/// Whether every entry is zero.
fn all_zero_entries(s: &[u32]) -> (r: bool)
    ensures
        r == all_zero(s@),
{
    let mut i: usize = 0;
    while i < s.len()
        invariant
            i <= s@.len(),
            forall|n: int| 0 <= n < i ==> #[trigger] s@[n] == 0,
        decreases s@.len() - i,
    {
        if s[i] != 0 {
            return false;
        }
        i += 1;
    }
    true
}

/// Whether the two sequences are equal.
fn same_entries(a: &[u32], b: &[u32]) -> (r: bool)
    ensures
        r == (a@ == b@),
{
    if a.len() != b.len() {
        return false;
    }
    let mut i: usize = 0;
    while i < a.len()
        invariant
            a@.len() == b@.len(),
            i <= a@.len(),
            forall|n: int| 0 <= n < i ==> #[trigger] a@[n] == b@[n],
        decreases a@.len() - i,
    {
        if a[i] != b[i] {
            return false;
        }
        i += 1;
    }
    proof {
        assert(a@ =~= b@);
    }
    true
}

/// Whether every cell of the row is canonical.
fn row_canonical_exec(row: &Poseidon2Row) -> (r: bool)
    ensures
        r == row_canonical(*row),
{
    if !(all_canonical(&row.state_in) && all_canonical(&row.sbox_in) && all_canonical(&row.sbox_sq)
        && all_canonical(&row.sbox_cube) && all_canonical(&row.internal_in)
        && all_canonical(&row.internal_sq) && all_canonical(&row.internal_cube)
        && all_canonical(&row.state_out)) {
        return false;
    }
    let mut k: usize = 0;
    while k < 13
        invariant
            k <= 13,
            forall|n: int| 0 <= n < k ==> all_elems(#[trigger] row.internal_states@[n]@),
        decreases 13 - k,
    {
        if !all_canonical(&row.internal_states[k]) {
            return false;
        }
        k += 1;
    }
    true
}

/// Whether the cells of an external row satisfy the constraints of the external
/// round with constants `c`.
fn eval_external_cells(row: &Poseidon2Row, c: &[u32; 16]) -> (r: bool)
    requires
        row_canonical(*row),
        all_elems(c@),
    ensures
        r == external_cells_ok(*row, ints(c@)),
{
    let mut expected_in = row.state_in;
    add_round_constants(&mut expected_in, c);
    if !same_entries(&row.sbox_in, &expected_in) {
        proof {
            if ints(row.sbox_in@) == ints(expected_in@) {
                lemma_ints_injective(row.sbox_in@, expected_in@);
            }
        }
        return false;
    }
    let mut i: usize = 0;
    while i < 16
        invariant
            i <= 16,
            row_canonical(*row),
            forall|n: int| 0 <= n < i ==> #[trigger] row.sbox_sq@[n] as int == fe(row.sbox_in@[n] * row.sbox_in@[n]),
            forall|n: int| 0 <= n < i ==> #[trigger] row.sbox_cube@[n] as int == fe(row.sbox_sq@[n] * row.sbox_in@[n]),
        decreases 16 - i,
    {
        if row.sbox_sq[i] != f_mul(row.sbox_in[i], row.sbox_in[i]) {
            return false;
        }
        if row.sbox_cube[i] != f_mul(row.sbox_sq[i], row.sbox_in[i]) {
            return false;
        }
        i += 1;
    }
    let mut expected_out = row.sbox_cube;
    external_linear_layer(&mut expected_out);
    if !same_entries(&row.state_out, &expected_out) {
        proof {
            if ints(row.state_out@) == ints(expected_out@) {
                lemma_ints_injective(row.state_out@, expected_out@);
            }
        }
        return false;
    }
    if !(all_zero_entries(&row.internal_in) && all_zero_entries(&row.internal_sq)
        && all_zero_entries(&row.internal_cube)) {
        return false;
    }
    let mut k: usize = 0;
    while k < 13
        invariant
            k <= 13,
            forall|n: int| 0 <= n < k ==> all_zero(#[trigger] row.internal_states@[n]@),
        decreases 13 - k,
    {
        if !all_zero_entries(&row.internal_states[k]) {
            return false;
        }
        k += 1;
    }
    true
}

/// Whether the cells of the internal row satisfy the constraints of the internal
/// rounds.
fn eval_internal_cells(row: &Poseidon2Row, rc: &RoundConstants) -> (r: bool)
    requires
        row_canonical(*row),
        rc.wf(),
    ensures
        r == internal_cells_ok(*row, *rc),
{
    let mut k: usize = 0;
    while k < 13
        invariant
            k <= 13,
            row_canonical(*row),
            rc.wf(),
            forall|n: int| 0 <= n < k ==> #[trigger] internal_step_ok(*row, *rc, n),
        decreases 13 - k,
    {
        let prev: [u32; 16] = if k == 0 { row.state_in } else { row.internal_states[k - 1] };
        proof {
            assert(ints(prev@) == internal_prev(*row, k as int));
            assert(all_elems(prev@));
        }
        if row.internal_in[k] != f_add(prev[0], rc.internal[k]) {
            proof {
                assert(internal_prev(*row, k as int)[0] == prev@[0] as int);
                assert(!internal_step_ok(*row, *rc, k as int));
            }
            return false;
        }
        if row.internal_sq[k] != f_mul(row.internal_in[k], row.internal_in[k]) {
            proof {
                assert(!internal_step_ok(*row, *rc, k as int));
            }
            return false;
        }
        if row.internal_cube[k] != f_mul(row.internal_sq[k], row.internal_in[k]) {
            proof {
                assert(!internal_step_ok(*row, *rc, k as int));
            }
            return false;
        }
        let mut expected = prev;
        expected[0] = row.internal_cube[k];
        proof {
            assert(ints(expected@) =~= ints(prev@).update(0, row.internal_cube@[k as int] as int));
        }
        internal_linear_layer(&mut expected);
        if !same_entries(&row.internal_states[k], &expected) {
            proof {
                if ints(row.internal_states@[k as int]@) == ints(expected@) {
                    lemma_ints_injective(row.internal_states@[k as int]@, expected@);
                }
                assert(!internal_step_ok(*row, *rc, k as int));
            }
            return false;
        }
        proof {
            assert(internal_step_ok(*row, *rc, k as int));
        }
        k += 1;
    }
    same_entries(&row.state_out, &row.internal_states[12]) && all_zero_entries(&row.sbox_in)
        && all_zero_entries(&row.sbox_sq) && all_zero_entries(&row.sbox_cube)
}

/// Whether row `r` of a permutation call satisfies every constraint on its own cells.
pub fn eval_row(row: &Poseidon2Row, r: usize, rc: &RoundConstants) -> (ok: bool)
    requires
        r < 9,
        rc.wf(),
    ensures
        ok == row_ok(*row, r as int, *rc),
{
    if !row_canonical_exec(row) {
        return false;
    }
    if row.is_external != (r != 4) || row.is_first != (r == 0) || row.is_last != (r == 8) {
        return false;
    }
    if r == 4 {
        eval_internal_cells(row, rc)
    } else {
        let e: usize = if r < 4 { r } else { r - 1 };
        let c = rc.external[e];
        proof {
            assert(all_elems(c@));
        }
        eval_external_cells(row, &c)
    }
}

/// Whether the transition constraint holds between a row and the next.
pub fn eval_transition(local: &Poseidon2Row, next: &Poseidon2Row) -> (ok: bool)
    ensures
        ok == transition_ok(*local, *next),
{
    local.is_last || same_entries(&next.state_in, &local.state_out)
}

/// Whether a trace satisfies every constraint.
pub fn eval_trace(rows: &Vec<Poseidon2Row>, rc: &RoundConstants) -> (ok: bool)
    requires
        rc.wf(),
    ensures
        ok == trace_ok(rows@, *rc),
{
    if rows.len() % 9 != 0 {
        return false;
    }
    let mut j: usize = 0;
    while j < rows.len()
        invariant
            j <= rows@.len(),
            rc.wf(),
            forall|n: int| 0 <= n < j ==> row_ok(#[trigger] rows@[n], n % 9, *rc),
            forall|n: int| 0 <= n < j && n + 1 < rows@.len() ==> transition_ok(#[trigger] rows@[n], rows@[n + 1]),
        decreases rows@.len() - j,
    {
        if !eval_row(&rows[j], j % 9, rc) {
            return false;
        }
        if j + 1 < rows.len() && !eval_transition(&rows[j], &rows[j + 1]) {
            return false;
        }
        j += 1;
    }
    true
}

/// Two rows hold the same value in every cell.
pub open spec fn same_cells(a: Poseidon2Row, b: Poseidon2Row) -> bool {
    &&& a.is_external == b.is_external
    &&& a.is_first == b.is_first
    &&& a.is_last == b.is_last
    &&& a.state_in@ == b.state_in@
    &&& a.sbox_in@ == b.sbox_in@
    &&& a.sbox_sq@ == b.sbox_sq@
    &&& a.sbox_cube@ == b.sbox_cube@
    &&& a.internal_in@ == b.internal_in@
    &&& a.internal_sq@ == b.internal_sq@
    &&& a.internal_cube@ == b.internal_cube@
    &&& forall|k: int| 0 <= k < 13 ==> #[trigger] a.internal_states@[k]@ == b.internal_states@[k]@
    &&& a.state_out@ == b.state_out@
}

/// A row that satisfies its constraints is determined by its position and the state
/// entering it: two such rows agree in every cell. So a correct row with any one
/// other cell changed violates a constraint.
pub proof fn lemma_row_determined(a: Poseidon2Row, b: Poseidon2Row, r: int, rc: RoundConstants)
    requires
        row_ok(a, r, rc),
        row_ok(b, r, rc),
        a.state_in@ == b.state_in@,
    ensures
        same_cells(a, b),
{
    if r == 4 {
        lemma_internal_determined(a, b, rc, 13);
        assert(a.internal_in@ =~= b.internal_in@);
        assert(a.internal_sq@ =~= b.internal_sq@);
        assert(a.internal_cube@ =~= b.internal_cube@);
        assert(a.sbox_in@ =~= b.sbox_in@);
        assert(a.sbox_sq@ =~= b.sbox_sq@);
        assert(a.sbox_cube@ =~= b.sbox_cube@);
    } else {
        lemma_ints_injective(a.sbox_in@, b.sbox_in@);
        assert(a.sbox_sq@ =~= b.sbox_sq@);
        assert(a.sbox_cube@ =~= b.sbox_cube@);
        lemma_ints_injective(a.state_out@, b.state_out@);
        assert(a.internal_in@ =~= b.internal_in@);
        assert(a.internal_sq@ =~= b.internal_sq@);
        assert(a.internal_cube@ =~= b.internal_cube@);
        assert forall|k: int| 0 <= k < 13 implies #[trigger] a.internal_states@[k]@ == b.internal_states@[k]@ by {
            assert(all_zero(a.internal_states@[k]@));
            assert(all_zero(b.internal_states@[k]@));
            assert(a.internal_states@[k]@ =~= b.internal_states@[k]@);
        }
    }
}

/// The first `k` internal rounds of two satisfying internal rows with the same input
/// agree in every cell.
proof fn lemma_internal_determined(a: Poseidon2Row, b: Poseidon2Row, rc: RoundConstants, k: nat)
    requires
        row_ok(a, 4, rc),
        row_ok(b, 4, rc),
        a.state_in@ == b.state_in@,
        k <= 13,
    ensures
        forall|n: int| 0 <= n < k ==> #[trigger] a.internal_in@[n] == b.internal_in@[n],
        forall|n: int| 0 <= n < k ==> #[trigger] a.internal_sq@[n] == b.internal_sq@[n],
        forall|n: int| 0 <= n < k ==> #[trigger] a.internal_cube@[n] == b.internal_cube@[n],
        forall|n: int| 0 <= n < k ==> #[trigger] a.internal_states@[n]@ == b.internal_states@[n]@,
    decreases k,
{
    if k > 0 {
        lemma_internal_determined(a, b, rc, (k - 1) as nat);
        let n = k - 1;
        assert(internal_step_ok(a, rc, n));
        assert(internal_step_ok(b, rc, n));
        assert(internal_prev(a, n) == internal_prev(b, n));
        assert(a.internal_in@[n] == b.internal_in@[n]);
        assert(a.internal_cube@[n] == b.internal_cube@[n]);
        lemma_ints_injective(a.internal_states@[n]@, b.internal_states@[n]@);
    }
}

} // verus!
