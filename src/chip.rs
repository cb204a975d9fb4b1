//! The chip: its configuration, checked once at construction, and the trace of a
//! batch of permutation calls.
use vstd::prelude::*;
use crate::field::{P, all_elems};
use crate::linear::ints;
use crate::permutation::{RoundConstants, permutation};
use crate::trace::{Poseidon2Row, trace_ok, instance_ok, generate_trace_rows, lemma_trace_concat};
use crate::air::eval_trace;

verus! {

/// The least constraint degree the S-box decomposition fits in.
pub const MIN_DEGREE: usize = 9;

/// Why a chip or a trace could not be built.
#[derive(Debug, Clone, Copy, PartialEq, Eq)]
pub enum ChipError {
    /// The constraint degree bound is below `MIN_DEGREE`.
    DegreeTooLow,
    /// A round constant is not a canonical field element.
    ConstantOutOfRange,
    /// An input entry is not a canonical field element.
    InputOutOfRange,
    /// An input state does not have exactly 16 entries.
    WrongWidth,
    /// An address range is not 16 consecutive words.
    AddressRange,
    /// The trace would have more rows than a `usize` counts.
    TooManyInstances,
}

/// The Poseidon2 chip in the skinny layout: one row per external round and one row
/// for all internal rounds.
pub struct Poseidon2SkinnyChip {
    degree: usize,
    constants: RoundConstants,
}

/// Every input of the batch is a vector of canonical field elements.
pub open spec fn inputs_canonical(inputs: Seq<[u32; 16]>) -> bool {
    forall|b: int| 0 <= b < inputs.len() ==> all_elems(#[trigger] inputs[b]@)
}

/// `rows` is the trace of the permutation calls on `inputs`, in order: block `b` of
/// nine rows is the call on `inputs[b]`, and its last row leaves the permutation
/// of `inputs[b]`.
pub open spec fn trace_of(rows: Seq<Poseidon2Row>, inputs: Seq<[u32; 16]>, rc: RoundConstants) -> bool {
    &&& rows.len() == 9 * inputs.len()
    &&& trace_ok(rows, rc)
    &&& forall|b: int| 0 <= b < inputs.len() ==> instance_ok(
        #[trigger] rows.subrange(9 * b, 9 * b + 9),
        ints(inputs[b]@),
        rc,
    )
    &&& forall|b: int| 0 <= b < inputs.len() ==> ints(#[trigger] rows[9 * b + 8].state_out@)
        == permutation(ints(inputs[b]@), rc)
}

impl Poseidon2SkinnyChip {
    /// The constraint degree bound.
    pub closed spec fn spec_degree(&self) -> usize {
        self.degree
    }

    /// The round constants.
    pub closed spec fn spec_constants(&self) -> RoundConstants {
        self.constants
    }

    /// The chip is configured with a degree bound of at least `MIN_DEGREE` and
    /// canonical constants.
    pub closed spec fn wf(&self) -> bool {
        self.degree >= MIN_DEGREE && self.constants.wf()
    }

    /// A chip with the constraint degree bound `degree` and the round constants
    /// `constants`; fails when the degree is below `MIN_DEGREE` or a constant is
    /// out of range.
    pub fn new(degree: usize, constants: RoundConstants) -> (r: Result<Self, ChipError>)
        ensures
            degree < MIN_DEGREE ==> r == Err::<Self, ChipError>(ChipError::DegreeTooLow),
            degree >= MIN_DEGREE && !constants.wf() ==> r == Err::<Self, ChipError>(ChipError::ConstantOutOfRange),
            degree >= MIN_DEGREE && constants.wf() ==> r.is_ok(),
            r matches Ok(c) ==> c.wf() && c.spec_degree() == degree && c.spec_constants() == constants,
    {
        if degree < MIN_DEGREE {
            return Err(ChipError::DegreeTooLow);
        }
        if !constants_canonical(&constants) {
            return Err(ChipError::ConstantOutOfRange);
        }
        Ok(Poseidon2SkinnyChip { degree, constants })
    }

    /// The constraint degree bound.
    pub fn degree(&self) -> (r: usize)
        ensures
            r == self.spec_degree(),
    {
        self.degree
    }

    /// The round constants.
    pub fn constants(&self) -> (r: &RoundConstants)
        ensures
            *r == self.spec_constants(),
    {
        &self.constants
    }

    /// The trace of the permutation calls on `inputs`, nine rows each, in order.
    /// Fails when an input entry is not canonical or the trace is too long to count.
    pub fn generate_trace(&self, inputs: &Vec<[u32; 16]>) -> (r: Result<Vec<Poseidon2Row>, ChipError>)
        requires
            self.wf(),
        ensures
            !inputs_canonical(inputs@) ==> r == Err::<Vec<Poseidon2Row>, ChipError>(ChipError::InputOutOfRange),
            inputs_canonical(inputs@) && 9 * inputs@.len() > usize::MAX ==> r
                == Err::<Vec<Poseidon2Row>, ChipError>(ChipError::TooManyInstances),
            inputs_canonical(inputs@) && 9 * inputs@.len() <= usize::MAX ==> r.is_ok(),
            r matches Ok(rows) ==> trace_of(rows@, inputs@, self.spec_constants()),
    {
        let mut b: usize = 0;
        while b < inputs.len()
            invariant
                b <= inputs@.len(),
                forall|n: int| 0 <= n < b ==> all_elems(#[trigger] inputs@[n]@),
            decreases inputs@.len() - b,
        {
            let input = inputs[b];
            if !crate::air::all_canonical(&input) {
                return Err(ChipError::InputOutOfRange);
            }
            b += 1;
        }
        if inputs.len() > usize::MAX / 9 {
            return Err(ChipError::TooManyInstances);
        }
        Ok(generate_trace(inputs, &self.constants))
    }

    /// Whether `rows` satisfies every constraint of the chip.
    pub fn eval(&self, rows: &Vec<Poseidon2Row>) -> (ok: bool)
        requires
            self.wf(),
        ensures
            ok == trace_ok(rows@, self.spec_constants()),
    {
        eval_trace(rows, &self.constants)
    }
}

/// Whether every round constant is a canonical field element.
fn constants_canonical(rc: &RoundConstants) -> (r: bool)
    ensures
        r == rc.wf(),
{
    let mut e: usize = 0;
    while e < 8
        invariant
            e <= 8,
            forall|n: int, i: int| 0 <= n < e && 0 <= i < 16 ==> #[trigger] rc.external@[n]@[i] < P,
        decreases 8 - e,
    {
        let c = rc.external[e];
        if !crate::air::all_canonical(&c) {
            return false;
        }
        e += 1;
    }
    crate::air::all_canonical(&rc.internal)
}

/// The trace of the permutation calls on `inputs`, nine rows each, in order.
pub fn generate_trace(inputs: &Vec<[u32; 16]>, rc: &RoundConstants) -> (rows: Vec<Poseidon2Row>)
    requires
        inputs_canonical(inputs@),
        rc.wf(),
        9 * inputs@.len() <= usize::MAX,
    ensures
        trace_of(rows@, inputs@, *rc),
{
    let mut rows: Vec<Poseidon2Row> = Vec::new();
    let mut b: usize = 0;
    while b < inputs.len()
        invariant
            b <= inputs@.len(),
            inputs_canonical(inputs@),
            rc.wf(),
            9 * inputs@.len() <= usize::MAX,
            trace_of(rows@, inputs@.take(b as int), *rc),
        decreases inputs@.len() - b,
    {
        let input = inputs[b];
        proof {
            assert(all_elems(inputs@[b as int]@));
        }
        let mut block = generate_trace_rows(input, rc);
        let ghost before = rows@;
        let ghost blk = block@;
        proof {
            lemma_trace_concat(before, blk, *rc);
        }
        rows.append(&mut block);
        proof {
            let ins = inputs@.take(b as int + 1);
            assert(rows@ == before + blk);
            assert forall|n: int| 0 <= n < ins.len() implies instance_ok(
                #[trigger] rows@.subrange(9 * n, 9 * n + 9),
                ints(ins[n]@),
                *rc,
            ) by {
                if n < b {
                    assert(rows@.subrange(9 * n, 9 * n + 9) =~= before.subrange(9 * n, 9 * n + 9));
                    assert(ins[n] == inputs@.take(b as int)[n]);
                } else {
                    assert(rows@.subrange(9 * n, 9 * n + 9) =~= blk);
                }
            }
            assert forall|n: int| 0 <= n < ins.len() implies ints(#[trigger] rows@[9 * n + 8].state_out@)
                == permutation(ints(ins[n]@), *rc) by {
                if n < b {
                    assert(rows@[9 * n + 8] == before[9 * n + 8]);
                    assert(ins[n] == inputs@.take(b as int)[n]);
                } else {
                    assert(rows@[9 * n + 8] == blk[8]);
                }
            }
        }
        b += 1;
    }
    proof {
        assert(inputs@.take(inputs@.len() as int) =~= inputs@);
    }
    rows
}

/// The permutation state held in `s`; fails when `s` does not have exactly 16
/// entries or an entry is not a canonical field element.
pub fn state_from_slice(s: &[u32]) -> (r: Result<[u32; 16], ChipError>)
    ensures
        s@.len() != 16 ==> r == Err::<[u32; 16], ChipError>(ChipError::WrongWidth),
        s@.len() == 16 && !all_elems(s@) ==> r == Err::<[u32; 16], ChipError>(ChipError::InputOutOfRange),
        s@.len() == 16 && all_elems(s@) ==> r.is_ok(),
        r matches Ok(a) ==> a@ == s@,
{
    if s.len() != 16 {
        return Err(ChipError::WrongWidth);
    }
    if !crate::air::all_canonical(s) {
        return Err(ChipError::InputOutOfRange);
    }
    let mut a: [u32; 16] = [0; 16];
    let mut i: usize = 0;
    while i < 16
        invariant
            i <= 16,
            s@.len() == 16,
            forall|n: int| 0 <= n < i ==> #[trigger] a@[n] == s@[n],
        decreases 16 - i,
    {
        a[i] = s[i];
        i += 1;
    }
    proof {
        assert(a@ =~= s@);
    }
    Ok(a)
}

} // verus!
