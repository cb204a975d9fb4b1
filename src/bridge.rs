//! The bridge between an instruction and the chip: the instruction names 16
//! consecutive input addresses and 16 consecutive output addresses; the bridge
//! reads the input, runs the permutation and emits the memory claims that the
//! shared memory argument reconciles. The chip never writes memory itself.
use vstd::prelude::*;
use crate::field::all_elems;
use crate::linear::ints;
use crate::permutation::{RoundConstants, permutation, permute};
use crate::chip::ChipError;

verus! {

/// A permutation instruction: a multiplicity for each output word, the output
/// addresses and the input addresses, all word offsets into memory.
#[derive(Clone, Copy, Debug, PartialEq, Eq)]
pub struct Poseidon2Instr {
    pub mults: [u32; 16],
    pub output_addrs: [u32; 16],
    pub input_addrs: [u32; 16],
}

/// A claim handed to the memory argument: a read or a write of `value` at `addr`
/// at time `timestamp`, counted `multiplicity` times.
#[derive(Clone, Copy, Debug, PartialEq, Eq)]
pub struct MemoryClaim {
    pub addr: u32,
    pub value: u32,
    pub timestamp: u32,
    pub is_write: bool,
    pub multiplicity: u32,
}

/// The 16 addresses are consecutive words.
pub open spec fn contiguous(a: Seq<u32>) -> bool {
    forall|i: int| 0 <= i < 16 ==> #[trigger] a[i] as int == a[0] as int + i
}

/// Both address ranges of the instruction are 16 consecutive words.
pub open spec fn shape_ok(instr: Poseidon2Instr) -> bool {
    contiguous(instr.input_addrs@) && contiguous(instr.output_addrs@)
}

/// The claims of one instruction: a read of each input word, then a write of each
/// output word with its multiplicity, all at `timestamp`.
pub open spec fn claims_of(instr: Poseidon2Instr, input: Seq<u32>, output: Seq<u32>, timestamp: u32) -> Seq<MemoryClaim> {
    Seq::new(
        32,
        |j: int|
            if j < 16 {
                MemoryClaim {
                    addr: instr.input_addrs@[j],
                    value: input[j],
                    timestamp,
                    is_write: false,
                    multiplicity: 1,
                }
            } else {
                MemoryClaim {
                    addr: instr.output_addrs@[j - 16],
                    value: output[j - 16],
                    timestamp,
                    is_write: true,
                    multiplicity: instr.mults@[j - 16],
                }
            },
    )
}

/// Whether the 16 addresses are consecutive words.
pub fn is_contiguous(a: &[u32; 16]) -> (r: bool)
    ensures
        r == contiguous(a@),
{
    let mut i: usize = 1;
    while i < 16
        invariant
            1 <= i <= 16,
            forall|n: int| 0 <= n < i ==> #[trigger] a@[n] as int == a@[0] as int + n,
        decreases 16 - i,
    {
        if a[i] as u64 != a[0] as u64 + i as u64 {
            return false;
        }
        i += 1;
    }
    true
}

/// Runs one permutation instruction on the words `input` read at its input
/// addresses: returns the memory claims and the output. Fails when an address
/// range is not 16 consecutive words or an input word is not a canonical field
/// element.
pub fn execute_instr(instr: &Poseidon2Instr, input: [u32; 16], rc: &RoundConstants, timestamp: u32) -> (r: Result<(Vec<MemoryClaim>, [u32; 16]), ChipError>)
    requires
        rc.wf(),
    ensures
        !shape_ok(*instr) ==> r == Err::<(Vec<MemoryClaim>, [u32; 16]), ChipError>(ChipError::AddressRange),
        shape_ok(*instr) && !all_elems(input@) ==> r == Err::<(Vec<MemoryClaim>, [u32; 16]), ChipError>(ChipError::InputOutOfRange),
        shape_ok(*instr) && all_elems(input@) ==> r.is_ok(),
        r matches Ok(p) ==> ints(p.1@) == permutation(ints(input@), *rc) && p.0@ == claims_of(*instr, input@, p.1@, timestamp),
{
    if !is_contiguous(&instr.input_addrs) || !is_contiguous(&instr.output_addrs) {
        return Err(ChipError::AddressRange);
    }
    if !crate::air::all_canonical(&input) {
        return Err(ChipError::InputOutOfRange);
    }
    let output = permute(input, rc);
    let mut claims: Vec<MemoryClaim> = Vec::new();
    let mut i: usize = 0;
    while i < 16
        invariant
            i <= 16,
            claims@ == claims_of(*instr, input@, output@, timestamp).take(i as int),
        decreases 16 - i,
    {
        claims.push(MemoryClaim {
            addr: instr.input_addrs[i],
            value: input[i],
            timestamp,
            is_write: false,
            multiplicity: 1,
        });
        proof {
            assert(claims@ =~= claims_of(*instr, input@, output@, timestamp).take(i as int + 1));
        }
        i += 1;
    }
    let mut k: usize = 0;
    while k < 16
        invariant
            k <= 16,
            claims@ == claims_of(*instr, input@, output@, timestamp).take(16 + k as int),
        decreases 16 - k,
    {
        claims.push(MemoryClaim {
            addr: instr.output_addrs[k],
            value: output[k],
            timestamp,
            is_write: true,
            multiplicity: instr.mults[k],
        });
        proof {
            assert(claims@ =~= claims_of(*instr, input@, output@, timestamp).take(16 + k as int + 1));
        }
        k += 1;
    }
    proof {
        assert(claims@ =~= claims_of(*instr, input@, output@, timestamp));
    }
    Ok((claims, output))
}

} // verus!
