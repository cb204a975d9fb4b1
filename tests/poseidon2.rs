use poseidon2_skinny::bridge::{execute_instr, MemoryClaim, Poseidon2Instr};
use poseidon2_skinny::air::{eval_row, eval_trace, eval_transition};
use poseidon2_skinny::chip::{generate_trace, state_from_slice, ChipError, Poseidon2SkinnyChip};
use poseidon2_skinny::field::{f_add, f_double, f_mul, P};
use poseidon2_skinny::linear::{apply_m_4, external_linear_layer, internal_diag, internal_linear_layer};
use poseidon2_skinny::permutation::{permute, sbox, RoundConstants};
use poseidon2_skinny::trace::generate_trace_rows;

const PU: u64 = P as u64;

fn sample_constants() -> RoundConstants {
    let mut external = [[0u32; 16]; 8];
    for r in 0..8 {
        for i in 0..16 {
            external[r][i] = (((r * 16 + i + 1) as u64 * 1_000_003 + 17) % PU) as u32;
        }
    }
    let mut internal = [0u32; 13];
    for k in 0..13 {
        internal[k] = ((k as u64 * 2_654_435_761 + 5) % PU) as u32;
    }
    RoundConstants { external, internal }
}

fn zero_constants() -> RoundConstants {
    RoundConstants { external: [[0u32; 16]; 8], internal: [0u32; 13] }
}

fn sample_input(seed: u64) -> [u32; 16] {
    let mut s = [0u32; 16];
    let mut x = seed;
    for i in 0..16 {
        x = (x * 6_364_136_223 + 1_442_695_040_888_963) % PU;
        s[i] = x as u32;
    }
    s
}

// A plain matrix form of the permutation, for comparison.
fn ext_matrix() -> [[u64; 16]; 16] {
    let m4 = [[2u64, 3, 1, 1], [1, 2, 3, 1], [1, 1, 2, 3], [3, 1, 1, 2]];
    let mut m = [[0u64; 16]; 16];
    for i in 0..16 {
        for j in 0..16 {
            let f = if i / 4 == j / 4 { 2 } else { 1 };
            m[i][j] = f * m4[i % 4][j % 4];
        }
    }
    m
}

fn mat_vec(m: &[[u64; 16]; 16], v: &[u32; 16]) -> [u32; 16] {
    let mut out = [0u32; 16];
    for i in 0..16 {
        let mut acc = 0u64;
        for j in 0..16 {
            acc = (acc + m[i][j] * v[j] as u64) % PU;
        }
        out[i] = acc as u32;
    }
    out
}

fn reference_internal(v: &[u32; 16]) -> [u32; 16] {
    let d = internal_diag();
    let sum: u64 = v.iter().map(|x| *x as u64).sum::<u64>() % PU;
    let mut out = [0u32; 16];
    for i in 0..16 {
        out[i] = ((sum + d[i] as u64 * v[i] as u64) % PU) as u32;
    }
    out
}

fn cube_ref(x: u32) -> u32 {
    let x = x as u64;
    (x * x % PU * x % PU) as u32
}

fn reference_permute(input: [u32; 16], rc: &RoundConstants) -> [u32; 16] {
    let m = ext_matrix();
    let mut s = input;
    let ext_round = |s: &mut [u32; 16], c: &[u32; 16]| {
        for i in 0..16 {
            s[i] = cube_ref(((s[i] as u64 + c[i] as u64) % PU) as u32);
        }
        *s = mat_vec(&m, s);
    };
    for r in 0..4 {
        ext_round(&mut s, &rc.external[r]);
    }
    for k in 0..13 {
        s[0] = cube_ref(((s[0] as u64 + rc.internal[k] as u64) % PU) as u32);
        s = reference_internal(&s);
    }
    for r in 4..8 {
        ext_round(&mut s, &rc.external[r]);
    }
    s
}

#[test]
fn field_operations() {
    assert_eq!(f_add(P - 1, 2), 1);
    assert_eq!(f_double(P - 1), P - 2);
    assert_eq!(f_mul(P - 1, P - 1), 1);
    assert_eq!(f_mul(123_456, 654_321), ((123_456u64 * 654_321) % PU) as u32);
    assert_eq!(sbox(2), (4, 8));
    assert_eq!(sbox(P - 1), (1, P - 1));
}

#[test]
fn mix4_small_values() {
    let mut x = [1u32, 2, 3, 4];
    apply_m_4(&mut x);
    assert_eq!(x, [15, 18, 21, 16]);
}

#[test]
fn mix4_zero_and_ones() {
    let mut z = [0u32; 4];
    apply_m_4(&mut z);
    assert_eq!(z, [0, 0, 0, 0]);
    let mut o = [1u32; 4];
    apply_m_4(&mut o);
    assert_eq!(o, [7, 7, 7, 7]);
}

#[test]
fn mix4_matches_matrix_product() {
    let m4 = [[2u64, 3, 1, 1], [1, 2, 3, 1], [1, 1, 2, 3], [3, 1, 1, 2]];
    for seed in 1..20u64 {
        let v = sample_input(seed);
        let mut x = [v[0], v[1], v[2], v[3]];
        apply_m_4(&mut x);
        for r in 0..4 {
            let want: u64 = (0..4).map(|c| m4[r][c] * v[c] as u64).sum::<u64>() % PU;
            assert_eq!(x[r] as u64, want);
        }
    }
}

#[test]
fn mix4_wraps_modulo_p() {
    let mut x = [P - 1; 4];
    apply_m_4(&mut x);
    assert_eq!(x, [P - 7; 4]);
}

#[test]
fn external_layer_ones() {
    let mut s = [1u32; 16];
    external_linear_layer(&mut s);
    assert_eq!(s, [35u32; 16]);
}

#[test]
fn external_layer_zero() {
    let mut s = [0u32; 16];
    external_linear_layer(&mut s);
    assert_eq!(s, [0u32; 16]);
}

#[test]
fn external_layer_is_additive() {
    for seed in 1..10u64 {
        let v = sample_input(seed);
        let w = sample_input(seed + 100);
        let mut sum = [0u32; 16];
        for i in 0..16 {
            sum[i] = f_add(v[i], w[i]);
        }
        let (mut lv, mut lw) = (v, w);
        external_linear_layer(&mut lv);
        external_linear_layer(&mut lw);
        external_linear_layer(&mut sum);
        for i in 0..16 {
            assert_eq!(sum[i], f_add(lv[i], lw[i]));
        }
    }
}

#[test]
fn external_layer_matches_matrix() {
    let m = ext_matrix();
    for seed in 1..10u64 {
        let v = sample_input(seed);
        let mut s = v;
        external_linear_layer(&mut s);
        assert_eq!(s, mat_vec(&m, &v));
    }
}

#[test]
fn internal_diag_values() {
    let d = internal_diag();
    assert_eq!(d[0], P - 2);
    assert_eq!(d[3], (P + 1) / 2);
    assert_eq!(d[9], P - ((P - 1) >> 8));
    assert_eq!(d[14], (P - 1) >> 4);
    assert_eq!(d[15], 127);
}

#[test]
fn internal_layer_closed_form() {
    for seed in 1..10u64 {
        let v = sample_input(seed);
        let mut s = v;
        internal_linear_layer(&mut s);
        assert_eq!(s, reference_internal(&v));
    }
}

#[test]
fn internal_layer_ones() {
    let mut s = [1u32; 16];
    internal_linear_layer(&mut s);
    let d = internal_diag();
    for i in 0..16 {
        assert_eq!(s[i] as u64, (16 + d[i] as u64) % PU);
    }
    assert_eq!(s[1], 17);
    assert_eq!(s[0], 14);
}

#[test]
fn permute_zero_is_zero_without_constants() {
    assert_eq!(permute([0u32; 16], &zero_constants()), [0u32; 16]);
}

#[test]
fn permute_matches_matrix_reference() {
    let rc = sample_constants();
    assert_eq!(permute([1u32; 16], &rc), reference_permute([1u32; 16], &rc));
    for seed in 1..5u64 {
        let v = sample_input(seed);
        assert_eq!(permute(v, &rc), reference_permute(v, &rc));
    }
    let zc = zero_constants();
    assert_eq!(permute([1u32; 16], &zc), reference_permute([1u32; 16], &zc));
}

#[test]
fn trace_has_nine_rows_and_output() {
    let rc = sample_constants();
    let input = [1u32; 16];
    let rows = generate_trace_rows(input, &rc);
    assert_eq!(rows.len(), 9);
    assert_eq!(rows[0].state_in, input);
    assert_eq!(rows[8].state_out, permute(input, &rc));
    for r in 0..9 {
        assert_eq!(rows[r].is_external, r != 4);
        assert_eq!(rows[r].is_first, r == 0);
        assert_eq!(rows[r].is_last, r == 8);
    }
    for r in 0..8 {
        assert_eq!(rows[r + 1].state_in, rows[r].state_out);
    }
}

#[test]
fn constraints_hold_on_built_trace() {
    let rc = sample_constants();
    for input in [[1u32; 16], sample_input(7)] {
        let rows = generate_trace_rows(input, &rc);
        for r in 0..9 {
            assert!(eval_row(&rows[r], r, &rc));
        }
        assert!(eval_trace(&rows, &rc));
    }
}

#[test]
fn flipped_cell_breaks_a_constraint() {
    let rc = sample_constants();
    let rows = generate_trace_rows(sample_input(3), &rc);
    let bump = |x: u32| if x + 1 == P { 0 } else { x + 1 };
    for r in 0..9 {
        for i in 0..16 {
            let mut row = rows[r];
            if r == 4 {
                row.internal_states[i % 13][i] = bump(row.internal_states[i % 13][i]);
            } else {
                row.sbox_sq[i] = bump(row.sbox_sq[i]);
            }
            assert!(!eval_row(&row, r, &rc));
            let mut row = rows[r];
            row.state_out[i] = bump(row.state_out[i]);
            assert!(!eval_row(&row, r, &rc));
        }
        for k in 0..13 {
            let mut row = rows[r];
            row.internal_cube[k] = bump(row.internal_cube[k]);
            assert!(!eval_row(&row, r, &rc));
            let mut row = rows[r];
            row.internal_in[k] = bump(row.internal_in[k]);
            assert!(!eval_row(&row, r, &rc));
        }
    }
    let mut bad = generate_trace_rows(sample_input(3), &rc);
    bad[3].state_in[5] = bump(bad[3].state_in[5]);
    assert!(!eval_trace(&bad, &rc));
}

#[test]
fn two_instances_are_independent() {
    let rc = sample_constants();
    let a = [1u32; 16];
    let b = sample_input(11);
    let rows = generate_trace(&vec![a, b], &rc);
    assert_eq!(rows.len(), 18);
    assert!(eval_trace(&rows, &rc));
    assert!(rows[8].is_last);
    assert!(eval_transition(&rows[8], &rows[9]));
    assert_ne!(rows[9].state_in, rows[8].state_out);
    assert_eq!(rows[8].state_out, permute(a, &rc));
    assert_eq!(rows[17].state_out, permute(b, &rc));
    let single_b = generate_trace_rows(b, &rc);
    for r in 0..9 {
        assert_eq!(rows[9 + r].state_out, single_b[r].state_out);
        assert_eq!(rows[9 + r].state_in, single_b[r].state_in);
    }
}

#[test]
fn chip_rejects_low_degree() {
    assert!(matches!(Poseidon2SkinnyChip::new(8, sample_constants()), Err(ChipError::DegreeTooLow)));
    assert!(matches!(Poseidon2SkinnyChip::new(0, sample_constants()), Err(ChipError::DegreeTooLow)));
    let chip = Poseidon2SkinnyChip::new(9, sample_constants()).ok().unwrap();
    assert_eq!(chip.degree(), 9);
}

#[test]
fn chip_rejects_constant_out_of_range() {
    let mut rc = sample_constants();
    rc.internal[12] = P;
    assert!(matches!(Poseidon2SkinnyChip::new(9, rc), Err(ChipError::ConstantOutOfRange)));
}

#[test]
fn chip_rejects_input_out_of_range() {
    let chip = Poseidon2SkinnyChip::new(9, sample_constants()).ok().unwrap();
    let mut bad = [1u32; 16];
    bad[15] = P;
    assert!(matches!(chip.generate_trace(&vec![[1u32; 16], bad]), Err(ChipError::InputOutOfRange)));
}

#[test]
fn chip_builds_and_checks_trace() {
    let chip = Poseidon2SkinnyChip::new(9, sample_constants()).ok().unwrap();
    let rows = chip.generate_trace(&vec![[1u32; 16], sample_input(2), sample_input(5)]).ok().unwrap();
    assert_eq!(rows.len(), 27);
    assert!(chip.eval(&rows));
    assert_eq!(rows[26].state_out, permute(sample_input(5), chip.constants()));
    let empty = chip.generate_trace(&vec![]).ok().unwrap();
    assert_eq!(empty.len(), 0);
    assert!(chip.eval(&empty));
}

fn instr(input_base: u32, output_base: u32) -> Poseidon2Instr {
    let mut input_addrs = [0u32; 16];
    let mut output_addrs = [0u32; 16];
    for i in 0..16 {
        input_addrs[i] = input_base + i as u32;
        output_addrs[i] = output_base + i as u32;
    }
    Poseidon2Instr { mults: [1u32; 16], output_addrs, input_addrs }
}

#[test]
fn bridge_emits_reads_then_writes() {
    let rc = sample_constants();
    let ins = instr(0, 16);
    let input = [1u32; 16];
    let (claims, out) = execute_instr(&ins, input, &rc, 7).ok().unwrap();
    assert_eq!(out, permute(input, &rc));
    assert_eq!(claims.len(), 32);
    for i in 0..16 {
        assert_eq!(
            claims[i],
            MemoryClaim { addr: i as u32, value: 1, timestamp: 7, is_write: false, multiplicity: 1 }
        );
        assert_eq!(
            claims[16 + i],
            MemoryClaim { addr: 16 + i as u32, value: out[i], timestamp: 7, is_write: true, multiplicity: 1 }
        );
    }
}

#[test]
fn test_poseidon2() {
    let chip = Poseidon2SkinnyChip::new(9, sample_constants()).ok().unwrap();
    let rc = *chip.constants();
    let input = [1u32; 16];
    let input_1 = sample_input(9);
    let (c0, output) = execute_instr(&instr(0, 16), input, &rc, 1).ok().unwrap();
    let (c1, output_1) = execute_instr(&instr(32, 48), input_1, &rc, 2).ok().unwrap();
    assert_eq!(output, permute(input, &rc));
    assert_eq!(output_1, permute(input_1, &rc));
    assert_eq!(c0[0].addr, 0);
    assert_eq!(c0[31].addr, 31);
    assert_eq!(c1[0].addr, 32);
    assert_eq!(c1[31].addr, 63);
    let rows = chip.generate_trace(&vec![input, input_1]).ok().unwrap();
    if !chip.eval(&rows) {
        panic!("Verification failed: {:?}", rows.len());
    }
    assert_eq!(rows[8].state_out, output);
    assert_eq!(rows[17].state_out, output_1);
}

#[test]
fn bridge_rejects_gap_in_addresses() {
    let rc = sample_constants();
    let mut ins = instr(0, 16);
    ins.input_addrs[5] = 100;
    assert!(matches!(execute_instr(&ins, [1u32; 16], &rc, 0), Err(ChipError::AddressRange)));
    let mut ins = instr(0, 16);
    ins.output_addrs[15] = 0;
    assert!(matches!(execute_instr(&ins, [1u32; 16], &rc, 0), Err(ChipError::AddressRange)));
    let mut ins = instr(0, 16);
    for i in 0..16 {
        ins.output_addrs[i] = (u32::MAX - 3).wrapping_add(i as u32);
    }
    assert!(matches!(execute_instr(&ins, [1u32; 16], &rc, 0), Err(ChipError::AddressRange)));
}

#[test]
fn bridge_rejects_input_out_of_range() {
    let rc = sample_constants();
    let mut input = [1u32; 16];
    input[0] = u32::MAX;
    assert!(matches!(execute_instr(&instr(0, 16), input, &rc, 0), Err(ChipError::InputOutOfRange)));
}

#[test]
fn state_width_is_checked() {
    let v: Vec<u32> = (1..=16).collect();
    let s = state_from_slice(&v).ok().unwrap();
    assert_eq!(s[0], 1);
    assert_eq!(s[15], 16);
    assert!(matches!(state_from_slice(&v[..15]), Err(ChipError::WrongWidth)));
    let mut long = v.clone();
    long.push(0);
    assert!(matches!(state_from_slice(&long), Err(ChipError::WrongWidth)));
    assert!(matches!(state_from_slice(&[]), Err(ChipError::WrongWidth)));
    let mut bad = v.clone();
    bad[3] = P;
    assert!(matches!(state_from_slice(&bad), Err(ChipError::InputOutOfRange)));
}
