use p3_field::PrimeField32;
use p3_koala_bear::KoalaBear;
use p3_poseidon2::{matmul_internal, mds_light_permutation, MDSMat4};
use poseidon2_skinny::field::{f_add, f_mul, P};
use poseidon2_skinny::linear::{external_linear_layer, internal_diag, internal_linear_layer};

fn sample(seed: u64) -> [u32; 16] {
    let mut s = [0u32; 16];
    let mut x = seed;
    for i in 0..16 {
        x = (x * 6_364_136_223 + 1_442_695_040_888_963) % (P as u64);
        s[i] = x as u32;
    }
    s
}

fn to_kb(v: &[u32; 16]) -> [KoalaBear; 16] {
    v.map(KoalaBear::new)
}

fn from_kb(v: &[KoalaBear; 16]) -> [u32; 16] {
    v.map(|x| x.as_canonical_u32())
}

#[test]
fn order_matches_koala_bear() {
    assert_eq!(P, KoalaBear::ORDER_U32);
}

#[test]
fn field_ops_match_koala_bear() {
    for seed in 1..6u64 {
        let a = sample(seed);
        let b = sample(seed + 50);
        for i in 0..16 {
            let (x, y) = (KoalaBear::new(a[i]), KoalaBear::new(b[i]));
            assert_eq!(f_add(a[i], b[i]), (x + y).as_canonical_u32());
            assert_eq!(f_mul(a[i], b[i]), (x * y).as_canonical_u32());
        }
    }
}

#[test]
fn external_layer_matches_upstream() {
    for seed in 1..8u64 {
        let v = sample(seed);
        let mut mine = v;
        external_linear_layer(&mut mine);
        let mut theirs = to_kb(&v);
        mds_light_permutation(&mut theirs, &MDSMat4);
        assert_eq!(mine, from_kb(&theirs));
    }
}

#[test]
fn internal_layer_matches_upstream() {
    let o = KoalaBear::ORDER_U32;
    let diag = KoalaBear::new_array([
        o - 2,
        1,
        2,
        (o + 1) >> 1,
        3,
        4,
        (o - 1) >> 1,
        o - 3,
        o - 4,
        o - ((o - 1) >> 8),
        o - ((o - 1) >> 3),
        o - 127,
        (o - 1) >> 8,
        (o - 1) >> 3,
        (o - 1) >> 4,
        127,
    ]);
    assert_eq!(internal_diag(), from_kb(&diag));
    for seed in 1..8u64 {
        let v = sample(seed);
        let mut mine = v;
        internal_linear_layer(&mut mine);
        let mut theirs = to_kb(&v);
        matmul_internal(&mut theirs, diag);
        assert_eq!(mine, from_kb(&theirs));
    }
}
