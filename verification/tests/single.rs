use c41_darkroom::single::Single;

fn lcg(seed: &mut u64) -> u64 {
    *seed = seed
        .wrapping_mul(6364136223846793005)
        .wrapping_add(1442695040888963407);
    *seed >> 16
}

fn patterns() -> Vec<u32> {
    let mut v: Vec<u32> = vec![
        0,
        1,
        2,
        0x007f_ffff,
        0x0080_0000,
        0x0080_0001,
        0x3f80_0000,
        0x3f7f_ffff,
        0x3f80_0001,
        0x4b00_0000,
        0x4b7f_ffff,
        0x4b80_0000,
        0x7f7f_ffff,
        0x7f80_0000,
        0x7fc0_0000,
        0x7f80_0001,
        0x3eaa_aaab,
        0x3f00_0000,
        0x3fc0_0000,
        0x4020_0000,
    ];
    let n = v.len();
    for i in 0..n {
        let p = v[i] | 0x8000_0000;
        v.push(p);
    }
    let mut seed = 42u64;
    for _ in 0..400 {
        v.push(lcg(&mut seed) as u32);
    }
    // numbers of everyday size
    for _ in 0..400 {
        let e = 100 + (lcg(&mut seed) % 60) as u32;
        let s = ((lcg(&mut seed) % 2) as u32) << 31;
        v.push(s | (e << 23) | (lcg(&mut seed) as u32 & 0x7f_ffff));
    }
    v
}

fn same(a: Single, b: f32) -> bool {
    if b.is_nan() {
        a.is_nan()
    } else {
        a.bits == b.to_bits()
    }
}

#[test]
fn arithmetic_matches_the_machine() {
    let ps = patterns();
    for &x in &ps {
        for &y in &ps {
            let (a, b) = (Single { bits: x }, Single { bits: y });
            let (p, q) = (f32::from_bits(x), f32::from_bits(y));
            assert!(same(a.plus(b), p + q), "{p:e} + {q:e}");
            assert!(same(a.minus(b), p - q), "{p:e} - {q:e}");
            assert!(same(a.times(b), p * q), "{p:e} * {q:e}");
            assert!(same(a.over(b), p / q), "{p:e} / {q:e}");
            assert_eq!(a.less(b), p < q);
            assert_eq!(a.at_most(b), p <= q);
            if !p.is_nan() && !q.is_nan() && !(p == 0.0 && q == 0.0) {
                assert!(same(a.smaller(b), p.min(q)));
                assert!(same(a.larger(b), p.max(q)));
            }
        }
    }
}

#[test]
fn one_place_operations_match_the_machine() {
    for &x in &patterns() {
        let a = Single { bits: x };
        let p = f32::from_bits(x);
        assert!(same(a.rounded(), p.round()), "round {p:e}");
        assert!(same(a.square_root(), p.sqrt()), "sqrt {p:e}");
        assert!(same(a.abs(), p.abs()));
        assert!(same(a.neg(), -p));
        assert_eq!(a.to_int(u64::MAX), p as u64, "{p:e}");
        assert_eq!(a.to_int(255), p as u8 as u64, "{p:e}");
    }
}

#[test]
fn whole_numbers_and_fractions_match_the_machine() {
    let mut seed = 7u64;
    for i in 0..2000u64 {
        let v = if i < 1000 { i } else { lcg(&mut seed) };
        assert!(same(Single::whole(v), v as f32));
    }
    assert!(same(Single::whole(u64::MAX), u64::MAX as f32));
    assert!(same(Single::ratio(28, 100), 0.28));
    assert!(same(Single::ratio(1333, 1000), 1.333));
    assert!(same(Single::ratio(6, 1000), 0.006));
    assert!(same(Single::ratio(222537, 1000000), 0.222537));
    assert!(same(Single::ratio(1, 3), 1.0 / 3.0));
}
