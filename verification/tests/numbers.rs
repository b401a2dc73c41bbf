use oximite::single::Single;

fn next(seed: &mut u64) -> u32 {
    *seed = seed.wrapping_mul(6364136223846793005).wrapping_add(1442695040888963407);
    (*seed >> 32) as u32
}

fn hardware(x: Single) -> f32 {
    f32::from_bits(x.to_bits())
}

fn check(name: &str, a: f32, b: f32, got: Single, want: f32) {
    if want.is_nan() {
        assert!(got.is_nan(), "{} {:?} {:?}: {:x}", name, a, b, got.to_bits());
    } else {
        assert_eq!(
            got.to_bits(),
            want.to_bits(),
            "{} {:?} ({:x}) {:?} ({:x})",
            name,
            a,
            a.to_bits(),
            b,
            b.to_bits()
        );
    }
}

fn check_pair(x: u32, y: u32) {
    let (p, q) = (Single::from_bits(x), Single::from_bits(y));
    let (a, b) = (f32::from_bits(x), f32::from_bits(y));
    check("add", a, b, p.add(q), a + b);
    check("sub", a, b, p.sub(q), a - b);
    check("mul", a, b, p.mul(q), a * b);
    check("div", a, b, p.div(q), a / b);
    assert_eq!(p.lt(q), a < b);
    assert_eq!(p.le(q), a <= b);
    assert_eq!(p.gt(q), a > b);
    assert_eq!(p.ge(q), a >= b);
    assert_eq!(p == q, a == b);
    assert_eq!(p.is_positive(), a > 0.0);
    assert_eq!(p.is_nan(), a.is_nan());
    assert_eq!(p.to_u64(), a as u64);
    assert_eq!(p.to_u32(), a as u32);
    assert_eq!(p.to_u8(), a as u8);
    assert_eq!(p.to_i32(), a as i32);
    let largest: f32 = a.max(b);
    if largest == 0.0 {
        assert!(hardware(p.max(q)) == 0.0);
    } else {
        check("max", a, b, p.max(q), largest);
    }
    assert_eq!(Single::from_u32(x).to_bits(), (x as f32).to_bits());
    assert_eq!(Single::from_i32(x as i32).to_bits(), (x as i32 as f32).to_bits());
    let wide: u64 = ((x as u64) << 32) | y as u64;
    assert_eq!(Single::from_u64(wide).to_bits(), (wide as f32).to_bits());
}

#[test]
fn arithmetic_matches_the_hardware_on_special_values() {
    let values: Vec<u32> = vec![
        0x0000_0000, 0x8000_0000, 0x0000_0001, 0x8000_0001, 0x007F_FFFF, 0x0080_0000, 0x0080_0001,
        0x3F80_0000, 0xBF80_0000, 0x3F80_0001, 0x3F7F_FFFF, 0x4B7F_FFFF, 0x4B80_0000, 0x7F7F_FFFF,
        0xFF7F_FFFF, 0x7F80_0000, 0xFF80_0000, 0x7FC0_0000, 0x3F00_0000, 0x3EAA_AAAB, 0x5F00_0000,
        0x4F00_0000, 0xCF00_0000, 0x4F7F_FFFF, 0x437F_0000, 0x4380_0000,
    ];
    for x in values.iter() {
        for y in values.iter() {
            check_pair(*x, *y);
        }
    }
}

#[test]
fn arithmetic_matches_the_hardware_on_random_bits() {
    let mut seed: u64 = 1;
    for _ in 0..60_000 {
        let x: u32 = next(&mut seed);
        let y: u32 = next(&mut seed);
        check_pair(x, y);
    }
}

#[test]
fn arithmetic_matches_the_hardware_on_close_exponents() {
    let mut seed: u64 = 7;
    for _ in 0..60_000 {
        let r: u32 = next(&mut seed);
        let e: u32 = 100 + r % 50;
        let f: u32 = e + (r >> 8) % 30 - 15;
        let x: u32 = (e << 23) | (next(&mut seed) & 0x807F_FFFF);
        let y: u32 = (f << 23) | (next(&mut seed) & 0x807F_FFFF);
        check_pair(x, y);
    }
}

#[test]
fn arithmetic_matches_the_hardware_near_underflow() {
    let mut seed: u64 = 99;
    for _ in 0..40_000 {
        let x: u32 = next(&mut seed) & 0x81FF_FFFF;
        let y: u32 = 0x3E00_0000 | (next(&mut seed) & 0x81FF_FFFF);
        check_pair(x, y);
        check_pair(y, x);
    }
}

#[test]
fn decimal_constants_match_the_compiler() {
    let cases: Vec<(u32, u32, f32)> = vec![
        (21, 1000, 0.021),
        (7876, 10_000, 0.7876),
        (2, 10, 0.2),
        (8, 10, 0.8),
        (1, 100, 0.01),
        (255, 100, 2.55),
        (75, 10, 7.5),
        (25, 1000, 0.025),
        (1, 3, 1.0 / 3.0),
        (0, 5, 0.0),
    ];
    for (n, d, want) in cases {
        assert_eq!(Single::ratio(n, d).to_bits(), want.to_bits());
    }
}

#[test]
fn clamp_keeps_the_bounds() {
    let (low, high) = (Single::from_u32(0), Single::from_u32(100));
    for v in [-5.0f32, 0.0, 3.5, 100.0, 250.0, f32::INFINITY, f32::NEG_INFINITY] {
        let got: Single = Single::from_bits(v.to_bits()).clamp(low, high);
        assert_eq!(hardware(got), v.clamp(0.0, 100.0));
    }
    assert!(Single::from_bits(f32::NAN.to_bits()).clamp(low, high).is_nan());
}

#[test]
fn negation_changes_the_sign() {
    for v in [0.0f32, -0.0, 1.5, -2.25, f32::INFINITY] {
        assert_eq!(Single::from_bits(v.to_bits()).neg().to_bits(), (-v).to_bits());
    }
    assert_eq!(hardware(Single::negative_infinity()), f32::NEG_INFINITY);
}
