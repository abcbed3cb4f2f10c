//! The arithmetic of `Real` against the machine's own binary64 arithmetic.

use almagest::number::Real;

fn num(x: f64) -> Real {
    Real::from_bits(x.to_bits())
}

fn same(got: Real, want: f64) -> bool {
    if want.is_nan() {
        got.is_nan()
    } else {
        got.to_bits() == want.to_bits()
    }
}

struct Stream(u64);

impl Stream {
    fn next(&mut self) -> u64 {
        self.0 ^= self.0 << 13;
        self.0 ^= self.0 >> 7;
        self.0 ^= self.0 << 17;
        self.0
    }
}

fn notable() -> Vec<f64> {
    let mut v = vec![
        0.0,
        -0.0,
        1.0,
        -1.0,
        2.0,
        0.5,
        3.0,
        1000.0,
        0.1,
        0.0167,
        1e308,
        -1e308,
        1.7976931348623157e308,
        2.2250738585072014e-308,
        2.225073858507201e-308,
        5e-324,
        -5e-324,
        1e-310,
        f64::INFINITY,
        f64::NEG_INFINITY,
        f64::NAN,
        147_097_000_000.0,
        0.9833,
        9007199254740992.0,
        9007199254740993.0,
        4503599627370496.5,
        1.0000000000000002,
        0.9999999999999999,
    ];
    let mut s = Stream(0x9E37_79B9_7F4A_7C15);
    for _ in 0..40 {
        v.push(f64::from_bits(s.next()));
    }
    v
}

#[test]
fn sums_agree_with_the_machine() {
    let v = notable();
    for &a in &v {
        for &b in &v {
            assert!(same(num(a) + num(b), a + b), "{:e} + {:e}", a, b);
            assert!(same(num(a) - num(b), a - b), "{:e} - {:e}", a, b);
        }
    }
}

#[test]
fn products_agree_with_the_machine() {
    let v = notable();
    for &a in &v {
        for &b in &v {
            assert!(same(num(a) * num(b), a * b), "{:e} * {:e}", a, b);
        }
    }
}

#[test]
fn quotients_agree_with_the_machine() {
    let v = notable();
    for &a in &v {
        for &b in &v {
            assert!(same(num(a) / num(b), a / b), "{:e} / {:e}", a, b);
        }
    }
}

#[test]
fn roots_agree_with_the_machine() {
    let v = notable();
    for &a in &v {
        assert!(same(num(a).sqrt(), a.sqrt()), "sqrt {:e}", a);
        assert!(same(num(a).sqrt(), libm::sqrt(a)), "sqrt {:e}", a);
    }
}

#[test]
fn random_sums_agree_with_the_machine() {
    let mut s = Stream(0x1234_5678_9ABC_DEF1);
    for _ in 0..20000 {
        let a = f64::from_bits(s.next());
        let near = f64::from_bits(a.to_bits() ^ (s.next() & 0x003F_FFFF_FFFF_FFFF));
        let b = if s.next() % 2 == 0 { near } else { f64::from_bits(s.next()) };
        assert!(same(num(a) + num(b), a + b), "{:e} + {:e}", a, b);
        assert!(same(num(a) - num(b), a - b), "{:e} - {:e}", a, b);
    }
}

#[test]
fn random_products_agree_with_the_machine() {
    let mut s = Stream(0x0F0F_1234_5678_9ABC);
    for _ in 0..20000 {
        let a = f64::from_bits(s.next());
        let mirror = f64::from_bits((0x7FE0_0000_0000_0000 - (a.to_bits() & 0x7FF0_0000_0000_0000))
            | (s.next() & 0x800F_FFFF_FFFF_FFFF));
        let b = if s.next() % 2 == 0 { mirror } else { f64::from_bits(s.next()) };
        assert!(same(num(a) * num(b), a * b), "{:e} * {:e}", a, b);
    }
}

#[test]
fn random_quotients_agree_with_the_machine() {
    let mut s = Stream(0x0BAD_5EED_0BAD_5EED);
    for _ in 0..20000 {
        let a = f64::from_bits(s.next());
        let near = f64::from_bits(a.to_bits() ^ (s.next() & 0x003F_FFFF_FFFF_FFFF));
        let b = if s.next() % 2 == 0 { near } else { f64::from_bits(s.next()) };
        assert!(same(num(a) / num(b), a / b), "{:e} / {:e}", a, b);
    }
}

#[test]
fn random_roots_agree_with_the_machine() {
    let mut s = Stream(0x7777_1111_3333_5555);
    for _ in 0..20000 {
        let a = f64::from_bits(s.next() & 0x7FFF_FFFF_FFFF_FFFF);
        assert!(same(num(a).sqrt(), a.sqrt()), "sqrt {:e}", a);
        assert!(same(num(a).sqrt(), libm::sqrt(a)), "sqrt {:e}", a);
    }
}

#[test]
fn comparisons_agree_with_the_machine() {
    let v = notable();
    for &a in &v {
        for &b in &v {
            assert_eq!(num(a) == num(b), a == b, "{:e} == {:e}", a, b);
            assert_eq!(num(a) < num(b), a < b, "{:e} < {:e}", a, b);
            assert_eq!(num(a) <= num(b), a <= b, "{:e} <= {:e}", a, b);
            assert_eq!(num(a) > num(b), a > b, "{:e} > {:e}", a, b);
            assert_eq!(num(a) >= num(b), a >= b, "{:e} >= {:e}", a, b);
            assert_eq!(num(a).partial_cmp(&num(b)), a.partial_cmp(&b));
        }
    }
}

fn structured() -> Vec<f64> {
    let mut v = Vec::new();
    for k in [1u32, 2, 26, 27, 52, 53] {
        for j in [-1074i32, -1060, -1023, -1022, -540, -53, -1, 0, 1, 52, 511, 970, 1022, 1023] {
            for delta in [-1.0f64, 0.0, 1.0] {
                let m = (1u64 << k) as f64 + delta;
                let mut x = m;
                // Scale in two steps so that the factor itself stays finite and normal.
                let half = j / 2;
                x *= 2f64.powi(half);
                x *= 2f64.powi(j - half);
                v.push(x);
                v.push(-x);
            }
        }
    }
    v
}

#[test]
fn structured_sums_agree_with_the_machine() {
    let v = structured();
    for &a in &v {
        for &b in &v {
            assert!(same(num(a) + num(b), a + b), "{:e} + {:e}", a, b);
            assert!(same(num(a) - num(b), a - b), "{:e} - {:e}", a, b);
        }
    }
}

#[test]
fn structured_products_agree_with_the_machine() {
    let v = structured();
    for &a in &v {
        for &b in &v {
            assert!(same(num(a) * num(b), a * b), "{:e} * {:e}", a, b);
        }
    }
}

#[test]
fn structured_quotients_agree_with_the_machine() {
    let v = structured();
    for &a in &v {
        for &b in &v {
            assert!(same(num(a) / num(b), a / b), "{:e} / {:e}", a, b);
        }
    }
}

#[test]
fn structured_roots_agree_with_the_machine() {
    for &a in &structured() {
        assert!(same(num(a).sqrt(), a.sqrt()), "sqrt {:e}", a);
        assert!(same(num(a * a).sqrt(), (a * a).sqrt()), "sqrt {:e}", a * a);
    }
}
