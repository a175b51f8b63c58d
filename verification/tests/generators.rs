//! Bit-exactness and edge behaviour of the two generators.

use seed_cracker::jkiss::Jkiss;
use seed_cracker::merchant::Platform;
use seed_cracker::mscorlib::MsCorLibRandom;
use seed_cracker::prng::get_prng;
use seed_cracker::unit::below_tenth;

/// A desktop generator whose next raw draw is exactly `g`.
fn ms_with_next(g: i32) -> MsCorLibRandom {
    let mut seed: Vec<i32> = vec![0i32; 56];
    seed[1] = g;
    seed[22] = 0;
    MsCorLibRandom { seed, n: 0, np: 21 }
}

#[test]
fn generator_determinism_console() {
    let mut a = get_prng(Platform::Switch, 987654321);
    let mut b = get_prng(Platform::Switch, 987654321);
    for _ in 0..200 {
        assert_eq!(a.gen_range(2, 790).unwrap(), b.gen_range(2, 790).unwrap());
        let ua = a.gen_float();
        let ub = b.gen_float();
        assert_eq!(ua.num, ub.num);
        assert_eq!(ua.den, ub.den);
        assert_eq!(ua.neg, ub.neg);
    }
}

#[test]
fn generator_determinism_desktop() {
    let mut a = get_prng(Platform::PC, -123456789);
    let mut b = get_prng(Platform::PC, -123456789);
    for _ in 0..200 {
        assert_eq!(a.gen_range(1, 11).unwrap(), b.gen_range(1, 11).unwrap());
        assert_eq!(a.gen_range(3, 6).unwrap(), b.gen_range(3, 6).unwrap());
        let ua = a.gen_float();
        let ub = b.gen_float();
        assert_eq!((ua.neg, ua.num, ua.den), (ub.neg, ub.num, ub.den));
    }
}

#[test]
fn singleton_range_returns_start() {
    for &a in &[-5i32, 0, 1, 7, 788, 2_000_000_000] {
        let mut j = get_prng(Platform::Switch, 42);
        assert_eq!(j.gen_range(a, a + 1).unwrap(), a);
        let mut m = get_prng(Platform::PC, 42);
        assert_eq!(m.gen_range(a, a + 1).unwrap(), a);
    }
}

#[test]
fn singleton_range_consumes_no_console_state() {
    let mut a = get_prng(Platform::Switch, 5);
    let mut b = get_prng(Platform::Switch, 5);
    let _ = a.gen_range(77, 78).unwrap();
    // the next draws still agree, so the width-one draw used no state
    for _ in 0..20 {
        assert_eq!(a.gen_range(2, 790).unwrap(), b.gen_range(2, 790).unwrap());
    }
}

#[test]
fn empty_range_fails_without_panicking() {
    let mut j = get_prng(Platform::Switch, 1);
    assert!(j.gen_range(5, 5).is_err());
    assert!(j.gen_range(7, 3).is_err());
    let mut m = get_prng(Platform::PC, 1);
    assert!(m.gen_range(5, 5).is_err());
    assert!(m.gen_range(7, 3).is_err());
    // both generators still work afterwards
    let v = j.gen_range(2, 790).unwrap();
    assert!((2..790).contains(&v));
    let w = m.gen_range(2, 790).unwrap();
    assert!((2..790).contains(&w));
}

#[test]
fn console_unit_draw_is_exact() {
    for seed in [0i32, 1, -1, 12345, i32::MIN, i32::MAX] {
        let mut jk = Jkiss::from_seed(seed);
        let mut twin = Jkiss::from_seed(seed);
        for _ in 0..50 {
            let u = jk.gen_float();
            let a = (twin.gen() >> 6) as f64;
            let b = (twin.gen() >> 6) as f64;
            let expected = (a * 134217728f64 + b) / 9007199254740992f64;
            assert_eq!(u.num as f64 / 9007199254740992f64, expected);
            assert_eq!(u.den, 53);
            assert!(!u.neg);
            assert_eq!(below_tenth(&u), expected < 0.1f64);
        }
    }
}

#[test]
fn desktop_scaling_matches_binary64() {
    let samples: Vec<i32> = vec![
        0,
        1,
        2,
        3,
        100,
        214748364,
        214748365,
        1073741823,
        1073741824,
        2147483645,
        2147483646,
        12345678,
        1987654321,
    ];
    for &g in &samples {
        for &diff in &[788u32, 10, 3, 1, 2147483647] {
            let mut rng = ms_with_next(g);
            let got = rng.gen_range(0, diff as i32).unwrap();
            let f = g as f64 * (1f64 / i32::MAX as f64);
            let expected = (f * diff as f64) as i32;
            assert_eq!(got, expected, "g={} diff={}", g, diff);
        }
    }
}

#[test]
fn desktop_decider_matches_binary64() {
    for g in [
        0i32,
        1,
        2,
        214748363,
        214748364,
        214748365,
        214748366,
        429496729,
        2147483646,
    ] {
        let mut rng = ms_with_next(g);
        let u = rng.gen_float();
        let expected = g as f64 * (1f64 / i32::MAX as f64);
        assert_eq!(below_tenth(&u), expected < 0.1f64, "g={}", g);
    }
}

#[test]
fn desktop_wide_range_matches_binary64() {
    for s in [0i32, 1, -7, 123456, i32::MAX - 2, -987654321] {
        let mut rng = MsCorLibRandom::from_seed(s);
        let mut twin = MsCorLibRandom::from_seed(s);
        let got = rng.gen_range(i32::MIN, i32::MAX).unwrap();
        let s1 = twin.gen();
        let s2 = twin.gen();
        let mut sample = s1;
        if s2 % 2 == 0 {
            sample = -sample;
        }
        let mut f = sample as f64;
        f += 2147483646f64;
        f /= 4294967293f64;
        let diff = (i32::MAX as u32).wrapping_sub(i32::MIN as u32);
        let expected = i32::MIN.wrapping_add((f * diff as f64) as u32 as i32);
        assert_eq!(got, expected, "seed={}", s);
    }
}

#[test]
fn desktop_seeding_matches_direct_recurrence() {
    // a second, direct rendering of the subtractive-generator seeding
    for &seed in &[0i32, 1, -1, 12345, -12345, i32::MIN, i32::MAX] {
        let subtraction: i32 = if seed == i32::MIN { i32::MAX } else { seed.wrapping_abs() };
        let mut arr = [0i32; 56];
        let mut mj: i32 = 161803398 - subtraction;
        arr[55] = mj;
        let mut mk: i32 = 1;
        for i in 1..55usize {
            let ii = (21 * i) % 55;
            arr[ii] = mk;
            mk = mj.wrapping_sub(mk);
            if mk < 0 {
                mk += i32::MAX;
            }
            mj = arr[ii];
        }
        for _ in 1..5 {
            for i in 1..56usize {
                arr[i] = arr[i].wrapping_sub(arr[1 + (i + 30) % 55]);
                if arr[i] < 0 {
                    arr[i] += i32::MAX;
                }
            }
        }
        let rng = MsCorLibRandom::from_seed(seed);
        assert_eq!(rng.seed, arr.to_vec());
        assert_eq!(rng.n, 0);
        assert_eq!(rng.np, 21);
    }
}

#[test]
fn console_stream_matches_direct_recurrence() {
    // a second, direct rendering of the combined generator
    for &seed in &[0i32, 1, -1, 12345, i32::MIN, i32::MAX] {
        let mut jk = Jkiss::from_seed(seed);
        let mut x = 314527869u32.wrapping_mul(seed as u32).wrapping_add(1234567);
        let mut y = 987654321u32;
        let mut z = 43219876u32;
        let mut c = 6543217u32;
        for _ in 0..100 {
            x = 314527869u32.wrapping_mul(x).wrapping_add(1234567);
            y ^= y << 5;
            y ^= y >> 7;
            y ^= y << 22;
            let t: u64 = 4294584393u64 * z as u64 + c as u64;
            z = t as u32;
            c = (t >> 32) as u32;
            let expected = x.wrapping_add(y).wrapping_add(z);
            assert_eq!(jk.gen(), expected);
        }
    }
}
