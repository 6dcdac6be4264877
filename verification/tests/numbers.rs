use flora::decorations::{generate_circle_rgba, RED_BUTTON_COLOR};
use flora::ieee::bits::{F32, F64};

fn next(seed: &mut u64) -> u64 {
    *seed ^= *seed << 13;
    *seed ^= *seed >> 7;
    *seed ^= *seed << 17;
    *seed
}

/// Bit patterns of all kinds: wild, near one another, small integers, special.
fn sample(seed: &mut u64) -> f64 {
    let raw = next(seed);
    match next(seed) % 8 {
        0 => f64::from_bits(raw),
        1 => (raw % 4000) as f64 - 2000.0,
        2 => ((raw % 400_000) as f64 - 200_000.0) / 256.0,
        3 => f64::from_bits((raw & 0x800f_ffff_ffff_ffff) | 0x3ff0_0000_0000_0000),
        4 => f64::from_bits(raw & 0x801f_ffff_ffff_ffff),
        5 => f64::from_bits((raw & 0x803f_ffff_ffff_ffff) | 0x7fc0_0000_0000_0000),
        6 => [0.0, -0.0, f64::INFINITY, f64::NEG_INFINITY, f64::NAN, 0.5, -0.5, 2.5]
            [(raw % 8) as usize],
        _ => f64::from_bits((raw & 0x8000_0000_0000_00ff) | 0x41d0_0000_0000_0000),
    }
}

fn same64(ours: F64, theirs: f64) -> bool {
    if theirs.is_nan() {
        f64::from_bits(ours.bits).is_nan()
    } else {
        ours.bits == theirs.to_bits()
    }
}

fn same32(ours: F32, theirs: f32) -> bool {
    if theirs.is_nan() {
        f32::from_bits(ours.bits).is_nan()
    } else {
        ours.bits == theirs.to_bits()
    }
}

#[test]
fn binary64_operations_agree_with_the_machine() {
    let mut seed = 0x9e37_79b9_7f4a_7c15u64;
    for _ in 0..60_000 {
        let x = sample(&mut seed);
        let y = sample(&mut seed);
        let a = F64 { bits: x.to_bits() };
        let b = F64 { bits: y.to_bits() };
        assert!(same64(a.plus(b), x + y), "{x:e} + {y:e}");
        assert!(same64(a.minus(b), x - y), "{x:e} - {y:e}");
        assert!(same64(a.times(b), x * y), "{x:e} * {y:e}");
        assert!(same64(a.over(b), x / y), "{x:e} / {y:e}");
        assert_eq!(a.is_less(b), x < y);
        assert_eq!(a.is_at_most(b), x <= y);
        assert_eq!(a.is_equal(b), x == y);
        assert_eq!(a.truncate(), x as i32);
        assert_eq!(a.round_to_i32(), x.round() as i32);
    }
}

#[test]
fn binary32_operations_agree_with_the_machine() {
    let mut seed = 0x1234_5678_9abc_def1u64;
    for _ in 0..60_000 {
        let x = if next(&mut seed) % 2 == 0 {
            f32::from_bits(next(&mut seed) as u32)
        } else {
            sample(&mut seed) as f32
        };
        let y = sample(&mut seed) as f32;
        let a = F32 { bits: x.to_bits() };
        let b = F32 { bits: y.to_bits() };
        assert!(same32(a.plus(b), x + y), "{x:e} + {y:e}");
        assert!(same32(a.minus(b), x - y), "{x:e} - {y:e}");
        assert!(same32(a.times(b), x * y), "{x:e} * {y:e}");
        assert!(same32(a.over(b), x / y), "{x:e} / {y:e}");
        assert!(same32(a.sqrt(), x.sqrt()), "sqrt {x:e}");
        assert_eq!(a.is_at_most(b), x <= y);
        assert_eq!(a.truncate_u8(), x as u8);
        let n = next(&mut seed) as i32;
        assert!(same32(F32::from_i64(n as i64), n as f32));
        assert!(same64(F64::from_i32(n), n as f64));
    }
}

fn circle_by_machine(size: u32, color: [u8; 4]) -> Vec<u8> {
    let mut data = vec![0u8; (size * size * 4) as usize];
    let center = size as f32 / 2.0;
    let radius = center - 0.5;
    for y in 0..size {
        for x in 0..size {
            let dx = x as f32 - center + 0.5;
            let dy = y as f32 - center + 0.5;
            let distance = (dx * dx + dy * dy).sqrt();
            let idx = ((y * size + x) * 4) as usize;
            if distance <= radius {
                data[idx..idx + 4].copy_from_slice(&color);
            } else if distance <= radius + 1.0 {
                let alpha = ((radius + 1.0 - distance) * color[3] as f32) as u8;
                data[idx..idx + 3].copy_from_slice(&color[..3]);
                data[idx + 3] = alpha;
            }
        }
    }
    data
}

#[test]
fn circles_agree_with_the_machine() {
    for size in [0, 1, 2, 3, 7, 12, 13, 64, 101] {
        for color in [RED_BUTTON_COLOR, [1, 2, 3, 200], [9, 9, 9, 0]] {
            assert_eq!(generate_circle_rgba(size, color), circle_by_machine(size, color));
        }
    }
}
