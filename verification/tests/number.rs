use beam::ast::Scalar;

fn whole(x: f64) -> u32 {
    Scalar::from_bits(x.to_bits()).to_u32()
}

#[test]
fn whole_part_is_what_a_cast_gives() {
    let samples = [
        0.0,
        -0.0,
        0.4,
        0.999_999_999,
        1.0,
        1.5,
        2.0,
        100.0,
        1280.0,
        1920.99,
        65_535.7,
        4_294_967_294.0,
        4_294_967_295.0,
        4_294_967_295.9,
        4_294_967_296.0,
        1e10,
        1e300,
        -1.0,
        -0.5,
        -1e300,
        f64::MIN_POSITIVE,
        5e-324,
        f64::MAX,
        f64::INFINITY,
        f64::NEG_INFINITY,
        f64::NAN,
        -f64::NAN,
    ];
    for x in samples {
        assert_eq!(whole(x), x as u32, "{}", x);
        assert_eq!(Scalar::from_bits(x.to_bits()).to_u8(), x as u8, "{}", x);
    }
}

#[test]
fn whole_part_sweeps() {
    let mut bits: u64 = 0x3fe0_0000_0000_0000;
    while bits < 0x4200_0000_0000_0000 {
        let x = f64::from_bits(bits);
        assert_eq!(whole(x), x as u32, "{}", x);
        assert_eq!(whole(-x), 0);
        assert_eq!(Scalar::from_bits(bits).to_u8(), x as u8, "{}", x);
        bits += 0x0000_0137_9bdf_3571;
    }
    for n in [0u32, 1, 2, 3, 255, 256, 65_535, 65_536, 16_777_217, 2_147_483_648, u32::MAX] {
        assert_eq!(whole(n as f64), n);
        assert_eq!(whole(n as f64 + 0.5), n);
    }
}

#[test]
fn bytes_sweep() {
    for k in 0..=2560u32 {
        let x = k as f64 / 10.0;
        assert_eq!(Scalar::from_bits(x.to_bits()).to_u8(), x as u8, "{}", x);
    }
}
