use rodio::converter::convert_sample;
use rodio::{DataConverter, Sample};

#[test]
fn lerp_u16_constraints() {
    let a = 12u16;
    let b = 31u16;
    assert_eq!(Sample::lerp(a, b, 0, 1), a);
    assert_eq!(Sample::lerp(a, b, 1, 1), b);

    assert_eq!(Sample::lerp(0, u16::MAX, 0, 1), 0);
    assert_eq!(Sample::lerp(0, u16::MAX, 1, 1), u16::MAX);
    // Zeroes
    assert_eq!(Sample::lerp(0u16, 0, 0, 1), 0);
    assert_eq!(Sample::lerp(0u16, 0, 1, 1), 0);
    // Downward changes
    assert_eq!(Sample::lerp(1u16, 0, 0, 1), 1);
    assert_eq!(Sample::lerp(1u16, 0, 1, 1), 0);
}

#[test]
fn lerp_i16_constraints() {
    let a = 12i16;
    let b = 31i16;
    assert_eq!(Sample::lerp(a, b, 0, 1), a);
    assert_eq!(Sample::lerp(a, b, 1, 1), b);

    assert_eq!(Sample::lerp(0, i16::MAX, 0, 1), 0);
    assert_eq!(Sample::lerp(0, i16::MAX, 1, 1), i16::MAX);
    assert_eq!(Sample::lerp(0, i16::MIN, 1, 1), i16::MIN);
    // Zeroes
    assert_eq!(Sample::lerp(0u16, 0, 0, 1), 0);
    assert_eq!(Sample::lerp(0u16, 0, 1, 1), 0);
    // Downward changes
    assert_eq!(Sample::lerp(a, i16::MIN, 0, 1), a);
    assert_eq!(Sample::lerp(a, i16::MIN, 1, 1), i16::MIN);
}

#[test]
fn lerp_midpoints_truncate_toward_first() {
    assert_eq!(Sample::lerp(12u16, 31, 1, 2), 21);
    assert_eq!(Sample::lerp(31u16, 12, 1, 2), 22);
    assert_eq!(Sample::lerp(-10i16, 5, 1, 3), -5);
    assert_eq!(Sample::lerp(5i16, -10, 2, 3), -5);
    assert_eq!(Sample::lerp(i16::MIN, i16::MAX, 1, 2), -1);
    assert_eq!(Sample::lerp(0u16, u16::MAX, 1, 2), 32767);
}

#[test]
fn lerp_large_fraction_stays_exact() {
    let d = u32::MAX;
    assert_eq!(Sample::lerp(0u16, u16::MAX, d, d), u16::MAX);
    assert_eq!(Sample::lerp(i16::MIN, i16::MAX, d - 1, d), i16::MAX - 1);
}

#[test]
fn lerp_within_one_step_of_exact_value() {
    let first = 1000u16;
    let second = 60001u16;
    for n in 0..=7u32 {
        let exact = first as f64 * (1.0 - n as f64 / 7.0) + second as f64 * n as f64 / 7.0;
        let got = Sample::lerp(first, second, n, 7) as f64;
        assert!((got - exact).abs() < 1.0);
    }
}

#[test]
fn zero_values_are_silence() {
    assert_eq!(<u16 as Sample>::zero_value(), 32768);
    assert_eq!(<i16 as Sample>::zero_value(), 0);
    assert!(32768u16.is_zero());
    assert!(!0u16.is_zero());
    assert!(0i16.is_zero());
    assert!(!1i16.is_zero());
}

#[test]
fn signed_conversions_shift_unsigned_values() {
    assert_eq!(40000u16.to_signed(), 7232);
    assert_eq!(0u16.to_signed(), i16::MIN);
    assert_eq!(<u16 as Sample>::from_signed(-1), 32767);
    assert_eq!(<u16 as Sample>::from_signed(i16::MAX), u16::MAX);
    assert_eq!((-7i16).to_signed(), -7);
}

#[test]
fn saturating_add_clamps() {
    assert_eq!(Sample::saturating_add(30000i16, 30000), i16::MAX);
    assert_eq!(Sample::saturating_add(-30000i16, -30000), i16::MIN);
    assert_eq!(Sample::saturating_add(100i16, -300), -200);
    assert_eq!(Sample::saturating_add(u16::MAX, u16::MAX), u16::MAX);
    assert_eq!(Sample::saturating_add(0u16, 0), 0);
    assert_eq!(Sample::saturating_add(32868u16, 32968), 33068);
    assert_eq!(Sample::saturating_add(i16::MAX, i16::MIN), -1);
}

#[test]
fn convert_sample_keeps_amplitude() {
    let u: u16 = convert_sample(-100i16);
    assert_eq!(u, 32668);
    let s: i16 = convert_sample(32668u16);
    assert_eq!(s, -100);
    let z: u16 = convert_sample(0i16);
    assert_eq!(z, 32768);
    let back: i16 = convert_sample(z);
    assert_eq!(back, 0);
}

#[test]
fn data_converter_round_trip() {
    let input: Vec<i16> = vec![0, 1, -1, i16::MIN, i16::MAX, 1234];
    let mut to_unsigned: DataConverter<_, u16> = DataConverter::new(input.clone().into_iter());
    let mut unsigned = Vec::new();
    while let Some(s) = to_unsigned.next() {
        unsigned.push(s);
    }
    assert_eq!(unsigned, vec![32768, 32769, 32767, 0, u16::MAX, 34002]);
    let mut to_signed: DataConverter<_, i16> = DataConverter::new(unsigned.into_iter());
    let mut back = Vec::new();
    while let Some(s) = to_signed.next() {
        back.push(s);
    }
    assert_eq!(back, input);
}

#[test]
fn data_converter_inner_access() {
    let mut conv: DataConverter<_, u16> = DataConverter::new(vec![5i16, 6, 7].into_iter());
    assert_eq!(conv.next(), Some(32773));
    assert_eq!(conv.inner_mut().next(), Some(6));
    let mut rest = conv.into_inner();
    assert_eq!(rest.next(), Some(7));
    assert_eq!(rest.next(), None);
}
