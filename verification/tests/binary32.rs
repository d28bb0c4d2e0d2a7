use claw_rag_service::binary32::is_greater;
use claw_rag_service::binary32::ZERO;

#[test]
fn comparison_agrees_with_the_hardware() {
    let numbers = [
        0.0f32,
        -0.0,
        f32::from_bits(1),
        -f32::from_bits(1),
        f32::MIN_POSITIVE,
        f32::from_bits(0x007f_ffff),
        0.1,
        0.2,
        -0.1,
        0.99999994,
        1.0,
        1.0000001,
        -1.0,
        2.0,
        1.0e30,
        f32::MAX,
        f32::MIN,
        f32::INFINITY,
        f32::NEG_INFINITY,
        f32::NAN,
        -f32::NAN,
        f32::from_bits(0x7f80_0001),
    ];
    for a in numbers {
        for b in numbers {
            assert_eq!(is_greater(a.to_bits(), b.to_bits()), a > b, "{a} {b}");
        }
    }
}

#[test]
fn zero_has_no_bits() {
    assert_eq!(ZERO, 0.0f32.to_bits());
}
