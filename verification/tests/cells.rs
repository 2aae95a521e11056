//! The arithmetic of cells.

use matebabe::cell::{
    apply_int_binary, apply_int_shift, apply_long_binary, apply_long_shift, apply_narrow,
    extend_byte, extend_short, from_signed, join_long, long_from_signed, long_to_signed,
    negate_int, negate_long, order_longs, split_long, test_cond, to_signed, widen_int, Binary,
    Cond, Narrow, Shift,
};

fn cell(v: i32) -> u32 {
    v as u32
}

fn bits(v: i64) -> u64 {
    v as u64
}

#[test]
fn cells_are_read_as_signed_numbers() {
    assert_eq!(to_signed(0), 0);
    assert_eq!(to_signed(0x7fff_ffff), i32::MAX);
    assert_eq!(to_signed(0x8000_0000), i32::MIN);
    assert_eq!(to_signed(0xffff_ffff), -1);
    assert_eq!(from_signed(-1), 0xffff_ffff);
    assert_eq!(from_signed(i32::MIN), 0x8000_0000);
    assert_eq!(from_signed(5), 5);
    assert_eq!(long_to_signed(0xffff_ffff_ffff_fffe), -2);
    assert_eq!(long_to_signed(0x8000_0000_0000_0000), i64::MIN);
    assert_eq!(long_from_signed(-2), 0xffff_ffff_ffff_fffe);
    for v in [0, 1, -1, 77, i32::MIN, i32::MAX] {
        assert_eq!(to_signed(from_signed(v)), v);
    }
}

#[test]
fn long_is_split_high_word_first() {
    assert_eq!(split_long(0x0123_4567_89ab_cdef), (0x0123_4567, 0x89ab_cdef));
    assert_eq!(join_long(0x0123_4567, 0x89ab_cdef), 0x0123_4567_89ab_cdef);
    assert_eq!(split_long(1), (0, 1));
    assert_eq!(split_long(bits(-1)), (0xffff_ffff, 0xffff_ffff));
    for v in [0u64, 1, 0xffff_ffff, 0x1_0000_0000, u64::MAX] {
        let (high, low) = split_long(v);
        assert_eq!(join_long(high, low), v);
    }
}

#[test]
fn operand_bytes_are_sign_extended() {
    assert_eq!(extend_byte(2), 2);
    assert_eq!(extend_byte(0x7f), 127);
    assert_eq!(extend_byte(0x80), cell(-128));
    assert_eq!(extend_byte(0xff), cell(-1));
    assert_eq!(extend_short(0x7fff), 32767);
    assert_eq!(extend_short(0x8000), cell(-32768));
    assert_eq!(extend_short(0xfffe), cell(-2));
}

#[test]
fn int_arithmetic_wraps() {
    assert_eq!(apply_int_binary(Binary::Add, 2, 3), Some(5));
    assert_eq!(apply_int_binary(Binary::Add, cell(i32::MAX), 1), Some(cell(i32::MIN)));
    assert_eq!(apply_int_binary(Binary::Sub, 2, 3), Some(cell(-1)));
    assert_eq!(apply_int_binary(Binary::Sub, cell(i32::MIN), 1), Some(cell(i32::MAX)));
    assert_eq!(apply_int_binary(Binary::Mul, cell(-3), 7), Some(cell(-21)));
    assert_eq!(apply_int_binary(Binary::Mul, cell(-3), cell(-7)), Some(21));
    assert_eq!(
        apply_int_binary(Binary::Mul, cell(0x10000), cell(0x10000)),
        Some(0)
    );
    assert_eq!(
        apply_int_binary(Binary::Mul, cell(i32::MAX), cell(i32::MAX)),
        Some(cell(i32::MAX.wrapping_mul(i32::MAX)))
    );
    assert_eq!(negate_int(5), cell(-5));
    assert_eq!(negate_int(cell(i32::MIN)), cell(i32::MIN));
    assert_eq!(negate_int(0), 0);
}

#[test]
fn int_division_truncates_toward_zero() {
    assert_eq!(apply_int_binary(Binary::Div, 7, 2), Some(3));
    assert_eq!(apply_int_binary(Binary::Div, cell(-7), 2), Some(cell(-3)));
    assert_eq!(apply_int_binary(Binary::Div, 7, cell(-2)), Some(cell(-3)));
    assert_eq!(apply_int_binary(Binary::Div, cell(-7), cell(-2)), Some(3));
    assert_eq!(apply_int_binary(Binary::Rem, 7, 2), Some(1));
    assert_eq!(apply_int_binary(Binary::Rem, cell(-7), 2), Some(cell(-1)));
    assert_eq!(apply_int_binary(Binary::Rem, 7, cell(-2)), Some(1));
    assert_eq!(apply_int_binary(Binary::Rem, cell(-7), cell(-2)), Some(cell(-1)));
}

#[test]
fn division_by_zero_has_no_result() {
    for dividend in [0, 1, cell(-1), cell(i32::MIN), cell(i32::MAX)] {
        assert_eq!(apply_int_binary(Binary::Div, dividend, 0), None);
        assert_eq!(apply_int_binary(Binary::Rem, dividend, 0), None);
    }
    for dividend in [0, 1, bits(-1), bits(i64::MIN)] {
        assert_eq!(apply_long_binary(Binary::Div, dividend, 0), None);
        assert_eq!(apply_long_binary(Binary::Rem, dividend, 0), None);
    }
}

#[test]
fn least_int_divided_by_minus_one_is_the_least_int() {
    assert_eq!(
        apply_int_binary(Binary::Div, cell(i32::MIN), cell(-1)),
        Some(cell(i32::MIN))
    );
    assert_eq!(apply_int_binary(Binary::Rem, cell(i32::MIN), cell(-1)), Some(0));
    assert_eq!(
        apply_long_binary(Binary::Div, bits(i64::MIN), bits(-1)),
        Some(bits(i64::MIN))
    );
    assert_eq!(apply_long_binary(Binary::Rem, bits(i64::MIN), bits(-1)), Some(0));
}

#[test]
fn bitwise_operations() {
    assert_eq!(apply_int_binary(Binary::And, 0b1100, 0b1010), Some(0b1000));
    assert_eq!(apply_int_binary(Binary::Or, 0b1100, 0b1010), Some(0b1110));
    assert_eq!(apply_int_binary(Binary::Xor, 0b1100, 0b1010), Some(0b0110));
    assert_eq!(apply_long_binary(Binary::And, 0xff00_0000_0000_00ff, 0x0f0f_0000_0000_0f0f), Some(0x0f00_0000_0000_000f));
    assert_eq!(apply_long_binary(Binary::Or, 0xf0, 0x0f), Some(0xff));
    assert_eq!(apply_long_binary(Binary::Xor, u64::MAX, 1), Some(u64::MAX - 1));
}

#[test]
fn long_arithmetic_wraps() {
    assert_eq!(apply_long_binary(Binary::Add, bits(i64::MAX), 1), Some(bits(i64::MIN)));
    assert_eq!(apply_long_binary(Binary::Sub, 0, 1), Some(bits(-1)));
    assert_eq!(apply_long_binary(Binary::Mul, bits(-4), 5), Some(bits(-20)));
    assert_eq!(apply_long_binary(Binary::Mul, 1 << 32, 1 << 32), Some(0));
    assert_eq!(apply_long_binary(Binary::Div, bits(-9), 2), Some(bits(-4)));
    assert_eq!(apply_long_binary(Binary::Rem, bits(-9), 2), Some(bits(-1)));
    assert_eq!(apply_long_binary(Binary::Div, 9, bits(-2)), Some(bits(-4)));
    assert_eq!(negate_long(1), bits(-1));
    assert_eq!(negate_long(bits(i64::MIN)), bits(i64::MIN));
}

#[test]
fn int_shifts_use_five_bits_of_the_count() {
    assert_eq!(apply_int_shift(Shift::Left, 1, 4), 16);
    assert_eq!(apply_int_shift(Shift::Left, 1, 31), 0x8000_0000);
    assert_eq!(apply_int_shift(Shift::Left, 1, 32), 1);
    assert_eq!(apply_int_shift(Shift::Left, 1, 33), 2);
    assert_eq!(apply_int_shift(Shift::Left, 3, cell(-1)), 0x8000_0000);
    assert_eq!(apply_int_shift(Shift::Right, cell(-16), 2), cell(-4));
    assert_eq!(apply_int_shift(Shift::Right, cell(-16), 34), cell(-4));
    assert_eq!(apply_int_shift(Shift::Right, cell(-1), 31), cell(-1));
    assert_eq!(apply_int_shift(Shift::RightLogical, cell(-16), 2), 0x3fff_fffc);
    assert_eq!(apply_int_shift(Shift::RightLogical, cell(-16), 34), 0x3fff_fffc);
    assert_eq!(apply_int_shift(Shift::RightLogical, cell(-1), 31), 1);
    for op in [Shift::Left, Shift::Right, Shift::RightLogical] {
        for a in [1u32, 0x8000_0001, 0xdead_beef] {
            for s in [0u32, 1, 31, 32, 33, 63, 64, 0xffff_ffe1] {
                assert_eq!(apply_int_shift(op, a, s), apply_int_shift(op, a, s & 0x1f));
            }
        }
    }
}

#[test]
fn long_shifts_use_six_bits_of_the_count() {
    assert_eq!(apply_long_shift(Shift::Left, 1, 32), 0x1_0000_0000);
    assert_eq!(apply_long_shift(Shift::Left, 1, 63), 0x8000_0000_0000_0000);
    assert_eq!(apply_long_shift(Shift::Left, 1, 64), 1);
    assert_eq!(apply_long_shift(Shift::Left, 1, 65), 2);
    assert_eq!(apply_long_shift(Shift::Right, bits(-16), 2), bits(-4));
    assert_eq!(apply_long_shift(Shift::Right, bits(-16), 66), bits(-4));
    assert_eq!(apply_long_shift(Shift::RightLogical, bits(-1), 63), 1);
    assert_eq!(apply_long_shift(Shift::RightLogical, bits(-1), 127), 1);
    for op in [Shift::Left, Shift::Right, Shift::RightLogical] {
        for a in [1u64, 0x8000_0000_0000_0001, 0xdead_beef_0bad_f00d] {
            for s in [0u32, 1, 63, 64, 65, 0xffff_ffc1] {
                assert_eq!(apply_long_shift(op, a, s), apply_long_shift(op, a, s & 0x3f));
            }
        }
    }
}

#[test]
fn narrowing_keeps_the_low_bits() {
    assert_eq!(apply_narrow(Narrow::Byte, 0x1ff), cell(-1));
    assert_eq!(apply_narrow(Narrow::Byte, 0x17f), 127);
    assert_eq!(apply_narrow(Narrow::Byte, 0x80), cell(-128));
    assert_eq!(apply_narrow(Narrow::Char, 0x1_ffff), 0xffff);
    assert_eq!(apply_narrow(Narrow::Char, cell(-1)), 0xffff);
    assert_eq!(apply_narrow(Narrow::Short, 0x1_8000), cell(-32768));
    assert_eq!(apply_narrow(Narrow::Short, 0x1_7fff), 32767);
}

#[test]
fn widening_keeps_the_value() {
    assert_eq!(widen_int(5), 5);
    assert_eq!(widen_int(cell(-5)), bits(-5));
    assert_eq!(widen_int(cell(i32::MIN)), bits(i32::MIN as i64));
}

#[test]
fn byte_of_a_widened_int_is_its_cast() {
    for x in [0i32, 1, -1, 127, 128, 255, 256, -128, -129, 0x1234_5678, i32::MIN, i32::MAX] {
        let (_, low) = split_long(widen_int(cell(x)));
        assert_eq!(low, cell(x));
        assert_eq!(apply_narrow(Narrow::Byte, low), cell(x as i8 as i32));
    }
}

#[test]
fn longs_are_ordered_by_their_signed_values() {
    assert_eq!(order_longs(1, 2), cell(-1));
    assert_eq!(order_longs(2, 2), 0);
    assert_eq!(order_longs(3, 2), 1);
    assert_eq!(order_longs(bits(-1), 0), cell(-1));
    assert_eq!(order_longs(0, bits(i64::MIN)), 1);
}

#[test]
fn conditions_compare_signed_values() {
    assert!(test_cond(Cond::Eq, 3, 3));
    assert!(!test_cond(Cond::Eq, 3, 4));
    assert!(test_cond(Cond::Ne, 3, 4));
    assert!(test_cond(Cond::Lt, cell(-1), 0));
    assert!(!test_cond(Cond::Lt, 0, cell(-1)));
    assert!(test_cond(Cond::Ge, 0, cell(-1)));
    assert!(test_cond(Cond::Ge, 2, 2));
    assert!(test_cond(Cond::Gt, 1, cell(i32::MIN)));
    assert!(test_cond(Cond::Le, cell(i32::MIN), cell(i32::MAX)));
    assert!(!test_cond(Cond::Le, 1, 0));
}
