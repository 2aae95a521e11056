//! Numeric semantics of the 32-bit cells that operand stacks, local variables,
//! fields and array elements are made of.
//!
//! A cell is an untyped `u32`. An `int` value is the cell read as a two's
//! complement number; a `long` is a pair of cells, high word first, handled
//! here as one `u64` bit pattern.

use vstd::prelude::*;
use vstd::arithmetic::div_mod::{lemma_fundamental_div_mod, lemma_mod_multiples_vanish};

verus! {

/// The signed value that a cell stands for.
pub open spec fn int_of(c: u32) -> int {
    if c < 0x8000_0000 {
        c as int
    } else {
        c as int - 0x1_0000_0000
    }
}

/// The cell that stands for `v`, taken modulo 2^32.
pub open spec fn cell_of(v: int) -> u32 {
    (v % 0x1_0000_0000) as u32
}

/// The signed value that a 64-bit pattern stands for.
pub open spec fn long_of(b: u64) -> int {
    if b < 0x8000_0000_0000_0000 {
        b as int
    } else {
        b as int - 0x1_0000_0000_0000_0000
    }
}

/// The 64-bit pattern that stands for `v`, taken modulo 2^64.
pub open spec fn bits_of(v: int) -> u64 {
    (v % 0x1_0000_0000_0000_0000) as u64
}

/// The high word of a 64-bit pattern: the cell that is pushed first.
pub open spec fn high_word(b: u64) -> u32 {
    (b / 0x1_0000_0000) as u32
}

/// The low word of a 64-bit pattern: the cell that is pushed second.
pub open spec fn low_word(b: u64) -> u32 {
    (b % 0x1_0000_0000) as u32
}

/// The 64-bit pattern made of a high and a low word.
pub open spec fn join_words(high: u32, low: u32) -> u64 {
    (high as int * 0x1_0000_0000 + low as int) as u64
}

/// Quotient of the division that truncates toward zero.
pub open spec fn trunc_div(x: int, y: int) -> int
    recommends
        y != 0,
{
    if x >= 0 && y > 0 {
        x / y
    } else if x >= 0 {
        -(x / (-y))
    } else if y > 0 {
        -((-x) / y)
    } else {
        (-x) / (-y)
    }
}

/// Remainder of the division that truncates toward zero.
pub open spec fn trunc_rem(x: int, y: int) -> int
    recommends
        y != 0,
{
    x - y * trunc_div(x, y)
}

/// Reads a cell as a signed number.
pub fn to_signed(c: u32) -> (r: i32)
    ensures
        r as int == int_of(c),
{
    if c < 0x8000_0000 {
        c as i32
    } else {
        ((c - 0x8000_0000) as i32) - 0x7fff_ffff - 1
    }
}

/// Stores a signed number in a cell.
pub fn from_signed(v: i32) -> (r: u32)
    ensures
        r == cell_of(v as int),
        int_of(r) == v,
{
    if v >= 0 {
        v as u32
    } else {
        ((v + 0x7fff_ffff + 1) as u32) + 0x8000_0000
    }
}

/// Reads a 64-bit pattern as a signed number.
pub fn long_to_signed(b: u64) -> (r: i64)
    ensures
        r as int == long_of(b),
{
    if b < 0x8000_0000_0000_0000 {
        b as i64
    } else {
        ((b - 0x8000_0000_0000_0000) as i64) - 0x7fff_ffff_ffff_ffff - 1
    }
}

/// Stores a signed number as a 64-bit pattern.
pub fn long_from_signed(v: i64) -> (r: u64)
    ensures
        r == bits_of(v as int),
        long_of(r) == v,
{
    if v >= 0 {
        v as u64
    } else {
        ((v + 0x7fff_ffff_ffff_ffff + 1) as u64) + 0x8000_0000_0000_0000
    }
}

/// Splits a 64-bit pattern into the two cells that hold it, high word first.
pub fn split_long(b: u64) -> (r: (u32, u32))
    ensures
        r.0 == high_word(b),
        r.1 == low_word(b),
        join_words(r.0, r.1) == b,
{
    ((b / 0x1_0000_0000) as u32, (b % 0x1_0000_0000) as u32)
}

/// Joins two cells, high word first, into the 64-bit pattern they hold.
pub fn join_long(high: u32, low: u32) -> (r: u64)
    ensures
        r == join_words(high, low),
        high_word(r) == high,
        low_word(r) == low,
{
    (high as u64) * 0x1_0000_0000 + (low as u64)
}

/// The cell that `bipush` pushes for an operand byte: the byte, sign-extended.
pub open spec fn sign_extend_byte(b: u8) -> u32 {
    if b < 0x80 {
        b as u32
    } else {
        (b as int + 0xffff_ff00) as u32
    }
}

/// The cell that `sipush` pushes for a two-byte operand: the value,
/// sign-extended.
pub open spec fn sign_extend_short(s: u16) -> u32 {
    if s < 0x8000 {
        s as u32
    } else {
        (s as int + 0xffff_0000) as u32
    }
}

/// Sign-extends a byte to a cell.
pub fn extend_byte(b: u8) -> (r: u32)
    ensures
        r == sign_extend_byte(b),
        int_of(r) == if b < 0x80 { b as int } else { b as int - 0x100 },
{
    if b < 0x80 {
        b as u32
    } else {
        (b as u32) + 0xffff_ff00
    }
}

/// Sign-extends a 16-bit value to a cell.
pub fn extend_short(s: u16) -> (r: u32)
    ensures
        r == sign_extend_short(s),
        int_of(r) == if s < 0x8000 { s as int } else { s as int - 0x1_0000 },
{
    if s < 0x8000 {
        s as u32
    } else {
        (s as u32) + 0xffff_0000
    }
}

/// The two-operand operations that exist for both `int` and `long`.
#[derive(Clone, Copy, Debug, PartialEq, Eq, Structural)]
pub enum Binary {
    Add,
    Sub,
    Mul,
    Div,
    Rem,
    And,
    Or,
    Xor,
}

/// The three shifts.
#[derive(Clone, Copy, Debug, PartialEq, Eq, Structural)]
pub enum Shift {
    /// `shl`: shift left.
    Left,
    /// `shr`: shift right, keeping the sign.
    Right,
    /// `ushr`: shift right, filling with zeros.
    RightLogical,
}

/// The narrowing conversions of an `int`.
#[derive(Clone, Copy, Debug, PartialEq, Eq, Structural)]
pub enum Narrow {
    /// `i2b`: keep the low 8 bits, then sign-extend.
    Byte,
    /// `i2c`: keep the low 16 bits, then zero-extend.
    Char,
    /// `i2s`: keep the low 16 bits, then sign-extend.
    Short,
}

/// The six conditions of the conditional branches.
#[derive(Clone, Copy, Debug, PartialEq, Eq, Structural)]
pub enum Cond {
    Eq,
    Ne,
    Lt,
    Ge,
    Gt,
    Le,
}

/// What a two-operand `int` operation leaves on the stack for operands
/// `a` (pushed first) and `b`; `None` where the division is by zero.
pub open spec fn int_binary(op: Binary, a: u32, b: u32) -> Option<u32> {
    match op {
        Binary::Add => Some(cell_of(int_of(a) + int_of(b))),
        Binary::Sub => Some(cell_of(int_of(a) - int_of(b))),
        Binary::Mul => Some(cell_of(int_of(a) * int_of(b))),
        Binary::Div => if b == 0 {
            None
        } else {
            Some(cell_of(trunc_div(int_of(a), int_of(b))))
        },
        Binary::Rem => if b == 0 {
            None
        } else {
            Some(cell_of(trunc_rem(int_of(a), int_of(b))))
        },
        Binary::And => Some(a & b),
        Binary::Or => Some(a | b),
        Binary::Xor => Some(a ^ b),
    }
}

/// What a two-operand `long` operation yields for the bit patterns `a`
/// and `b`; `None` where the division is by zero.
pub open spec fn long_binary(op: Binary, a: u64, b: u64) -> Option<u64> {
    match op {
        Binary::Add => Some(bits_of(long_of(a) + long_of(b))),
        Binary::Sub => Some(bits_of(long_of(a) - long_of(b))),
        Binary::Mul => Some(bits_of(long_of(a) * long_of(b))),
        Binary::Div => if b == 0 {
            None
        } else {
            Some(bits_of(trunc_div(long_of(a), long_of(b))))
        },
        Binary::Rem => if b == 0 {
            None
        } else {
            Some(bits_of(trunc_rem(long_of(a), long_of(b))))
        },
        Binary::And => Some(a & b),
        Binary::Or => Some(a | b),
        Binary::Xor => Some(a ^ b),
    }
}

/// The cell that an `int` shift leaves: only the low five bits of the count
/// `s` are used.
pub open spec fn int_shift(op: Shift, a: u32, s: u32) -> u32 {
    match op {
        Shift::Left => a << (s % 32),
        Shift::Right => cell_of(((int_of(a) as i32) >> (s % 32)) as int),
        Shift::RightLogical => a >> (s % 32),
    }
}

/// The pattern that a `long` shift leaves: only the low six bits of the count
/// `s` are used.
pub open spec fn long_shift(op: Shift, a: u64, s: u32) -> u64 {
    match op {
        Shift::Left => a << (s % 64),
        Shift::Right => bits_of(((long_of(a) as i64) >> (s % 64)) as int),
        Shift::RightLogical => a >> (s % 64),
    }
}

/// The cell that a narrowing conversion leaves.
pub open spec fn narrow(kind: Narrow, a: u32) -> u32 {
    match kind {
        Narrow::Byte => sign_extend_byte((a % 0x100) as u8),
        Narrow::Char => a % 0x1_0000,
        Narrow::Short => sign_extend_short((a % 0x1_0000) as u16),
    }
}

/// `i2l`: the pattern of the `long` with the same value as the `int`.
pub open spec fn widen(a: u32) -> u64 {
    bits_of(int_of(a))
}

/// `lcmp`: 1, 0 or -1 as the first `long` is greater than, equal to or less
/// than the second.
pub open spec fn long_order(a: u64, b: u64) -> u32 {
    if long_of(a) > long_of(b) {
        1
    } else if long_of(a) == long_of(b) {
        0
    } else {
        0xffff_ffff
    }
}

/// Whether condition `c` holds between two signed values.
pub open spec fn cond_holds(c: Cond, x: int, y: int) -> bool {
    match c {
        Cond::Eq => x == y,
        Cond::Ne => x != y,
        Cond::Lt => x < y,
        Cond::Ge => x >= y,
        Cond::Gt => x > y,
        Cond::Le => x <= y,
    }
}

proof fn lemma_int_product(a: u32, b: u32)
    ensures
        cell_of(int_of(a) * int_of(b)) == ((a as nat * b as nat) % 0x1_0000_0000nat) as u32,
{
    let m = 0x1_0000_0000int;
    let ka: int = if a < 0x8000_0000 { 0 } else { 1 };
    let kb: int = if b < 0x8000_0000 { 0 } else { 1 };
    let t = ka * kb * m - ka * b - kb * a;
    assert(int_of(a) * int_of(b) == m * t + a * b) by (nonlinear_arith)
        requires
            int_of(a) == a - ka * m,
            int_of(b) == b - kb * m,
            t == ka * kb * m - ka * b - kb * a,
    ;
    lemma_mod_multiples_vanish(t, a * b, m);
    assert(a * b >= 0) by (nonlinear_arith);
    assert((a * b) as nat == a as nat * b as nat);
}

proof fn lemma_long_product(a: u64, b: u64)
    ensures
        bits_of(long_of(a) * long_of(b)) == ((a as nat * b as nat)
            % 0x1_0000_0000_0000_0000nat) as u64,
{
    let m = 0x1_0000_0000_0000_0000int;
    let ka: int = if a < 0x8000_0000_0000_0000 { 0 } else { 1 };
    let kb: int = if b < 0x8000_0000_0000_0000 { 0 } else { 1 };
    let t = ka * kb * m - ka * b - kb * a;
    assert(long_of(a) * long_of(b) == m * t + a * b) by (nonlinear_arith)
        requires
            long_of(a) == a - ka * m,
            long_of(b) == b - kb * m,
            t == ka * kb * m - ka * b - kb * a,
    ;
    lemma_mod_multiples_vanish(t, a * b, m);
    assert(a * b >= 0) by (nonlinear_arith);
    assert((a * b) as nat == a as nat * b as nat);
}

/// The truncating quotient and remainder, from those of the magnitudes.
proof fn lemma_trunc(x: int, y: int)
    requires
        y != 0,
    ensures
        x >= 0 && y > 0 ==> trunc_rem(x, y) == x % y,
        x >= 0 && y < 0 ==> trunc_rem(x, y) == x % (-y),
        x < 0 && y > 0 ==> trunc_rem(x, y) == -((-x) % y),
        x < 0 && y < 0 ==> trunc_rem(x, y) == -((-x) % (-y)),
{
    let mx = if x >= 0 { x } else { -x };
    let my = if y > 0 { y } else { -y };
    lemma_fundamental_div_mod(mx, my);
    let q = mx / my;
    assert(mx == my * q + mx % my);
    if x >= 0 && y > 0 {
        assert(trunc_rem(x, y) == x - y * q);
    } else if x >= 0 {
        assert(y * (-q) == my * q) by (nonlinear_arith)
            requires
                my == -y,
        ;
    } else if y > 0 {
        assert(y * (-q) == -(my * q)) by (nonlinear_arith)
            requires
                my == y,
        ;
    } else {
        assert(y * q == -(my * q)) by (nonlinear_arith)
            requires
                my == -y,
        ;
    }
}

/// Magnitude of the signed value of a cell.
fn int_magnitude(a: u32) -> (r: u32)
    ensures
        r as int == if int_of(a) >= 0 { int_of(a) } else { -int_of(a) },
{
    if a < 0x8000_0000 {
        a
    } else {
        0u32.wrapping_sub(a)
    }
}

/// Magnitude of the signed value of a 64-bit pattern.
fn long_magnitude(a: u64) -> (r: u64)
    ensures
        r as int == if long_of(a) >= 0 { long_of(a) } else { -long_of(a) },
{
    if a < 0x8000_0000_0000_0000 {
        a
    } else {
        0u64.wrapping_sub(a)
    }
}

/// Applies a two-operand `int` operation to two cells.
pub fn apply_int_binary(op: Binary, a: u32, b: u32) -> (r: Option<u32>)
    ensures
        r == int_binary(op, a, b),
{
    match op {
        Binary::Add => Some(a.wrapping_add(b)),
        Binary::Sub => Some(a.wrapping_sub(b)),
        Binary::Mul => {
            proof {
                lemma_int_product(a, b);
            }
            Some(a.wrapping_mul(b))
        },
        Binary::Div => {
            if b == 0 {
                None
            } else {
                let q: u32 = int_magnitude(a) / int_magnitude(b);
                if (a < 0x8000_0000) == (b < 0x8000_0000) {
                    Some(q)
                } else {
                    Some(0u32.wrapping_sub(q))
                }
            }
        },
        Binary::Rem => {
            if b == 0 {
                None
            } else {
                proof {
                    lemma_trunc(int_of(a), int_of(b));
                }
                let m: u32 = int_magnitude(a) % int_magnitude(b);
                if a < 0x8000_0000 {
                    Some(m)
                } else {
                    Some(0u32.wrapping_sub(m))
                }
            }
        },
        Binary::And => Some(a & b),
        Binary::Or => Some(a | b),
        Binary::Xor => Some(a ^ b),
    }
}

/// Applies a two-operand `long` operation to two 64-bit patterns.
pub fn apply_long_binary(op: Binary, a: u64, b: u64) -> (r: Option<u64>)
    ensures
        r == long_binary(op, a, b),
{
    match op {
        Binary::Add => Some(a.wrapping_add(b)),
        Binary::Sub => Some(a.wrapping_sub(b)),
        Binary::Mul => {
            proof {
                lemma_long_product(a, b);
            }
            Some(a.wrapping_mul(b))
        },
        Binary::Div => {
            if b == 0 {
                None
            } else {
                let q: u64 = long_magnitude(a) / long_magnitude(b);
                if (a < 0x8000_0000_0000_0000) == (b < 0x8000_0000_0000_0000) {
                    Some(q)
                } else {
                    Some(0u64.wrapping_sub(q))
                }
            }
        },
        Binary::Rem => {
            if b == 0 {
                None
            } else {
                proof {
                    lemma_trunc(long_of(a), long_of(b));
                }
                let m: u64 = long_magnitude(a) % long_magnitude(b);
                if a < 0x8000_0000_0000_0000 {
                    Some(m)
                } else {
                    Some(0u64.wrapping_sub(m))
                }
            }
        },
        Binary::And => Some(a & b),
        Binary::Or => Some(a | b),
        Binary::Xor => Some(a ^ b),
    }
}

/// Applies an `int` shift.
pub fn apply_int_shift(op: Shift, a: u32, s: u32) -> (r: u32)
    ensures
        r == int_shift(op, a, s),
{
    match op {
        Shift::Left => a.wrapping_shl(s),
        Shift::Right => from_signed(to_signed(a).wrapping_shr(s)),
        Shift::RightLogical => a.wrapping_shr(s),
    }
}

/// Applies a `long` shift; the count is an `int` cell.
pub fn apply_long_shift(op: Shift, a: u64, s: u32) -> (r: u64)
    ensures
        r == long_shift(op, a, s),
{
    match op {
        Shift::Left => a.wrapping_shl(s),
        Shift::Right => long_from_signed(long_to_signed(a).wrapping_shr(s)),
        Shift::RightLogical => a.wrapping_shr(s),
    }
}

/// `ineg`: the cell of the negated value.
pub fn negate_int(a: u32) -> (r: u32)
    ensures
        r == cell_of(-int_of(a)),
{
    0u32.wrapping_sub(a)
}

/// `lneg`: the pattern of the negated value.
pub fn negate_long(a: u64) -> (r: u64)
    ensures
        r == bits_of(-long_of(a)),
{
    0u64.wrapping_sub(a)
}

/// Applies a narrowing conversion to an `int` cell.
pub fn apply_narrow(kind: Narrow, a: u32) -> (r: u32)
    ensures
        r == narrow(kind, a),
{
    match kind {
        Narrow::Byte => extend_byte((a % 0x100) as u8),
        Narrow::Char => a % 0x1_0000,
        Narrow::Short => extend_short((a % 0x1_0000) as u16),
    }
}

/// `i2l`: widens an `int` cell to a `long` pattern.
pub fn widen_int(a: u32) -> (r: u64)
    ensures
        r == widen(a),
        long_of(r) == int_of(a),
{
    if a < 0x8000_0000 {
        a as u64
    } else {
        (a as u64) + 0xffff_ffff_0000_0000
    }
}

/// Orders two `long` patterns by their signed values.
pub fn order_longs(a: u64, b: u64) -> (r: u32)
    ensures
        r == long_order(a, b),
{
    let x = long_to_signed(a);
    let y = long_to_signed(b);
    if x > y {
        1
    } else if x == y {
        0
    } else {
        0xffff_ffff
    }
}

/// Tests a branch condition between the signed values of two cells.
pub fn test_cond(c: Cond, a: u32, b: u32) -> (r: bool)
    ensures
        r == cond_holds(c, int_of(a), int_of(b)),
{
    let x = to_signed(a);
    let y = to_signed(b);
    match c {
        Cond::Eq => x == y,
        Cond::Ne => x != y,
        Cond::Lt => x < y,
        Cond::Ge => x >= y,
        Cond::Gt => x > y,
        Cond::Le => x <= y,
    }
}

} // verus!
