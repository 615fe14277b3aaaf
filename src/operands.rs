use vstd::prelude::*;

use crate::opcodes::{OperandKind, width};

verus! {

/// The largest value an operand can hold.
pub const OPERAND_MAX: u32 = 65535;

pub open spec fn is_decimal_digit(b: u8) -> bool {
    0x30 <= b <= 0x39
}

pub open spec fn is_hex_digit(b: u8) -> bool {
    (0x30 <= b <= 0x39) || (0x61 <= b <= 0x66) || (0x41 <= b <= 0x46)
}

/// The value of a decimal or hexadecimal digit.
pub open spec fn digit_value(b: u8) -> nat {
    if 0x30 <= b <= 0x39 {
        (b - 0x30) as nat
    } else if 0x61 <= b <= 0x66 {
        (b - 0x61 + 10) as nat
    } else {
        (b - 0x41 + 10) as nat
    }
}

/// The value of the digits `d` in base `base`, most significant first.
pub open spec fn digits_value(d: Seq<u8>, base: nat) -> nat
    decreases d.len(),
{
    if d.len() == 0 {
        0
    } else {
        digits_value(d.drop_last(), base) * base + digit_value(d.last())
    }
}

/// The value that a number literal denotes: decimal digits, or `0x`
/// followed by hexadecimal digits.
pub open spec fn number_value(w: Seq<u8>) -> Option<nat> {
    if w.len() > 2 && w[0] == 0x30 && w[1] == 0x78 {
        let d = w.subrange(2, w.len() as int);
        if forall|k: int| 0 <= k < d.len() ==> is_hex_digit(#[trigger] d[k]) {
            Some(digits_value(d, 16))
        } else {
            None
        }
    } else if w.len() > 0 && forall|k: int| 0 <= k < w.len() ==> is_decimal_digit(#[trigger] w[k]) {
        Some(digits_value(w, 10))
    } else {
        None
    }
}

/// The value that the text `w` of an operand of kind `k` denotes, if it is
/// one such an operand can hold.
pub open spec fn operand_value(k: OperandKind, w: Seq<u8>) -> Option<nat> {
    match k {
        OperandKind::Register => if w.len() > 0 && w[0] == 0x72 {
            match number_value(w.drop_first()) {
                Some(v) => if v <= 255 {
                    Some(v)
                } else {
                    None
                },
                None => None,
            }
        } else {
            None
        },
        OperandKind::ImmediateU8 => match number_value(w) {
            Some(v) => if v <= 255 {
                Some(v)
            } else {
                None
            },
            None => None,
        },
        OperandKind::ImmediateU16 => match number_value(w) {
            Some(v) => if v <= 65535 {
                Some(v)
            } else {
                None
            },
            None => None,
        },
    }
}

/// The bytes of a value of kind `k`: one byte, or two little-endian bytes.
pub open spec fn value_bytes(k: OperandKind, v: nat) -> Seq<u8> {
    match k {
        OperandKind::ImmediateU16 => seq![(v % 256) as u8, (v / 256) as u8],
        _ => seq![v as u8],
    }
}

/// The encoding of the operand text `w` as kind `k`, or `None` where the text
/// denotes no value of that kind.
pub open spec fn operand_bytes(k: OperandKind, w: Seq<u8>) -> Option<Seq<u8>> {
    match operand_value(k, w) {
        Some(v) => Some(value_bytes(k, v)),
        None => None,
    }
}

pub proof fn lemma_operand_bytes_width(k: OperandKind, w: Seq<u8>)
    ensures
        operand_bytes(k, w) matches Some(b) ==> b.len() == width(k),
{
}

proof fn lemma_digits_grow(d: Seq<u8>, base: nat)
    requires
        d.len() > 0,
        base >= 1,
    ensures
        digits_value(d, base) >= digits_value(d.drop_last(), base),
{
    let p = digits_value(d.drop_last(), base);
    assert(p * base >= p) by (nonlinear_arith)
        requires
            base >= 1,
    ;
}

/// Reads `src[start..end]` as digits in base `base` (10 or 16). Returns the
/// value where it is at most `OPERAND_MAX`, and `None` where it is larger.
fn digits_in_range(src: &[u8], start: usize, end: usize, base: u32) -> (r: Option<u32>)
    requires
        start <= end <= src@.len(),
        base == 10 || base == 16,
        forall|k: int| start <= k < end ==> is_hex_digit(#[trigger] src@[k]),
    ensures
        r matches Some(v) ==> v == digits_value(src@.subrange(start as int, end as int), base as nat)
            && v <= OPERAND_MAX,
        r is None ==> digits_value(src@.subrange(start as int, end as int), base as nat)
            > OPERAND_MAX,
{
    let mut acc: u32 = 0;
    let mut i: usize = start;
    while i < end
        invariant
            start <= i <= end <= src@.len(),
            base == 10 || base == 16,
            forall|k: int| start <= k < end ==> is_hex_digit(#[trigger] src@[k]),
            acc == digits_value(src@.subrange(start as int, i as int), base as nat),
            acc <= OPERAND_MAX,
        decreases end - i,
    {
        let b = src[i];
        let d: u32 = if 0x30 <= b && b <= 0x39 {
            (b - 0x30) as u32
        } else if 0x61 <= b && b <= 0x66 {
            (b - 0x61 + 10) as u32
        } else {
            (b - 0x41 + 10) as u32
        };
        let ghost prefix = src@.subrange(start as int, i + 1);
        assert(prefix.drop_last() =~= src@.subrange(start as int, i as int));
        assert(prefix.last() == b);
        assert(acc * base <= 65535 * 16) by (nonlinear_arith)
            requires
                acc <= 65535,
                base <= 16,
        ;
        let next = acc * base + d;
        if next > OPERAND_MAX {
            proof {
                lemma_digits_grow_to(src@, start as int, i + 1, end as int, base as nat);
            }
            return None;
        }
        acc = next;
        i = i + 1;
    }
    Some(acc)
}

/// Once a prefix of digits exceeds a bound, every longer prefix does too.
proof fn lemma_digits_grow_to(s: Seq<u8>, start: int, i: int, end: int, base: nat)
    requires
        0 <= start < i <= end <= s.len(),
        base >= 1,
    ensures
        digits_value(s.subrange(start, end), base) >= digits_value(s.subrange(start, i), base),
    decreases end - i,
{
    if i < end {
        lemma_digits_grow_to(s, start, i + 1, end, base);
        let longer = s.subrange(start, i + 1);
        assert(longer.drop_last() =~= s.subrange(start, i));
        lemma_digits_grow(longer, base);
    }
}

/// Reads the number literal `src[start..end]`. Returns its value where it is
/// a number literal of value at most `OPERAND_MAX`.
pub fn parse_number(src: &[u8], start: usize, end: usize) -> (r: Option<u32>)
    requires
        start <= end <= src@.len(),
    ensures
        r matches Some(v) ==> number_value(src@.subrange(start as int, end as int)) == Some(
            v as nat,
        ) && v <= OPERAND_MAX,
        r is None ==> match number_value(src@.subrange(start as int, end as int)) {
            Some(v) => v > OPERAND_MAX,
            None => true,
        },
{
    let ghost w = src@.subrange(start as int, end as int);
    if end - start > 2 {
        assert(w[0] == src@[start as int] && w[1] == src@[start + 1]);
    }
    if end - start > 2 && src[start] == 0x30 && src[start + 1] == 0x78 {
        let ghost d = w.subrange(2, w.len() as int);
        assert(d =~= src@.subrange(start + 2, end as int));
        let mut i: usize = start + 2;
        while i < end
            invariant
                start + 2 <= i <= end <= src@.len(),
                w == src@.subrange(start as int, end as int),
                d == src@.subrange(start + 2, end as int),
                d == w.subrange(2, w.len() as int),
                w.len() > 2 && w[0] == 0x30 && w[1] == 0x78,
                forall|k: int| start + 2 <= k < i ==> is_hex_digit(#[trigger] src@[k]),
            decreases end - i,
        {
            let b = src[i];
            if !((0x30 <= b && b <= 0x39) || (0x61 <= b && b <= 0x66) || (0x41 <= b && b <= 0x46)) {
                assert(d[i - start - 2] == b);
                assert(!is_hex_digit(d[i - start - 2]));
                return None;
            }
            i = i + 1;
        }
        assert forall|k: int| 0 <= k < d.len() implies is_hex_digit(#[trigger] d[k]) by {
            assert(d[k] == src@[start + 2 + k]);
        }
        digits_in_range(src, start + 2, end, 16)
    } else {
        if end == start {
            return None;
        }
        let mut i: usize = start;
        while i < end
            invariant
                start <= i <= end <= src@.len(),
                w == src@.subrange(start as int, end as int),
                w.len() > 0,
                !(w.len() > 2 && w[0] == 0x30 && w[1] == 0x78),
                forall|k: int| start <= k < i ==> is_decimal_digit(#[trigger] src@[k]),
            decreases end - i,
        {
            let b = src[i];
            if !(0x30 <= b && b <= 0x39) {
                assert(w[i - start] == b);
                assert(!is_decimal_digit(w[i - start]));
                return None;
            }
            i = i + 1;
        }
        assert forall|k: int| 0 <= k < w.len() implies is_decimal_digit(#[trigger] w[k]) by {
            assert(w[k] == src@[start + k]);
        }
        assert forall|k: int| start <= k < end implies is_hex_digit(#[trigger] src@[k]) by {
            assert(is_decimal_digit(w[k - start]));
        }
        digits_in_range(src, start, end, 10)
    }
}

/// Appends the encoding of the operand text `src[start..end]` as kind `k` to
/// `out`; returns whether the text denotes a value of that kind. On failure
/// `out` is left as it was.
pub fn encode_operand(k: OperandKind, src: &[u8], start: usize, end: usize, out: &mut Vec<u8>) -> (r: bool)
    requires
        start <= end <= src@.len(),
    ensures
        r == (operand_bytes(k, src@.subrange(start as int, end as int)) is Some),
        r ==> final(out)@ == old(out)@ + operand_bytes(k, src@.subrange(start as int, end as int))->0,
        !r ==> final(out)@ == old(out)@,
{
    let ghost w = src@.subrange(start as int, end as int);
    let value = match k {
        OperandKind::Register => {
            if end == start || src[start] != 0x72 {
                return false;
            }
            assert(w.drop_first() =~= src@.subrange(start + 1, end as int));
            match parse_number(src, start + 1, end) {
                Some(v) => if v <= 255 {
                    v
                } else {
                    return false;
                },
                None => {
                    return false;
                },
            }
        },
        OperandKind::ImmediateU8 => match parse_number(src, start, end) {
            Some(v) => if v <= 255 {
                v
            } else {
                return false;
            },
            None => {
                return false;
            },
        },
        OperandKind::ImmediateU16 => match parse_number(src, start, end) {
            Some(v) => v,
            None => {
                return false;
            },
        },
    };
    let ghost before = out@;
    match k {
        OperandKind::ImmediateU16 => {
            out.push((value % 256) as u8);
            out.push((value / 256) as u8);
        },
        _ => {
            out.push(value as u8);
        },
    }
    assert(out@ =~= before + value_bytes(k, value as nat));
    true
}

} // verus!
