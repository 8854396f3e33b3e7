//! Hexadecimal numbers as the GDB Remote Serial Protocol writes them.
//!
//! Reading follows the rules of `from_str_radix(_, 16)` for unsigned
//! integers: an optional leading `+`, then at least one digit, digits in
//! either case, and a value that fits the target type.  Writing produces
//! lower-case digits.
use vstd::prelude::*;

verus! {

/// The value of one hexadecimal digit, if `b` is one.
pub open spec fn digit_value(b: u8) -> Option<nat> {
    if 48 <= b && b <= 57 {
        Some((b - 48) as nat)
    } else if 97 <= b && b <= 102 {
        Some((b - 87) as nat)
    } else if 65 <= b && b <= 70 {
        Some((b - 55) as nat)
    } else {
        None
    }
}

/// The value of a string of hexadecimal digits, most significant first
/// (`Some(0)` for the empty string, `None` if any byte is not a digit).
pub open spec fn digits_value(s: Seq<u8>) -> Option<nat>
    decreases s.len(),
{
    if s.len() == 0 {
        Some(0nat)
    } else {
        match digits_value(s.drop_last()) {
            None => None,
            Some(high) => match digit_value(s.last()) {
                None => None,
                Some(d) => Some(high * 16 + d),
            },
        }
    }
}

/// `s` without one leading `+`, if it has one.
pub open spec fn sign_stripped(s: Seq<u8>) -> Seq<u8> {
    if s.len() > 0 && s[0] == 43 {
        s.drop_first()
    } else {
        s
    }
}

/// The number that `s` denotes as an unsigned hexadecimal integer:
/// an optional `+` and at least one digit.
pub open spec fn radix16(s: Seq<u8>) -> Option<nat> {
    let digits = sign_stripped(s);
    if digits.len() == 0 {
        None
    } else {
        digits_value(digits)
    }
}

/// `radix16(s)`, when it is at most `max`.
pub open spec fn radix16_at_most(s: Seq<u8>, max: nat) -> Option<nat> {
    match radix16(s) {
        Some(v) => if v <= max {
            Some(v)
        } else {
            None
        },
        None => None,
    }
}

/// What `u32::from_str_radix(s, 16)` accepts, and its value.
pub open spec fn hex_u32(s: Seq<u8>) -> Option<u32> {
    match radix16_at_most(s, u32::MAX as nat) {
        Some(v) => Some(v as u32),
        None => None,
    }
}

/// What `u8::from_str_radix(s, 16)` accepts, and its value.
pub open spec fn hex_u8(s: Seq<u8>) -> Option<u8> {
    match radix16_at_most(s, u8::MAX as nat) {
        Some(v) => Some(v as u8),
        None => None,
    }
}

/// What `usize::from_str_radix(s, 16)` accepts, and its value.
pub open spec fn hex_usize(s: Seq<u8>) -> Option<usize> {
    match radix16_at_most(s, usize::MAX as nat) {
        Some(v) => Some(v as usize),
        None => None,
    }
}

/// A valid digit string only grows when digits are appended.
proof fn lemma_digits_value_prefix(s: Seq<u8>, k: int)
    requires
        0 <= k <= s.len(),
        digits_value(s) is Some,
    ensures
        digits_value(s.subrange(0, k)) is Some,
        digits_value(s.subrange(0, k)).unwrap() <= digits_value(s).unwrap(),
    decreases s.len(),
{
    if k == s.len() {
        assert(s.subrange(0, k) =~= s);
    } else {
        lemma_digits_value_prefix(s.drop_last(), k);
        assert(s.drop_last().subrange(0, k) =~= s.subrange(0, k));
    }
}

/// Reads `s` as an unsigned hexadecimal number no greater than `max`.
fn parse_hex(s: &[u8], max: u64) -> (r: Option<u64>)
    requires
        max >= 15,
    ensures
        match radix16_at_most(s@, max as nat) {
            Some(v) => r == Some(v as u64),
            None => r is None,
        },
{
    let len = s.len();
    if len == 0 {
        return None;
    }
    let start: usize = if s[0] == 43 {
        1
    } else {
        0
    };
    if start == len {
        return None;
    }
    let ghost digits = s@.subrange(start as int, len as int);
    assert(digits =~= sign_stripped(s@));
    let mut acc: u64 = 0;
    let mut overflow = false;
    let mut i: usize = start;
    while i < len
        invariant
            start <= i <= len,
            len == s@.len(),
            max >= 15,
            digits == s@.subrange(start as int, len as int),
            digits == sign_stripped(s@),
            digits.len() > 0,
            digits_value(s@.subrange(start as int, i as int)) is Some,
            !overflow ==> acc as nat == digits_value(s@.subrange(start as int, i as int)).unwrap()
                && acc <= max,
            overflow ==> digits_value(s@.subrange(start as int, i as int)).unwrap() > max,
        decreases len - i,
    {
        let b = s[i];
        let d: u64 = if 48 <= b && b <= 57 {
            (b - 48) as u64
        } else if 97 <= b && b <= 102 {
            (b - 87) as u64
        } else if 65 <= b && b <= 70 {
            (b - 55) as u64
        } else {
            proof {
                let t = s@.subrange(start as int, i as int + 1);
                assert(t.drop_last() =~= s@.subrange(start as int, i as int));
                assert(t.last() == b);
                assert(digit_value(b) is None);
                assert(digits_value(t) is None);
                if digits_value(digits) is Some {
                    lemma_digits_value_prefix(digits, i - start + 1);
                    assert(digits.subrange(0, i - start + 1) =~= t);
                }
            }
            return None;
        };
        let ghost prev = digits_value(s@.subrange(start as int, i as int)).unwrap();
        proof {
            let t = s@.subrange(start as int, i as int + 1);
            assert(t.drop_last() =~= s@.subrange(start as int, i as int));
            assert(t.last() == b);
            assert(digit_value(b) == Some(d as nat));
            assert(digits_value(t) == Some(prev * 16 + d as nat));
        }
        if !overflow {
            if acc > (max - d) / 16 {
                overflow = true;
            } else {
                acc = acc * 16 + d;
            }
        }
        i = i + 1;
    }
    assert(s@.subrange(start as int, len as int) =~= digits);
    if overflow {
        None
    } else {
        Some(acc)
    }
}

/// `u32::from_str_radix(s, 16)`, `None` where it fails.
pub fn parse_hex_u32(s: &[u8]) -> (r: Option<u32>)
    ensures
        r == hex_u32(s@),
{
    match parse_hex(s, u32::MAX as u64) {
        Some(v) => Some(v as u32),
        None => None,
    }
}

/// `u8::from_str_radix(s, 16)`, `None` where it fails.
pub fn parse_hex_u8(s: &[u8]) -> (r: Option<u8>)
    ensures
        r == hex_u8(s@),
{
    match parse_hex(s, u8::MAX as u64) {
        Some(v) => Some(v as u8),
        None => None,
    }
}

/// `usize::from_str_radix(s, 16)`, `None` where it fails.
pub fn parse_hex_usize(s: &[u8]) -> (r: Option<usize>)
    ensures
        r == hex_usize(s@),
{
    match parse_hex(s, usize::MAX as u64) {
        Some(v) => Some(v as usize),
        None => None,
    }
}

/// The lower-case digit for `n < 16`.
pub open spec fn hex_char(n: nat) -> u8 {
    if n < 10 {
        (48 + n) as u8
    } else {
        (87 + n) as u8
    }
}

/// A byte as two lower-case hexadecimal digits (`{:02x}`).
pub open spec fn byte_hex(b: u8) -> Seq<u8> {
    seq![hex_char(b as nat / 16), hex_char(b as nat % 16)]
}

/// Each byte of `s` as two lower-case hexadecimal digits, in order.
pub open spec fn bytes_hex(s: Seq<u8>) -> Seq<u8>
    decreases s.len(),
{
    if s.len() == 0 {
        Seq::empty()
    } else {
        bytes_hex(s.drop_last()) + byte_hex(s.last())
    }
}

/// The `i`-th least significant byte of `v`.
pub open spec fn byte_of(v: u32, i: u32) -> u8 {
    ((v >> ((8 * i) as u32)) & 0xff) as u8
}

/// `v` with its bytes in reverse order: what
/// `u32::from_be_bytes(v.to_le_bytes())` gives, and also
/// `u32::from_le_bytes(v.to_be_bytes())`.
pub open spec fn swap32(v: u32) -> u32 {
    ((v & 0xff) << 24) | (((v >> 8) & 0xff) << 16) | (((v >> 16) & 0xff) << 8) | ((v >> 24)
        & 0xff)
}

/// A register as GDB shows it: its bytes in memory (little-endian) order,
/// two hex digits each.
pub open spec fn register_hex(v: u32) -> Seq<u8> {
    byte_hex(byte_of(v, 0)) + byte_hex(byte_of(v, 1)) + byte_hex(byte_of(v, 2)) + byte_hex(
        byte_of(v, 3),
    )
}

fn hex_digit_char(n: u8) -> (c: u8)
    requires
        n < 16,
    ensures
        c == hex_char(n as nat),
{
    if n < 10 {
        48 + n
    } else {
        87 + n
    }
}

/// Appends `b` as two lower-case hexadecimal digits.
pub fn push_byte_hex(out: &mut Vec<u8>, b: u8)
    ensures
        final(out)@ == old(out)@ + byte_hex(b),
{
    out.push(hex_digit_char(b / 16));
    out.push(hex_digit_char(b % 16));
    assert(final(out)@ =~= old(out)@ + byte_hex(b));
}

/// Appends each byte of `data` as two lower-case hexadecimal digits.
pub fn push_bytes_hex(out: &mut Vec<u8>, data: &[u8])
    ensures
        final(out)@ == old(out)@ + bytes_hex(data@),
{
    let ghost start = out@;
    let mut i: usize = 0;
    while i < data.len()
        invariant
            i <= data@.len(),
            out@ == start + bytes_hex(data@.subrange(0, i as int)),
        decreases data@.len() - i,
    {
        proof {
            let t = data@.subrange(0, i as int + 1);
            assert(t.drop_last() =~= data@.subrange(0, i as int));
            assert(t.last() == data@[i as int]);
        }
        push_byte_hex(out, data[i]);
        proof {
            let t = data@.subrange(0, i as int + 1);
            assert(out@ =~= start + bytes_hex(t));
        }
        i = i + 1;
    }
    assert(data@.subrange(0, data@.len() as int) =~= data@);
}

/// Appends a register value in GDB's notation (see [`register_hex`]).
pub fn push_register_hex(out: &mut Vec<u8>, v: u32)
    ensures
        final(out)@ == old(out)@ + register_hex(v),
{
    let b0 = (v & 0xff) as u8;
    let b1 = ((v >> 8) & 0xff) as u8;
    let b2 = ((v >> 16) & 0xff) as u8;
    let b3 = ((v >> 24) & 0xff) as u8;
    assert(b0 == byte_of(v, 0) && b1 == byte_of(v, 1) && b2 == byte_of(v, 2) && b3 == byte_of(
        v,
        3,
    )) by (bit_vector)
        requires
            b0 == (v & 0xff) as u8,
            b1 == ((v >> 8) & 0xff) as u8,
            b2 == ((v >> 16) & 0xff) as u8,
            b3 == ((v >> 24) & 0xff) as u8,
    ;
    push_byte_hex(out, b0);
    push_byte_hex(out, b1);
    push_byte_hex(out, b2);
    push_byte_hex(out, b3);
    assert(final(out)@ =~= old(out)@ + register_hex(v));
}

/// Reverses the byte order of `v` (see [`swap32`]).
pub fn swap_bytes32(v: u32) -> (r: u32)
    ensures
        r == swap32(v),
{
    ((v & 0xff) << 24) | (((v >> 8) & 0xff) << 16) | (((v >> 16) & 0xff) << 8) | ((v >> 24)
        & 0xff)
}

/// The digit characters read back as the digits they stand for.
pub proof fn lemma_hex_char_value(n: nat)
    requires
        n < 16,
    ensures
        digit_value(hex_char(n)) == Some(n),
{
}

/// One more digit read: the value so far times sixteen, plus the digit.
proof fn lemma_digits_step(s: Seq<u8>, k: int, acc: nat)
    requires
        0 <= k < s.len(),
        digits_value(s.subrange(0, k)) == Some(acc),
        digit_value(s[k]) is Some,
    ensures
        digits_value(s.subrange(0, k + 1)) == Some(acc * 16 + digit_value(s[k]).unwrap()),
{
    let t = s.subrange(0, k + 1);
    assert(t.drop_last() =~= s.subrange(0, k));
    assert(t.last() == s[k]);
}

/// Two hexadecimal digits written for a byte are read back as that byte.
pub proof fn lemma_byte_hex_roundtrip(b: u8)
    ensures
        radix16(byte_hex(b)) == Some(b as nat),
        hex_u8(byte_hex(b)) == Some(b),
{
    let s = byte_hex(b);
    lemma_hex_char_value(b as nat / 16);
    lemma_hex_char_value(b as nat % 16);
    assert(s.drop_last().drop_last() =~= Seq::<u8>::empty());
    assert(digits_value(s.drop_last().drop_last()) == Some(0nat));
    assert(s.drop_last() =~= seq![hex_char(b as nat / 16)]);
    assert(digits_value(s.drop_last()) == Some(b as nat / 16));
    assert(digits_value(s) == Some(b as nat));
}

/// Writing a register in GDB's notation and reading the digits back as a
/// number gives the register with its bytes reversed.
pub proof fn lemma_register_hex_value(v: u32)
    ensures
        hex_u32(register_hex(v)) == Some(swap32(v)),
{
    let b0 = byte_of(v, 0);
    let b1 = byte_of(v, 1);
    let b2 = byte_of(v, 2);
    let b3 = byte_of(v, 3);
    let s = register_hex(v);
    lemma_hex_char_value(b0 as nat / 16);
    lemma_hex_char_value(b0 as nat % 16);
    lemma_hex_char_value(b1 as nat / 16);
    lemma_hex_char_value(b1 as nat % 16);
    lemma_hex_char_value(b2 as nat / 16);
    lemma_hex_char_value(b2 as nat % 16);
    lemma_hex_char_value(b3 as nat / 16);
    lemma_hex_char_value(b3 as nat % 16);
    let d = seq![
        b0 as nat / 16,
        b0 as nat % 16,
        b1 as nat / 16,
        b1 as nat % 16,
        b2 as nat / 16,
        b2 as nat % 16,
        b3 as nat / 16,
        b3 as nat % 16,
    ];
    assert(s.len() == 8);
    assert forall|k: int| 0 <= k < 8 implies digit_value(#[trigger] s[k]) == Some(d[k]) by {}
    assert(s.subrange(0, 0) =~= Seq::<u8>::empty());
    lemma_digits_step(s, 0, 0);
    lemma_digits_step(s, 1, d[0]);
    lemma_digits_step(s, 2, d[0] * 16 + d[1]);
    lemma_digits_step(s, 3, (d[0] * 16 + d[1]) * 16 + d[2]);
    lemma_digits_step(s, 4, ((d[0] * 16 + d[1]) * 16 + d[2]) * 16 + d[3]);
    lemma_digits_step(s, 5, (((d[0] * 16 + d[1]) * 16 + d[2]) * 16 + d[3]) * 16 + d[4]);
    lemma_digits_step(s, 6, ((((d[0] * 16 + d[1]) * 16 + d[2]) * 16 + d[3]) * 16 + d[4]) * 16 + d[5]);
    lemma_digits_step(
        s,
        7,
        (((((d[0] * 16 + d[1]) * 16 + d[2]) * 16 + d[3]) * 16 + d[4]) * 16 + d[5]) * 16 + d[6],
    );
    assert(s.subrange(0, 8) =~= s);
    assert(s[0] != 43) by {
        assert(digit_value(s[0]) is Some);
    }
    let total = ((((((d[0] * 16 + d[1]) * 16 + d[2]) * 16 + d[3]) * 16 + d[4]) * 16 + d[5]) * 16
        + d[6]) * 16 + d[7];
    assert(total == b0 as nat * 16777216 + b1 as nat * 65536 + b2 as nat * 256 + b3 as nat);
    assert(swap32(v) as nat == b0 as nat * 16777216 + b1 as nat * 65536 + b2 as nat * 256
        + b3 as nat) by (bit_vector)
        requires
            b0 == ((v >> 0) & 0xff) as u8,
            b1 == ((v >> 8) & 0xff) as u8,
            b2 == ((v >> 16) & 0xff) as u8,
            b3 == ((v >> 24) & 0xff) as u8,
    ;
}

/// Reversing the byte order twice gives the value back.
pub proof fn lemma_swap32_involutive(v: u32)
    ensures
        swap32(swap32(v)) == v,
{
    assert(swap32(swap32(v)) == v) by (bit_vector);
}


/// Whether `b` is a digit as this server writes them: `0`-`9` or `a`-`f`.
pub open spec fn is_lower_hex_digit(b: u8) -> bool {
    (48 <= b && b <= 57) || (97 <= b && b <= 102)
}

/// A lower-case digit is the digit character of its value.
proof fn lemma_lower_hex_char(c: u8)
    requires
        is_lower_hex_digit(c),
    ensures
        digit_value(c) is Some,
        digit_value(c).unwrap() < 16,
        hex_char(digit_value(c).unwrap()) == c,
{
}

/// Two lower-case digits read as a byte are written back as themselves.
pub proof fn lemma_lower_byte_roundtrip(s: Seq<u8>)
    requires
        s.len() == 2,
        is_lower_hex_digit(s[0]),
        is_lower_hex_digit(s[1]),
    ensures
        hex_u8(s) is Some,
        hex_u8(s).unwrap() as nat == digit_value(s[0]).unwrap() * 16 + digit_value(s[1]).unwrap(),
        byte_hex(hex_u8(s).unwrap()) == s,
{
    lemma_lower_hex_char(s[0]);
    lemma_lower_hex_char(s[1]);
    let d0 = digit_value(s[0]).unwrap();
    let d1 = digit_value(s[1]).unwrap();
    assert(s.subrange(0, 0) =~= Seq::<u8>::empty());
    lemma_digits_step(s, 0, 0);
    lemma_digits_step(s, 1, d0);
    assert(s.subrange(0, 2) =~= s);
    assert(digits_value(s) == Some(d0 * 16 + d1));
    let b = (d0 * 16 + d1) as u8;
    assert(hex_u8(s) == Some(b));
    assert(b as nat / 16 == d0 && b as nat % 16 == d1);
    assert(byte_hex(b) =~= s);
}

/// Eight lower-case digits read as a number, byte-reversed and written in
/// GDB's register notation, are written back as themselves.
pub proof fn lemma_lower_word_roundtrip(s: Seq<u8>)
    requires
        s.len() == 8,
        forall|k: int| 0 <= k < 8 ==> is_lower_hex_digit(#[trigger] s[k]),
    ensures
        hex_u32(s) is Some,
        register_hex(swap32(hex_u32(s).unwrap())) == s,
{
    let p0 = s.subrange(0, 2);
    let p1 = s.subrange(2, 4);
    let p2 = s.subrange(4, 6);
    let p3 = s.subrange(6, 8);
    assert(is_lower_hex_digit(s[0]) && is_lower_hex_digit(s[1]) && is_lower_hex_digit(s[2])
        && is_lower_hex_digit(s[3]) && is_lower_hex_digit(s[4]) && is_lower_hex_digit(s[5])
        && is_lower_hex_digit(s[6]) && is_lower_hex_digit(s[7]));
    lemma_lower_byte_roundtrip(p0);
    lemma_lower_byte_roundtrip(p1);
    lemma_lower_byte_roundtrip(p2);
    lemma_lower_byte_roundtrip(p3);
    let b0 = hex_u8(p0).unwrap();
    let b1 = hex_u8(p1).unwrap();
    let b2 = hex_u8(p2).unwrap();
    let b3 = hex_u8(p3).unwrap();
    let d = Seq::new(8, |j: int| digit_value(s[j]).unwrap());
    assert forall|j: int| 0 <= j < 8 implies digit_value(#[trigger] s[j]) == Some(d[j]) by {
        lemma_lower_hex_char(s[j]);
    }
    assert(s.subrange(0, 0) =~= Seq::<u8>::empty());
    lemma_digits_step(s, 0, 0);
    lemma_digits_step(s, 1, d[0]);
    lemma_digits_step(s, 2, d[0] * 16 + d[1]);
    lemma_digits_step(s, 3, (d[0] * 16 + d[1]) * 16 + d[2]);
    lemma_digits_step(s, 4, ((d[0] * 16 + d[1]) * 16 + d[2]) * 16 + d[3]);
    lemma_digits_step(s, 5, (((d[0] * 16 + d[1]) * 16 + d[2]) * 16 + d[3]) * 16 + d[4]);
    lemma_digits_step(s, 6, ((((d[0] * 16 + d[1]) * 16 + d[2]) * 16 + d[3]) * 16 + d[4]) * 16 + d[5]);
    lemma_digits_step(
        s,
        7,
        (((((d[0] * 16 + d[1]) * 16 + d[2]) * 16 + d[3]) * 16 + d[4]) * 16 + d[5]) * 16 + d[6],
    );
    assert(s.subrange(0, 8) =~= s);
    let total = ((((((d[0] * 16 + d[1]) * 16 + d[2]) * 16 + d[3]) * 16 + d[4]) * 16 + d[5]) * 16
        + d[6]) * 16 + d[7];
    assert(b0 as nat == d[0] * 16 + d[1]);
    assert(b1 as nat == d[2] * 16 + d[3]);
    assert(b2 as nat == d[4] * 16 + d[5]);
    assert(b3 as nat == d[6] * 16 + d[7]);
    assert(total == b0 as nat * 16777216 + b1 as nat * 65536 + b2 as nat * 256 + b3 as nat);
    assert(digits_value(s) == Some(total));
    assert(s[0] != 43);
    let v = total as u32;
    assert(hex_u32(s) == Some(v));
    let u = swap32(v);
    assert(byte_of(u, 0) == b0 && byte_of(u, 1) == b1 && byte_of(u, 2) == b2 && byte_of(u, 3) == b3)
        by (bit_vector)
        requires
            v as nat == b0 as nat * 16777216 + b1 as nat * 65536 + b2 as nat * 256 + b3 as nat,
            u == ((v & 0xff) << 24) | (((v >> 8) & 0xff) << 16) | (((v >> 16) & 0xff) << 8) | ((v
                >> 24) & 0xff),
    ;
    assert(register_hex(u) =~= p0 + p1 + p2 + p3);
    assert(p0 + p1 + p2 + p3 =~= s);
}


/// Every byte of a valid digit string is a digit.
proof fn lemma_digits_are_digits(s: Seq<u8>)
    requires
        digits_value(s) is Some,
    ensures
        forall|i: int| 0 <= i < s.len() ==> #[trigger] digit_value(s[i]) is Some,
    decreases s.len(),
{
    if s.len() > 0 {
        lemma_digits_are_digits(s.drop_last());
        assert forall|i: int| 0 <= i < s.len() implies #[trigger] digit_value(s[i]) is Some by {
            if i < s.len() - 1 {
                assert(s.drop_last()[i] == s[i]);
            }
        }
    }
}

/// A text read as a hexadecimal number holds only digits and a leading
/// `+`: no separator (`,`, `:`, `;`, `=`) and no `#`.
pub proof fn lemma_number_text_bytes(s: Seq<u8>)
    requires
        radix16(s) is Some,
    ensures
        s.len() > 0,
        forall|i: int| 0 <= i < s.len() ==> #[trigger] s[i] == 43 || digit_value(s[i]) is Some,
        forall|i: int|
            0 <= i < s.len() ==> #[trigger] s[i] != 44 && s[i] != 58 && s[i] != 59 && s[i] != 61 && s[i]
                != 35,
{
    let d = sign_stripped(s);
    lemma_digits_are_digits(d);
    assert forall|i: int| 0 <= i < s.len() implies #[trigger] s[i] == 43 || digit_value(s[i]) is Some by {
        if s.len() > 0 && s[0] == 43 {
            if i > 0 {
                assert(d[i - 1] == s[i]);
            }
        } else {
            assert(d[i] == s[i]);
        }
    }
}

} // verus!
