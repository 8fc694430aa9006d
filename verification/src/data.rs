//! Register value formatting and word order.

use vstd::prelude::*;
use vstd::string::*;
use crate::text::{decimal, fixed_digits, lowered, push_decimal, push_fixed, same, to_ascii_lower};
use crate::wire::{high, high_byte, low, low_byte};

verus! {

/// Byte and word order of 32-bit values that span two registers.
#[derive(Debug, Clone, Copy, PartialEq, Eq, Structural)]
pub enum WordOrder {
    /// Most significant word first, most significant byte first.
    Abcd,
    /// Words swapped.
    Cdab,
    /// Bytes within each word swapped.
    Badc,
    /// Least significant word first, least significant byte first.
    Dcba,
}

impl Default for WordOrder {
    fn default() -> (r: Self)
        ensures
            r == WordOrder::Abcd,
    {
        WordOrder::Abcd
    }
}

/// The four bytes of a value, most significant first, that two registers hold.
pub open spec fn ordered_bytes(w1: u16, w2: u16, order: WordOrder) -> Seq<u8> {
    match order {
        WordOrder::Abcd => seq![high(w1), low(w1), high(w2), low(w2)],
        WordOrder::Cdab => seq![high(w2), low(w2), high(w1), low(w1)],
        WordOrder::Badc => seq![low(w1), high(w1), low(w2), high(w2)],
        WordOrder::Dcba => seq![low(w2), high(w2), low(w1), high(w1)],
    }
}

/// The 32-bit pattern of four bytes, most significant first.
pub open spec fn pattern(b: Seq<u8>) -> u32 {
    (b[0] * 0x100_0000 + b[1] * 0x1_0000 + b[2] * 0x100 + b[3]) as u32
}

/// The bit pattern of the single-precision float that two registers hold.
pub fn words_to_f32_bits(w1: u16, w2: u16, order: WordOrder) -> (r: u32)
    ensures
        r == pattern(ordered_bytes(w1, w2, order)),
{
    let h1: u32 = high_byte(w1) as u32;
    let l1: u32 = low_byte(w1) as u32;
    let h2: u32 = high_byte(w2) as u32;
    let l2: u32 = low_byte(w2) as u32;
    match order {
        WordOrder::Abcd => h1 * 0x100_0000 + l1 * 0x1_0000 + h2 * 0x100 + l2,
        WordOrder::Cdab => h2 * 0x100_0000 + l2 * 0x1_0000 + h1 * 0x100 + l1,
        WordOrder::Badc => l1 * 0x100_0000 + h1 * 0x1_0000 + l2 * 0x100 + h2,
        WordOrder::Dcba => l2 * 0x100_0000 + h2 * 0x1_0000 + l1 * 0x100 + h1,
    }
}

/// A word read as a signed number.
pub open spec fn signed(v: u16) -> int {
    if v < 0x8000 {
        v as int
    } else {
        v - 0x10000
    }
}

/// Reinterprets a word as signed.
pub fn u16_to_i16(v: u16) -> (r: i16)
    ensures
        r == signed(v),
{
    if v < 0x8000 {
        v as i16
    } else {
        ((v as i32) - 0x10000) as i16
    }
}

/// A signed number in decimal notation.
pub open spec fn signed_decimal(n: int) -> Seq<char> {
    if n < 0 {
        seq!['-'] + decimal((-n) as nat)
    } else {
        decimal(n as nat)
    }
}

/// A word as `repr` asks for it, small and capital ASCII letters alike: "hex",
/// "bin", "s16" (signed), or else unsigned decimal.
pub open spec fn formatted(v: u16, repr: Seq<char>) -> Seq<char> {
    if lowered(repr) == "hex"@ {
        "0x"@ + fixed_digits(v as nat, 16, 4, true)
    } else if lowered(repr) == "bin"@ {
        fixed_digits(v as nat, 2, 16, true)
    } else if lowered(repr) == "s16"@ {
        signed_decimal(signed(v))
    } else {
        decimal(v as nat)
    }
}

/// Formats a word for display.
pub fn format_u16(v: u16, repr: &str) -> (r: String)
    ensures
        r@ == formatted(v, repr@),
{
    let t = to_ascii_lower(repr);
    let mut out = String::new();
    if same(t.as_str(), "hex") {
        out.append("0x");
        push_fixed(&mut out, v as u64, 16, 4, true);
    } else if same(t.as_str(), "bin") {
        push_fixed(&mut out, v as u64, 2, 16, true);
    } else if same(t.as_str(), "s16") {
        if v < 0x8000 {
            push_decimal(&mut out, v as u64);
        } else {
            out.push('-');
            push_decimal(&mut out, 0x10000 - v as u64);
        }
    } else {
        push_decimal(&mut out, v as u64);
    }
    assert(out@ =~= formatted(v, repr@));
    out
}

/// Swapping the words turns the first order into the second, swapping the bytes of
/// each word into the third, and both into the fourth.
pub proof fn law_word_orders(w1: u16, w2: u16)
    ensures
        ordered_bytes(w1, w2, WordOrder::Cdab) == ordered_bytes(w2, w1, WordOrder::Abcd),
        ordered_bytes(w1, w2, WordOrder::Badc) == ordered_bytes(
            crate::wire::word(low(w1), high(w1)),
            crate::wire::word(low(w2), high(w2)),
            WordOrder::Abcd,
        ),
        ordered_bytes(w1, w2, WordOrder::Dcba) == ordered_bytes(w1, w2, WordOrder::Abcd).reverse(),
{
    crate::wire::law_word_roundtrip(0, low(w1), high(w1));
    crate::wire::law_word_roundtrip(0, low(w2), high(w2));
    assert(ordered_bytes(w1, w2, WordOrder::Dcba) =~= ordered_bytes(
        w1,
        w2,
        WordOrder::Abcd,
    ).reverse());
}

/// Two registers make a 32-bit pattern: the first one high, or the second, or each with
/// its two bytes exchanged.
pub proof fn law_patterns(w1: u16, w2: u16)
    ensures
        pattern(ordered_bytes(w1, w2, WordOrder::Abcd)) as int == 65536 * w1 + w2,
        pattern(ordered_bytes(w1, w2, WordOrder::Cdab)) as int == 65536 * w2 + w1,
        pattern(ordered_bytes(w1, w2, WordOrder::Badc)) as int == 65536 * (256 * (w1 as int % 256)
            + w1 as int / 256) + (256 * (w2 as int % 256) + w2 as int / 256),
        pattern(ordered_bytes(w1, w2, WordOrder::Dcba)) as int == 65536 * (256 * (w2 as int % 256)
            + w2 as int / 256) + (256 * (w1 as int % 256) + w1 as int / 256),
{
}

/// A word read as signed is the number from -32768 to 32767 that leaves the same remainder
/// by 65536.
pub proof fn law_signed(v: u16)
    ensures
        -32768 <= signed(v) <= 32767,
        signed(v) % 65536 == v,
{
}

/// A word shown in hexadecimal has "0x" and four capital digits, in binary sixteen digits,
/// signed the decimal number with its sign, and else the decimal number.
pub proof fn law_formats(v: u16, repr: Seq<char>)
    ensures
        ({
            let t = formatted(v, repr);
            &&& lowered(repr) == "hex"@ ==> t.len() == 6 && t[0] == '0' && t[1] == 'x' && t.skip(2)
                == fixed_digits(v as nat, 16, 4, true)
            &&& lowered(repr) == "bin"@ ==> t.len() == 16 && t == fixed_digits(
                v as nat,
                2,
                16,
                true,
            )
            &&& lowered(repr) == "s16"@ && v < 0x8000 ==> t == decimal(v as nat)
            &&& lowered(repr) == "s16"@ && v >= 0x8000 ==> t.len() > 1 && t[0] == '-' && t.skip(1)
                == decimal((0x10000 - v) as nat)
            &&& lowered(repr) != "hex"@ && lowered(repr) != "bin"@ && lowered(repr) != "s16"@ ==> t
                == decimal(v as nat)
        }),
{
    reveal_strlit("hex");
    reveal_strlit("bin");
    reveal_strlit("s16");
    reveal_strlit("0x");
    assert("hex"@[0] == 'h' && "bin"@[0] == 'b' && "s16"@[0] == 's');
    let t = formatted(v, repr);
    crate::text::law_fixed_places(v as nat, 16, 4, true, 0);
    crate::text::law_fixed_places(v as nat, 2, 16, true, 0);
    crate::text::law_decimal_form((0x10000 - v) as nat);
    assert(("0x"@ + fixed_digits(v as nat, 16, 4, true)).skip(2) =~= fixed_digits(
        v as nat,
        16,
        4,
        true,
    ));
    assert((seq!['-'] + decimal((0x10000 - v) as nat)).skip(1) =~= decimal((0x10000 - v) as nat));
}

} // verus!
