//! Calls of the codecs: what is encoded is decoded again, and how it is laid out.

use vstd::prelude::*;
use crate::commands::{decode_read, parse_func, read_registers};
use crate::crc::{crc16_modbus, crc16_modbus_bytes, law_crc_is_one_run, law_crc_on_the_wire};
use crate::data::{format_u16, law_patterns, law_signed, u16_to_i16, words_to_f32_bits, WordOrder};
use crate::framing::{append_crc, calc_crc, encode_rtu, encode_tcp, law_rtu_layout, law_rtu_roundtrip, law_tcp_layout, law_tcp_roundtrip, parse_rtu, parse_tcp, verify_crc, FramingError, MbapHeader};
use crate::hex::{hex_decode, hex_encode, law_hex_layout, law_hex_roundtrip};
use crate::number::Number;
use crate::text::{contains, decimal, digit_char, occurs_in, parse_decimal, to_ascii_lower, to_decimal, trim};
use crate::wire::{bit_of, make_word, pack_bits, test_bit};

verus! {

/// The CRC of a message with one more byte is one more run of the register over that byte;
/// the CRC of the empty message is 0xFFFF.
pub proof fn law_crc_calls(s: &[u8], t: &[u8], b: u8, x: u16, y: u16)
    requires
        call_ensures(crc16_modbus, (s,), x),
        call_ensures(crc16_modbus, (t,), y),
        t@ == s@.push(b),
    ensures
        s@.len() == 0 ==> x == 0xFFFF,
        ({
            let f = |c: u16|
                if c & 1 != 0 {
                    (c >> 1) ^ 0xA001
                } else {
                    c >> 1
                };
            y == f(f(f(f(f(f(f(f(x ^ (b as u16)))))))))
        }),
{
    law_crc_is_one_run(s@, b);
    if s@.len() == 0 {
        assert(s@ =~= Seq::<u8>::empty());
    }
}

/// The CRC of a message is the same by both functions that compute it, and its two bytes
/// are the low one and the high one.
pub proof fn law_crc_bytes_calls(s: &[u8], x: u16, y: u16, z: [u8; 2])
    requires
        call_ensures(crc16_modbus, (s,), x),
        call_ensures(calc_crc, (s,), y),
        call_ensures(crc16_modbus_bytes, (s,), z),
    ensures
        x == y,
        z@.len() == 2,
        z@[0] + 256 * z@[1] == x,
{
    law_crc_on_the_wire(s@);
}

/// A buffer to which its CRC was appended is the buffer and two more bytes, the CRC with its
/// low byte first, and passes the test; with any other two bytes it does not.
pub proof fn law_append_then_verify(
    buf: &mut Vec<u8>,
    u: (),
    data: &[u8],
    ok: bool,
    other: &[u8],
    fits: bool,
    body: &[u8],
    crc: u16,
)
    requires
        call_ensures(append_crc, (buf,), u),
        call_ensures(verify_crc, (data,), ok),
        call_ensures(verify_crc, (other,), fits),
        call_ensures(crc16_modbus, (body,), crc),
        body@ == old(buf)@,
        data@ == final(buf)@,
        other@.len() == old(buf)@.len() + 2,
        other@.take(old(buf)@.len() as int) == old(buf)@,
    ensures
        ok,
        final(buf)@.len() == old(buf)@.len() + 2,
        final(buf)@.take(old(buf)@.len() as int) == old(buf)@,
        final(buf)@[old(buf)@.len() as int] + 256 * final(buf)@[1 + old(buf)@.len() as int] == crc,
        fits <==> other@ == final(buf)@,
{
    let s = old(buf)@;
    let n = s.len() as int;
    law_crc_on_the_wire(s);
    crate::framing::law_appended_crc_verifies(s);
    crate::framing::law_crc_test(other@);
    assert(final(buf)@.take(n) =~= s);
    if fits {
        assert(other@ =~= final(buf)@) by {
            assert forall|i: int| 0 <= i < n + 2 implies other@[i] == final(buf)@[i] by {
                if i < n {
                    assert(other@.take(n)[i] == s[i]);
                }
            }
        }
    }
}

/// A Modbus TCP frame that was built is taken apart into what it was built from, whatever
/// bytes follow it; its header has the layout of the protocol.
pub proof fn law_tcp_frame_calls(
    unit_id: u8,
    tid: u16,
    pdu: &[u8],
    adu: Vec<u8>,
    stream: &[u8],
    rest: Seq<u8>,
    parts: Result<(u16, u8, Vec<u8>), FramingError>,
)
    requires
        call_ensures(encode_tcp, (unit_id, tid, pdu), adu),
        call_ensures(parse_tcp, (stream,), parts),
        stream@ == adu@ + rest,
        pdu@.len() <= 65534,
    ensures
        parts matches Ok(p) && p.0 == tid && p.1 == unit_id && p.2@ == pdu@,
        adu@.len() == pdu@.len() + 7,
        256 * adu@[0] + adu@[1] == tid,
        adu@[2] == 0 && adu@[3] == 0,
        256 * adu@[4] + adu@[5] == pdu@.len() + 1,
        adu@[6] == unit_id,
        adu@.skip(7) == pdu@,
{
    law_tcp_roundtrip(unit_id, tid, pdu@, rest);
    law_tcp_layout(unit_id, tid, pdu@);
}

/// A header that was encoded is decoded as it was.
pub proof fn law_header_calls(
    h: &MbapHeader,
    out: &mut Vec<u8>,
    u: (),
    data: &[u8],
    r: Result<MbapHeader, FramingError>,
)
    requires
        call_ensures(MbapHeader::encode, (h, out), u),
        call_ensures(MbapHeader::decode, (data,), r),
    ensures
        final(out)@.len() == old(out)@.len() + 7,
        final(out)@.take(old(out)@.len() as int) == old(out)@,
        data@ == final(out)@.skip(old(out)@.len() as int) ==> r == Ok::<MbapHeader, FramingError>(
            *h,
        ),
        data@.len() < 7 ==> r == Err::<MbapHeader, FramingError>(FramingError::IncompleteFrame),
{
    let n = old(out)@.len() as int;
    assert(final(out)@.take(n) =~= old(out)@);
    assert(final(out)@.skip(n) =~= h.bytes());
    crate::framing::law_mbap_roundtrip(*h, Seq::empty());
    assert(h.bytes() + Seq::<u8>::empty() =~= h.bytes());
}

/// What is no Modbus TCP frame is refused: too short a header or body as incomplete, another
/// protocol id or a length of zero as an invalid header.
pub proof fn law_tcp_refusals(adu: &[u8], r: Result<(u16, u8, Vec<u8>), FramingError>)
    requires
        call_ensures(parse_tcp, (adu,), r),
    ensures
        adu@.len() < 7 ==> r matches Err(FramingError::IncompleteFrame),
        adu@.len() >= 7 && (adu@[2] != 0 || adu@[3] != 0 || (adu@[4] == 0 && adu@[5] == 0))
            ==> r matches Err(FramingError::InvalidMbap),
        adu@.len() >= 7 && adu@[2] == 0 && adu@[3] == 0 && 256 * adu@[4] + adu@[5] > 0 && adu@.len()
            < 256 * adu@[4] + adu@[5] + 6 ==> r matches Err(FramingError::IncompleteFrame),
        adu@.len() >= 7 && adu@[2] == 0 && adu@[3] == 0 && 256 * adu@[4] + adu@[5] > 0 && adu@.len()
            >= 256 * adu@[4] + adu@[5] + 6 ==> r is Ok,
{
    crate::framing::law_tcp_verdicts(adu@);
}

/// A Modbus RTU frame that was built is taken apart into what it was built from, and ends
/// with the CRC of what stands before, its low byte first.
pub proof fn law_rtu_frame_calls(
    unit_id: u8,
    pdu: &[u8],
    adu: Vec<u8>,
    line: &[u8],
    parts: Result<(u8, Vec<u8>), FramingError>,
    body: &[u8],
    crc: u16,
)
    requires
        call_ensures(encode_rtu, (unit_id, pdu), adu),
        call_ensures(parse_rtu, (line,), parts),
        call_ensures(crc16_modbus, (body,), crc),
        line@ == adu@,
        body@ == seq![unit_id] + pdu@,
    ensures
        adu@.len() == pdu@.len() + 3,
        adu@[0] == unit_id,
        adu@.subrange(1, 1 + pdu@.len() as int) == pdu@,
        adu@[1 + pdu@.len() as int] + 256 * adu@[2 + pdu@.len() as int] == crc,
        pdu@.len() >= 2 ==> (parts matches Ok(p) && p.0 == unit_id && p.1@ == pdu@),
        pdu@.len() < 2 ==> parts matches Err(FramingError::IncompleteFrame),
{
    law_rtu_layout(unit_id, pdu@);
    assert(adu@.take(1 + pdu@.len() as int) =~= body@);
    if pdu@.len() >= 2 {
        law_rtu_roundtrip(unit_id, pdu@);
    }
}

/// A frame that is taken apart is one that the parts build; a frame of at least five bytes
/// that no parts build is refused for its CRC.
pub proof fn law_rtu_refusals(
    line: &[u8],
    parts: Result<(u8, Vec<u8>), FramingError>,
    body: &[u8],
    crc: u16,
)
    requires
        call_ensures(parse_rtu, (line,), parts),
        call_ensures(crc16_modbus, (body,), crc),
        line@.len() >= 5,
        body@ == line@.take(line@.len() - 2),
    ensures
        line@[line@.len() - 2] + 256 * line@[line@.len() - 1] == crc ==> (parts matches Ok(p)
            && p.0 == line@[0] && p.1@ == line@.subrange(1, line@.len() - 2)),
        line@[line@.len() - 2] + 256 * line@[line@.len() - 1] != crc ==> parts matches Err(
            FramingError::InvalidCrc,
        ),
{
    crate::framing::law_rtu_verdicts(line@);
}

/// Bytes that were shown in hexadecimal are read back, and are shown as two capital digits
/// each with a blank between.
pub proof fn law_hex_calls(b: &[u8], t: String, s: &str, r: Result<Vec<u8>, String>, i: int)
    requires
        call_ensures(hex_encode, (b,), t),
        call_ensures(hex_decode, (s,), r),
        s@ == t@,
        0 <= i < b@.len(),
    ensures
        r matches Ok(v) && v@ == b@,
        t@.len() == 3 * b@.len() - 1,
        t@[3 * i] == digit_char(b@[i] as int / 16, true),
        t@[3 * i + 1] == digit_char(b@[i] as int % 16, true),
        i + 1 < b@.len() ==> t@[3 * i + 2] == ' ',
{
    law_hex_roundtrip(b@);
    law_hex_layout(b@, i);
}

/// A number that was written in decimal is read back where it is within the bound, and
/// refused where it is not.
pub proof fn law_decimal_calls(n: u64, t: String, s: &str, max: u32, r: Option<u32>)
    requires
        call_ensures(to_decimal, (n,), t),
        call_ensures(parse_decimal, (s, max), r),
        s@ == t@,
    ensures
        n <= max ==> r == Some(n as u32),
        n > max ==> r is None,
{
    crate::text::law_decimal_roundtrip(n as nat, n as nat);
    crate::text::law_decimal_form(n as nat);
    if n <= max {
        crate::text::law_decimal_roundtrip(n as nat, max as nat);
    }
}

/// A number up to 255 asks for the function of that number, and a text that is no such
/// number for function three.
pub proof fn law_function_calls(n: u64, t: String, func: &str, r: u8)
    requires
        call_ensures(to_decimal, (n,), t),
        call_ensures(parse_func, (func,), r),
    ensures
        func@ == t@ && n <= 255 ==> r == n,
        func@ == t@ && n > 255 ==> r == 3,
        func@.len() == 0 ==> r == 3,
{
    crate::commands::law_functions_asked_for(func@, n as nat);
    crate::text::law_decimal_roundtrip(n as nat, n as nat);
    crate::text::law_decimal_form(n as nat);
    crate::text::law_number_texts(func@, 255);
}

/// Two registers make the pattern that the order says, and a register is signed where its
/// top bit is set.
pub proof fn law_word_calls(w1: u16, w2: u16, a: u32, b: u32, c: u32, d: u32, s: i16)
    requires
        call_ensures(words_to_f32_bits, (w1, w2, WordOrder::Abcd), a),
        call_ensures(words_to_f32_bits, (w1, w2, WordOrder::Cdab), b),
        call_ensures(words_to_f32_bits, (w1, w2, WordOrder::Badc), c),
        call_ensures(words_to_f32_bits, (w1, w2, WordOrder::Dcba), d),
        call_ensures(u16_to_i16, (w1,), s),
    ensures
        a == 65536 * w1 + w2,
        b == 65536 * w2 + w1,
        c == 65536 * (256 * (w1 as int % 256) + w1 as int / 256) + (256 * (w2 as int % 256)
            + w2 as int / 256),
        d == 65536 * (256 * (w2 as int % 256) + w2 as int / 256) + (256 * (w1 as int % 256)
            + w1 as int / 256),
        s as int % 65536 == w1,
{
    law_patterns(w1, w2);
    law_signed(w1);
}

/// A word that is shown as plain decimal is read back; in hexadecimal it has "0x" and four
/// capital digits.
pub proof fn law_format_calls(v: u16, repr: &str, t: String, s: &str, r: Option<u32>)
    requires
        call_ensures(format_u16, (v, repr), t),
        call_ensures(parse_decimal, (s, 65535u32), r),
        s@ == t@,
    ensures
        repr@ == "u16"@ ==> r == Some(v as u32),
        repr@ == "s16"@ && v < 0x8000 ==> r == Some(v as u32),
        repr@ == "s16"@ && v >= 0x8000 ==> t@[0] == '-' && t@.skip(1) == decimal(
            (0x10000 - v) as nat,
        ),
        repr@ == "hex"@ ==> t@.len() == 6 && t@[0] == '0' && t@[1] == 'x' && t@.skip(2)
            == crate::text::fixed_digits(v as nat, 16, 4, true),
        repr@ == "bin"@ ==> t@ == crate::text::fixed_digits(v as nat, 2, 16, true),
{
    crate::data::law_formats(v, repr@);
    crate::text::law_decimal_roundtrip(v as nat, 65535);
    reveal_strlit("u16");
    reveal_strlit("s16");
    reveal_strlit("hex");
    reveal_strlit("bin");
    assert("u16"@[0] == 'u' && "s16"@[0] == 's' && "hex"@[0] == 'h' && "bin"@[0] == 'b');
    let low = crate::text::lowered(repr@);
    if repr@ == "u16"@ {
        crate::text::law_lowered(repr@, 0);
        assert(low[0] == 'u');
    }
    if repr@ == "s16"@ || repr@ == "hex"@ || repr@ == "bin"@ {
        assert forall|i: int| 0 <= i < 3 implies low[i] == repr@[i] by {
            crate::text::law_lowered(repr@, i);
        }
        assert(low =~= repr@);
    }
}

/// Packed bits are read back by testing bit `i % 8` of byte `i / 8`.
pub proof fn law_bit_calls(bits: &Vec<bool>, packed: Vec<u8>, i: int, b: u8, k: usize, r: bool)
    requires
        call_ensures(pack_bits, (bits,), packed),
        call_ensures(test_bit, (b, k), r),
        0 <= i < bits@.len(),
        b == packed@[i / 8],
        k == i % 8,
    ensures
        r == bits@[i],
        packed@.len() == (bits@.len() + 7) / 8,
{
    crate::wire::law_packed_places(bits@, i);
}

/// A word is 256 times its high byte, and its low byte.
pub proof fn law_make_word_calls(h: u8, l: u8, r: u16)
    requires
        call_ensures(make_word, (h, l), r),
    ensures
        r == 256 * h + l,
{
    crate::wire::law_word_layout(0, h, l);
}

/// Lower case moves the ASCII capitals and nothing else; trimming cuts white space off both
/// ends; and a text holds a part exactly where it can be cut into something, the part and
/// something.
pub proof fn law_text_calls(
    s: &str,
    part: &str,
    low: String,
    cut: String,
    has: bool,
    i: int,
    front: Seq<char>,
    back: Seq<char>,
)
    requires
        call_ensures(to_ascii_lower, (s,), low),
        call_ensures(trim, (s,), cut),
        call_ensures(contains, (s, part), has),
        0 <= i < s@.len(),
    ensures
        low@.len() == s@.len(),
        65 <= s@[i] as u32 <= 90 ==> low@[i] as u32 == s@[i] as u32 + 32,
        !(65 <= s@[i] as u32 <= 90) ==> low@[i] == s@[i],
        cut@.len() > 0 ==> !crate::text::white_space(cut@[0]) && !crate::text::white_space(
            cut@.last(),
        ),
        exists|a: int, b: int| 0 <= a <= b <= s@.len() && cut@ == #[trigger] s@.subrange(a, b),
        s@ == front + part@ + back ==> has,
        has == occurs_in(part@, s@),
{
    crate::text::law_lowered(s@, i);
    crate::text::law_trimmed(s@);
    crate::text::law_occurrence(part@, s@, front, back);
}

/// A number is clamped to the nearest register value, and is a set bit unless it is zero.
pub proof fn law_number_calls(v: Number, r: u16, n: bool)
    requires
        call_ensures(Number::clamp_u16, (v,), r),
        call_ensures(Number::is_nonzero, (v,), n),
    ensures
        v.is_nan() || v.sign_set() ==> r == 0,
        v.is_infinite() && !v.sign_set() ==> r == 65535,
        !v.is_nan() && !v.is_infinite() && !v.sign_set() && v.numerator() <= 65535
            * v.denominator() ==> 2 * v.numerator() - v.denominator() < 2 * r * v.denominator()
            <= 2 * v.numerator() + v.denominator(),
        !v.is_nan() && !v.is_infinite() && !v.sign_set() && v.numerator() >= 65535
            * v.denominator() ==> r == 65535,
        n <==> v.bits != 0 && v.bits != 0x8000_0000_0000_0000,
{
    crate::number::law_register_limits(v);
    crate::number::law_bit_of_number(v);
    if !v.is_nan() && !v.is_infinite() && !v.sign_set() && v.numerator() <= 65535
        * v.denominator() {
        crate::number::law_register_is_nearest(v);
    }
}

/// A response with the function that was asked for is read: pairs of bytes as words, and
/// bits eight to a byte.
pub proof fn law_response_calls(
    resp: &[u8],
    func: u8,
    count: usize,
    v: Vec<u16>,
    w: Result<Vec<u16>, String>,
    i: int,
)
    requires
        call_ensures(decode_read, (resp, func, count), v),
        call_ensures(read_registers, (resp,), w),
        resp@.len() >= 2,
        resp@.len() >= 2 + resp@[1],
        0 <= i,
    ensures
        resp@[0] != func ==> v@.len() == 0,
        resp@[0] == func && func > 2 ==> v@.len() == resp@[1] as int / 2,
        resp@[0] == func && func > 2 && i < v@.len() ==> v@[i] == 256 * resp@[2 + 2 * i] + resp@[3
            + 2 * i],
        resp@[0] == func && 1 <= func <= 2 ==> v@.len() == (if count < 8 * resp@[1] {
            count as int
        } else {
            8 * resp@[1]
        }),
        resp@[0] == func && 1 <= func <= 2 && i < v@.len() ==> v@[i] == (if bit_of(
            resp@[2 + i / 8],
            i % 8,
        ) {
            1u16
        } else {
            0
        }),
        resp@[0] == 3 <==> w is Ok,
        w matches Ok(x) ==> x@.len() == resp@[1] as int / 2 && (i < x@.len() ==> x@[i] == 256
            * resp@[2 + 2 * i] + resp@[3 + 2 * i]),
{
    crate::commands::law_responses_are_read(resp@, func, count as nat, i);
    crate::commands::law_register_responses_are_read(resp@, i);
}

} // verus!
