//! Human-readable hexadecimal, as the frame panels show and take it.

use vstd::prelude::*;
use vstd::string::*;
use vstd::utf8::{encode_utf8, is_ascii_chars, is_ascii_chars_encode_utf8};
use crate::text::{chars_of, digit_char, fixed_digits, is_white_space, push_fixed, white_space};

verus! {

/// Bytes in capital hexadecimal digits, two for each, with a blank between bytes.
pub open spec fn hex_text(b: Seq<u8>) -> Seq<char>
    decreases b.len(),
{
    if b.len() == 0 {
        Seq::empty()
    } else if b.len() == 1 {
        fixed_digits(b[0] as nat, 16, 2, true)
    } else {
        hex_text(b.drop_last()).push(' ') + fixed_digits(b.last() as nat, 16, 2, true)
    }
}

/// A text without its white space.
pub open spec fn stripped(s: Seq<char>) -> Seq<char> {
    s.filter(|c: char| !white_space(c))
}

/// The value of a hexadecimal digit.
pub open spec fn hex_digit(c: char) -> Option<u8> {
    if '0' <= c <= '9' {
        Some((c as u32 - 48) as u8)
    } else if 'a' <= c <= 'f' {
        Some((c as u32 - 87) as u8)
    } else if 'A' <= c <= 'F' {
        Some((c as u32 - 55) as u8)
    } else {
        None
    }
}

/// The value of two characters: two hexadecimal digits, or a plus sign and one.
pub open spec fn pair_value(a: char, b: char) -> Option<u8> {
    match (hex_digit(a), hex_digit(b)) {
        (Some(x), Some(y)) => Some((x * 16 + y) as u8),
        (None, Some(y)) => if a == '+' {
            Some(y)
        } else {
            None
        },
        _ => None,
    }
}

/// What a text without white space amounts to, taken apart into pieces of two bytes of
/// its UTF-8 form.
pub enum HexScan {
    Bytes(Seq<u8>),
    /// Some piece is no hexadecimal number.
    BadDigit,
    /// All pieces up to one are hexadecimal numbers, and that one ends within a
    /// character.
    SplitChar,
}

/// `b` in front of what a scan has found.
pub open spec fn scan_after(b: Seq<u8>, rest: HexScan) -> HexScan {
    match rest {
        HexScan::Bytes(s) => HexScan::Bytes(b + s),
        _ => rest,
    }
}

/// What a text without white space amounts to.
pub open spec fn hex_scan(t: Seq<char>) -> HexScan
    decreases t.len(),
{
    if t.len() == 0 {
        HexScan::Bytes(Seq::empty())
    } else if t[0] as u32 >= 0x800 {
        HexScan::SplitChar
    } else if t[0] as u32 >= 0x80 || t.len() == 1 {
        HexScan::BadDigit
    } else if t[1] as u32 >= 0x80 {
        HexScan::SplitChar
    } else {
        match pair_value(t[0], t[1]) {
            None => HexScan::BadDigit,
            Some(b) => scan_after(seq![b], hex_scan(t.skip(2))),
        }
    }
}

/// Whether a text has an even number of bytes besides its white space.
pub open spec fn even_bytes(s: Seq<char>) -> bool {
    encode_utf8(stripped(s)).len() % 2 == 0
}

/// Whether reading a text as hexadecimal would cut a character in two.
pub open spec fn splits_char(s: Seq<char>) -> bool {
    even_bytes(s) && hex_scan(stripped(s)) is SplitChar
}

enum Scanned {
    Bytes(Vec<u8>),
    BadDigit,
    SplitChar,
}

fn strip(s: &str) -> (r: String)
    ensures
        r@ == stripped(s@),
{
    let v = chars_of(s);
    let ghost p = |c: char| !white_space(c);
    let mut out = String::new();
    let mut i: usize = 0;
    proof {
        reveal(Seq::filter);
        assert(v@.take(0) =~= Seq::empty());
        assert(out@ =~= v@.take(0).filter(p));
    }
    while i < v.len()
        invariant
            i <= v@.len(),
            p == (|c: char| !white_space(c)),
            out@ == v@.take(i as int).filter(p),
        decreases v@.len() - i,
    {
        proof {
            reveal(Seq::filter);
            let next = v@.take(i + 1);
            assert(next.drop_last() =~= v@.take(i as int));
            assert(next.last() == v@[i as int]);
        }
        if !is_white_space(v[i]) {
            out.push(v[i]);
        }
        i += 1;
    }
    assert(v@.take(i as int) =~= v@);
    out
}

fn digit_value(c: char) -> (r: Option<u8>)
    ensures
        r == hex_digit(c),
{
    if '0' <= c && c <= '9' {
        Some((c as u32 - 48) as u8)
    } else if 'a' <= c && c <= 'f' {
        Some((c as u32 - 87) as u8)
    } else if 'A' <= c && c <= 'F' {
        Some((c as u32 - 55) as u8)
    } else {
        None
    }
}

fn pair(a: char, b: char) -> (r: Option<u8>)
    ensures
        r == pair_value(a, b),
{
    match digit_value(b) {
        None => None,
        Some(y) => match digit_value(a) {
            Some(x) => Some(x * 16 + y),
            None => if a == '+' {
                Some(y)
            } else {
                None
            },
        },
    }
}

fn scan(t: &str) -> (r: Scanned)
    ensures
        match r {
            Scanned::Bytes(b) => hex_scan(t@) == HexScan::Bytes(b@),
            Scanned::BadDigit => hex_scan(t@) is BadDigit,
            Scanned::SplitChar => hex_scan(t@) is SplitChar,
        },
{
    let v = chars_of(t);
    let mut out: Vec<u8> = Vec::new();
    let mut i: usize = 0;
    proof {
        assert(v@.skip(0) =~= v@);
        if hex_scan(v@) is Bytes {
            assert(out@ + hex_scan(v@)->Bytes_0 =~= hex_scan(v@)->Bytes_0);
        }
    }
    while i < v.len()
        invariant
            i <= v@.len(),
            v@ == t@,
            hex_scan(t@) == scan_after(out@, hex_scan(v@.skip(i as int))),
        decreases v@.len() - i,
    {
        let ghost rest = v@.skip(i as int);
        let a: char = v[i];
        assert(rest[0] == a);
        if a as u32 >= 0x800 {
            return Scanned::SplitChar;
        }
        if a as u32 >= 0x80 || v.len() - i == 1 {
            return Scanned::BadDigit;
        }
        let b: char = v[i + 1];
        assert(rest[1] == b);
        if b as u32 >= 0x80 {
            return Scanned::SplitChar;
        }
        match pair(a, b) {
            None => {
                return Scanned::BadDigit;
            },
            Some(x) => {
                proof {
                    let tail = hex_scan(rest.skip(2));
                    assert(rest.skip(2) =~= v@.skip(i + 2));
                    if tail is Bytes {
                        assert(out@ + (seq![x] + tail->Bytes_0) =~= out@.push(x) + tail->Bytes_0);
                    }
                }
                out.push(x);
                i += 2;
            },
        }
    }
    proof {
        assert(v@.skip(i as int) =~= Seq::empty());
        assert(out@ + Seq::<u8>::empty() =~= out@);
    }
    Scanned::Bytes(out)
}

fn has_even_bytes(t: &str) -> (r: bool)
    ensures
        r == (encode_utf8(t@).len() % 2 == 0),
{
    t.as_bytes().len() % 2 == 0
}

/// Whether reading a text as hexadecimal would cut a character in two. Such a text must
/// be kept from [`hex_decode`].
pub fn cuts_a_char(s: &str) -> (r: bool)
    ensures
        r == splits_char(s@),
{
    let t = strip(s);
    if !has_even_bytes(t.as_str()) {
        return false;
    }
    match scan(t.as_str()) {
        Scanned::SplitChar => true,
        _ => false,
    }
}

/// Reads bytes from a text of hexadecimal digits; white space does not count.
pub fn hex_decode(s: &str) -> (r: Result<Vec<u8>, String>)
    requires
        !splits_char(s@),
    ensures
        match r {
            Ok(b) => even_bytes(s@) && hex_scan(stripped(s@)) == HexScan::Bytes(b@),
            Err(m) => if even_bytes(s@) {
                hex_scan(stripped(s@)) is BadDigit && m@ == "invalid digit found in string"@
            } else {
                m@ == "hex length must be even"@
            },
        },
{
    let t = strip(s);
    if !has_even_bytes(t.as_str()) {
        return Err("hex length must be even".to_owned());
    }
    match scan(t.as_str()) {
        Scanned::Bytes(b) => Ok(b),
        _ => Err("invalid digit found in string".to_owned()),
    }
}

/// Bytes as capital hexadecimal digits, with a blank between bytes.
pub fn hex_encode(b: &[u8]) -> (r: String)
    ensures
        r@ == hex_text(b@),
{
    let mut out = String::new();
    let mut i: usize = 0;
    assert(b@.take(0) =~= Seq::<u8>::empty());
    while i < b.len()
        invariant
            i <= b@.len(),
            out@ == hex_text(b@.take(i as int)),
        decreases b@.len() - i,
    {
        proof {
            let next = b@.take(i + 1);
            assert(next.drop_last() =~= b@.take(i as int));
            assert(next.last() == b@[i as int]);
        }
        if i > 0 {
            out.push(' ');
        }
        let ghost before = out@;
        push_fixed(&mut out, b[i] as u64, 16, 2, true);
        if i == 0 {
            assert(out@ =~= fixed_digits(b@[0] as nat, 16, 2, true));
        }
        i += 1;
    }
    assert(b@.take(i as int) =~= b@);
    out
}

/// The hexadecimal digits of bytes, without blanks.
pub open spec fn hex_digits(b: Seq<u8>) -> Seq<char> {
    Seq::new(
        2 * b.len(),
        |i: int|
            if i % 2 == 0 {
                digit_char((b[i / 2] / 16) as int, true)
            } else {
                digit_char((b[i / 2] % 16) as int, true)
            },
    )
}

proof fn lemma_two_digits(x: u8)
    ensures
        fixed_digits(x as nat, 16, 2, true) == seq![
            digit_char((x / 16) as int, true),
            digit_char((x % 16) as int, true),
        ],
        !white_space(digit_char((x / 16) as int, true)),
        !white_space(digit_char((x % 16) as int, true)),
        pair_value(digit_char((x / 16) as int, true), digit_char((x % 16) as int, true)) == Some(x),
        (digit_char((x / 16) as int, true) as u32) < 0x80,
        (digit_char((x % 16) as int, true) as u32) < 0x80,
{
    reveal_with_fuel(fixed_digits, 3);
    assert((x as nat / 16) % 16 == x / 16);
    assert(fixed_digits(x as nat, 16, 2, true) =~= seq![
        digit_char((x / 16) as int, true),
        digit_char((x % 16) as int, true),
    ]);
}

proof fn lemma_stripped_text(b: Seq<u8>)
    ensures
        stripped(hex_text(b)) == hex_digits(b),
    decreases b.len(),
{
    reveal(Seq::filter);
    let p = |c: char| !white_space(c);
    if b.len() == 0 {
        assert(stripped(hex_text(b)) =~= hex_digits(b));
    } else {
        let last = fixed_digits(b.last() as nat, 16, 2, true);
        lemma_two_digits(b.last());
        let x = last[0];
        let y = last[1];
        assert(last.drop_last() =~= seq![x]);
        assert(seq![x].drop_last() =~= Seq::<char>::empty());
        assert(seq![x].filter(p) =~= seq![x]);
        assert(last.filter(p) =~= last);
        if b.len() == 1 {
            assert(hex_digits(b) =~= last);
        } else {
            let front = hex_text(b.drop_last());
            lemma_stripped_text(b.drop_last());
            let spaced = front.push(' ');
            assert(spaced.drop_last() =~= front);
            assert(spaced.filter(p) == front.filter(p));
            Seq::filter_distributes_over_add(spaced, last, p);
            assert(hex_digits(b.drop_last()) + last =~= hex_digits(b)) by {
                let l = hex_digits(b.drop_last()) + last;
                let r = hex_digits(b);
                assert forall|i: int| 0 <= i < l.len() implies l[i] == r[i] by {
                    if i < 2 * (b.len() - 1) {
                        assert(b.drop_last()[i / 2] == b[i / 2]);
                    }
                }
            }
        }
    }
}

proof fn lemma_scan_digits(b: Seq<u8>)
    ensures
        hex_scan(hex_digits(b)) == HexScan::Bytes(b),
    decreases b.len(),
{
    let t = hex_digits(b);
    if b.len() == 0 {
        assert(b =~= Seq::empty());
    } else {
        let tail = b.skip(1);
        lemma_scan_digits(tail);
        lemma_two_digits(b[0]);
        assert(t.skip(2) =~= hex_digits(tail)) by {
            assert forall|i: int| 0 <= i < 2 * tail.len() implies t.skip(2)[i] == hex_digits(tail)[i] by {
                assert(t.skip(2)[i] == t[i + 2]);
                assert((i + 2) / 2 == i / 2 + 1 && (i + 2) % 2 == i % 2);
                assert(tail[i / 2] == b[i / 2 + 1]);
            }
        }
        assert(t[0] == digit_char((b[0] / 16) as int, true));
        assert(t[1] == digit_char((b[0] % 16) as int, true));
        assert(seq![b[0]] + tail =~= b);
    }
}

/// Bytes that were written out in hexadecimal are read back as they were.
pub proof fn law_hex_roundtrip(b: Seq<u8>)
    ensures
        !splits_char(hex_text(b)),
        even_bytes(hex_text(b)),
        hex_scan(stripped(hex_text(b))) == HexScan::Bytes(b),
{
    lemma_stripped_text(b);
    lemma_scan_digits(b);
    let t = hex_digits(b);
    assert(is_ascii_chars(t)) by {
        assert forall|i: int| 0 <= i < t.len() implies '\0' <= #[trigger] t[i] <= '\u{7f}' by {
            lemma_two_digits(b[i / 2]);
        }
    }
    is_ascii_chars_encode_utf8(t);
}

/// Bytes are shown as two capital digits each, the high one first, with one blank between
/// bytes and none around them.
pub proof fn law_hex_layout(b: Seq<u8>, i: int)
    requires
        0 <= i < b.len(),
    ensures
        hex_text(b).len() == 3 * b.len() - 1,
        hex_text(b)[3 * i] == digit_char(b[i] as int / 16, true),
        hex_text(b)[3 * i + 1] == digit_char(b[i] as int % 16, true),
        i + 1 < b.len() ==> hex_text(b)[3 * i + 2] == ' ',
    decreases b.len(),
{
    lemma_two_digits(b.last());
    if b.len() == 1 {
        assert(b[0] == b.last());
    } else {
        let front = b.drop_last();
        if i < front.len() {
            law_hex_layout(front, i);
            assert(front[i] == b[i]);
        } else {
            law_hex_layout(front, 0);
            assert(b[i] == b.last());
        }
    }
}

/// The value of a character as a hexadecimal digit, small and capital letters alike.
pub proof fn law_hex_digits(c: char)
    ensures
        '0' <= c <= '9' ==> hex_digit(c) == Some((c as u32 - '0' as u32) as u8),
        'a' <= c <= 'f' ==> hex_digit(c) == Some((c as u32 - 'a' as u32 + 10) as u8),
        'A' <= c <= 'F' ==> hex_digit(c) == Some((c as u32 - 'A' as u32 + 10) as u8),
        !('0' <= c <= '9') && !('a' <= c <= 'f') && !('A' <= c <= 'F') ==> hex_digit(c) is None,
{
}

/// A text of hexadecimal digits, two for each byte, is read as those bytes, each digit of
/// it small or capital.
pub proof fn law_hex_is_read(t: Seq<char>, b: Seq<u8>)
    requires
        t.len() == 2 * b.len(),
        forall|i: int|
            0 <= i < b.len() ==> hex_digit(t[2 * i]) == Some((#[trigger] b[i] / 16) as u8)
                && hex_digit(t[2 * i + 1]) == Some((b[i] % 16) as u8),
    ensures
        hex_scan(t) == HexScan::Bytes(b),
    decreases t.len(),
{
    if b.len() == 0 {
        assert(b =~= Seq::<u8>::empty());
    } else {
        let rest = b.skip(1);
        let tail = t.skip(2);
        assert forall|i: int| 0 <= i < rest.len() implies hex_digit(tail[2 * i]) == Some(
            (#[trigger] rest[i] / 16) as u8,
        ) && hex_digit(tail[2 * i + 1]) == Some((rest[i] % 16) as u8) by {
            assert(rest[i] == b[i + 1]);
            assert(tail[2 * i] == t[2 * (i + 1)]);
            assert(tail[2 * i + 1] == t[2 * (i + 1) + 1]);
        }
        law_hex_is_read(tail, rest);
        let k: int = 0;
        assert(hex_digit(t[2 * k]) == Some((b[k] / 16) as u8));
        assert(hex_digit(t[2 * k + 1]) == Some((b[k] % 16) as u8));
        assert(seq![b[0]] + rest =~= b);
    }
}

/// A text that is read as bytes has a digit, or for the first of two a plus sign, in every
/// place.
pub proof fn law_hex_needs_digits(t: Seq<char>, i: int)
    requires
        hex_scan(t) is Bytes,
        0 <= i < t.len(),
    ensures
        t.len() % 2 == 0,
        t.len() == 2 * hex_scan(t)->Bytes_0.len(),
        hex_digit(t[i]) is Some || (i % 2 == 0 && t[i] == '+'),
    decreases t.len(),
{
    if i >= 2 {
        law_hex_needs_digits(t.skip(2), i - 2);
        assert(t.skip(2)[i - 2] == t[i]);
    } else if t.len() > 2 {
        law_hex_needs_digits(t.skip(2), 0);
    } else {
        assert(t.skip(2) =~= Seq::<char>::empty());
        assert(hex_scan(t.skip(2)) == HexScan::Bytes(Seq::empty()));
    }
}

/// Reading leaves the white space out, wherever it stands, and keeps all else in order.
pub proof fn law_blanks_do_not_count(a: Seq<char>, c: char, b: Seq<char>)
    ensures
        white_space(c) ==> stripped(a + seq![c] + b) == stripped(a + b),
        !white_space(c) ==> stripped(a + seq![c] + b) == stripped(a).push(c) + stripped(b),
{
    let p = |c: char| !white_space(c);
    Seq::filter_distributes_over_add(a, b, p);
    Seq::filter_distributes_over_add(a, seq![c], p);
    Seq::filter_distributes_over_add(a + seq![c], b, p);
    reveal_with_fuel(Seq::filter, 3);
    assert(seq![c].drop_last() =~= Seq::<char>::empty());
    assert(seq![c].filter(p) =~= (if p(c) {
        seq![c]
    } else {
        Seq::<char>::empty()
    }));
    assert(stripped(a + seq![c] + b) == a.filter(p) + seq![c].filter(p) + b.filter(p));
    if white_space(c) {
        assert(a.filter(p) + Seq::<char>::empty() =~= a.filter(p));
    } else {
        assert(a.filter(p) + seq![c] =~= a.filter(p).push(c));
    }
}

/// Two characters are the byte that two digits spell, or one digit behind a plus sign;
/// any other two are none.
pub proof fn law_pairs(a: char, b: char)
    ensures
        hex_digit(a) is Some && hex_digit(b) is Some ==> pair_value(a, b) is Some && pair_value(
            a,
            b,
        )->0 == 16 * hex_digit(a)->0 + hex_digit(b)->0,
        a == '+' && hex_digit(b) is Some ==> pair_value(a, b) == hex_digit(b),
        hex_digit(b) is None ==> pair_value(a, b) is None,
        hex_digit(a) is None && a != '+' ==> pair_value(a, b) is None,
{
    if hex_digit(a) is Some {
        let x = hex_digit(a)->0;
        assert(x < 16);
    }
    if hex_digit(b) is Some {
        let y = hex_digit(b)->0;
        assert(y < 16);
    }
}

/// A text is read two characters at a time, from the front: two that are no byte end it,
/// and so does a character beyond ASCII, which two bytes of it may cut apart.
pub proof fn law_hex_steps(a: char, b: char, rest: Seq<char>)
    requires
        (a as u32) < 0x80,
        (b as u32) < 0x80,
    ensures
        hex_scan(Seq::<char>::empty()) == HexScan::Bytes(Seq::<u8>::empty()),
        pair_value(a, b) is None ==> hex_scan(seq![a, b] + rest) is BadDigit,
        pair_value(a, b) matches Some(x) ==> match hex_scan(rest) {
            HexScan::Bytes(s) => hex_scan(seq![a, b] + rest) == HexScan::Bytes(seq![x] + s),
            other => hex_scan(seq![a, b] + rest) == other,
        },
{
    assert((seq![a, b] + rest).skip(2) =~= rest);
}

/// A text of ASCII characters cuts no character apart, and has an even number of bytes
/// exactly where it has an even number of characters besides its white space.
pub proof fn law_ascii_hex(s: Seq<char>)
    requires
        is_ascii_chars(stripped(s)),
    ensures
        even_bytes(s) <==> stripped(s).len() % 2 == 0,
        !splits_char(s),
{
    is_ascii_chars_encode_utf8(stripped(s));
    lemma_ascii_scan(stripped(s));
}

proof fn lemma_ascii_scan(t: Seq<char>)
    requires
        is_ascii_chars(t),
    ensures
        !(hex_scan(t) is SplitChar),
    decreases t.len(),
{
    if t.len() >= 2 {
        let rest = t.skip(2);
        assert forall|i: int| 0 <= i < rest.len() implies '\0' <= #[trigger] rest[i] <= '\u{7f}' by {
            assert(rest[i] == t[i + 2]);
        }
        lemma_ascii_scan(rest);
    }
    if t.len() > 0 {
        assert(t[0] <= '\u{7f}');
    }
    if t.len() > 1 {
        assert(t[1] <= '\u{7f}');
    }
}

/// A character of two bytes is no byte; one of more, or one behind a single ASCII
/// character, would be cut apart. A single character at the end is no byte.
pub proof fn law_hex_beyond_ascii(a: char, b: char, rest: Seq<char>)
    ensures
        a as u32 >= 0x800 ==> hex_scan(seq![a] + rest) is SplitChar,
        0x80 <= a as u32 && (a as u32) < 0x800 ==> hex_scan(seq![a] + rest) is BadDigit,
        (a as u32) < 0x80 && b as u32 >= 0x80 ==> hex_scan(seq![a, b] + rest) is SplitChar,
        (a as u32) < 0x80 ==> hex_scan(seq![a]) is BadDigit,
{
}

} // verus!
