//! Byte-level vocabulary shared by every protocol module: big-endian words,
//! runs of words and packed bits.

use vstd::prelude::*;

verus! {

/// The most significant byte of a word.
pub open spec fn high(v: u16) -> u8 {
    (v / 256) as u8
}

/// The least significant byte of a word.
pub open spec fn low(v: u16) -> u8 {
    (v % 256) as u8
}

/// The word made of a most and a least significant byte.
pub open spec fn word(h: u8, l: u8) -> u16 {
    (h * 256 + l) as u16
}

/// The big-endian word at offset `i` of `s`.
pub open spec fn word_at(s: Seq<u8>, i: int) -> u16 {
    word(s[i], s[i + 1])
}

/// Words laid out one after the other, each with its high byte first.
pub open spec fn be_bytes(ws: Seq<u16>) -> Seq<u8> {
    Seq::new(2 * ws.len(), |i: int| if i % 2 == 0 { high(ws[i / 2]) } else { low(ws[i / 2]) })
}

/// The `n` big-endian words that start at offset `from` of `s`.
pub open spec fn be_words(s: Seq<u8>, from: int, n: nat) -> Seq<u16> {
    Seq::new(n, |i: int| word_at(s, from + 2 * i))
}

/// The low sixteen bits of `n`.
pub open spec fn low16(n: int) -> u16 {
    (n % 65536) as u16
}

/// The number of bytes that hold `n` bits.
pub open spec fn bit_bytes(n: int) -> int {
    (n + 7) / 8
}

/// Weight `w` where `bits` has a set bit at `i`, nothing elsewhere.
pub open spec fn weight(bits: Seq<bool>, i: int, w: int) -> int {
    if 0 <= i < bits.len() && bits[i] {
        w
    } else {
        0
    }
}

/// Eight bits from position `8 * j` on, the first one least significant; positions
/// beyond the end count as clear.
pub open spec fn packed_byte(bits: Seq<bool>, j: int) -> u8 {
    (weight(bits, 8 * j, 1) + weight(bits, 8 * j + 1, 2) + weight(bits, 8 * j + 2, 4) + weight(
        bits,
        8 * j + 3,
        8,
    ) + weight(bits, 8 * j + 4, 16) + weight(bits, 8 * j + 5, 32) + weight(bits, 8 * j + 6, 64)
        + weight(bits, 8 * j + 7, 128)) as u8
}

/// Bits packed eight to a byte, least significant first.
pub open spec fn packed(bits: Seq<bool>) -> Seq<u8> {
    Seq::new(bit_bytes(bits.len() as int) as nat, |j: int| packed_byte(bits, j))
}

/// Bit `k` of a byte, counted from the least significant.
pub open spec fn bit_of(b: u8, k: int) -> bool {
    if k == 0 {
        b % 2 == 1
    } else if k == 1 {
        (b / 2) % 2 == 1
    } else if k == 2 {
        (b / 4) % 2 == 1
    } else if k == 3 {
        (b / 8) % 2 == 1
    } else if k == 4 {
        (b / 16) % 2 == 1
    } else if k == 5 {
        (b / 32) % 2 == 1
    } else if k == 6 {
        (b / 64) % 2 == 1
    } else {
        (b / 128) % 2 == 1
    }
}

/// The first `n` bits that the bytes from offset `from` of `s` on hold.
pub open spec fn unpacked(s: Seq<u8>, from: int, n: nat) -> Seq<bool> {
    Seq::new(n, |i: int| bit_of(s[from + i / 8], i % 8))
}

/// The most significant byte of a word.
pub fn high_byte(v: u16) -> (r: u8)
    ensures
        r == high(v),
{
    (v / 256) as u8
}

/// The least significant byte of a word.
pub fn low_byte(v: u16) -> (r: u8)
    ensures
        r == low(v),
{
    (v % 256) as u8
}

/// The word made of a most and a least significant byte.
pub fn make_word(h: u8, l: u8) -> (r: u16)
    ensures
        r == word(h, l),
{
    (h as u16) * 256 + (l as u16)
}

/// Appends a word, high byte first.
pub fn push_word(out: &mut Vec<u8>, v: u16)
    ensures
        final(out)@ == old(out)@ + seq![high(v), low(v)],
{
    out.push(high_byte(v));
    out.push(low_byte(v));
    assert(out@ =~= old(out)@ + seq![high(v), low(v)]);
}

/// Appends a run of bytes.
pub fn push_bytes(out: &mut Vec<u8>, bytes: &[u8])
    ensures
        final(out)@ == old(out)@ + bytes@,
{
    out.extend_from_slice(bytes);
    assert(out@ =~= old(out)@ + bytes@);
}

/// The bytes `from..to` of `s`, as a vector of their own.
pub fn copy_range(s: &[u8], from: usize, to: usize) -> (r: Vec<u8>)
    requires
        from <= to <= s@.len(),
    ensures
        r@ == s@.subrange(from as int, to as int),
{
    vstd::slice::slice_to_vec(vstd::slice::slice_subrange(s, from, to))
}

/// Whether two runs of bytes are the same.
pub fn same_bytes(a: &[u8], b: &[u8]) -> (r: bool)
    ensures
        r == (a@ == b@),
{
    if a.len() != b.len() {
        return false;
    }
    let mut i: usize = 0;
    while i < a.len()
        invariant
            i <= a@.len(),
            a@.len() == b@.len(),
            forall|k: int| 0 <= k < i ==> a@[k] == b@[k],
        decreases a@.len() - i,
    {
        if a[i] != b[i] {
            return false;
        }
        i += 1;
    }
    assert(a@ =~= b@);
    true
}

fn weight_of(bits: &Vec<bool>, i: usize, w: u8) -> (r: u8)
    ensures
        r == weight(bits@, i as int, w as int),
{
    if i < bits.len() && bits[i] {
        w
    } else {
        0
    }
}

/// Packs bits eight to a byte, least significant first.
pub fn pack_bits(bits: &Vec<bool>) -> (r: Vec<u8>)
    requires
        bits@.len() <= 0x10000,
    ensures
        r@ == packed(bits@),
{
    let n: usize = (bits.len() + 7) / 8;
    let mut out: Vec<u8> = Vec::new();
    let mut j: usize = 0;
    while j < n
        invariant
            j <= n,
            bits@.len() <= 0x10000,
            n == bit_bytes(bits@.len() as int),
            out@.len() == j,
            forall|k: int| 0 <= k < j ==> out@[k] == packed_byte(bits@, k),
        decreases n - j,
    {
        let b: u8 = weight_of(bits, 8 * j, 1) + weight_of(bits, 8 * j + 1, 2) + weight_of(
            bits,
            8 * j + 2,
            4,
        ) + weight_of(bits, 8 * j + 3, 8) + weight_of(bits, 8 * j + 4, 16) + weight_of(
            bits,
            8 * j + 5,
            32,
        ) + weight_of(bits, 8 * j + 6, 64) + weight_of(bits, 8 * j + 7, 128);
        out.push(b);
        j += 1;
    }
    assert(out@ =~= packed(bits@));
    out
}

/// Bit `k` of a byte, counted from the least significant.
pub fn test_bit(b: u8, k: usize) -> (r: bool)
    requires
        k < 8,
    ensures
        r == bit_of(b, k as int),
{
    match k {
        0 => b % 2 == 1,
        1 => (b / 2) % 2 == 1,
        2 => (b / 4) % 2 == 1,
        3 => (b / 8) % 2 == 1,
        4 => (b / 16) % 2 == 1,
        5 => (b / 32) % 2 == 1,
        6 => (b / 64) % 2 == 1,
        _ => (b / 128) % 2 == 1,
    }
}

/// Splitting a word into bytes and joining them again gives the word back, and
/// the other way round.
pub proof fn law_word_roundtrip(v: u16, h: u8, l: u8)
    ensures
        word(high(v), low(v)) == v,
        high(word(h, l)) == h,
        low(word(h, l)) == l,
{
}

/// Words laid out as bytes and read back are the same words.
pub proof fn law_words_roundtrip(ws: Seq<u16>)
    ensures
        be_words(be_bytes(ws), 0, ws.len()) == ws,
{
    assert forall|i: int| 0 <= i < ws.len() implies be_words(be_bytes(ws), 0, ws.len())[i]
        == ws[i] by {
        assert((2 * i) % 2 == 0 && (2 * i) / 2 == i && (2 * i + 1) % 2 == 1 && (2 * i + 1) / 2
            == i);
        law_word_roundtrip(ws[i], 0, 0);
    }
    assert(be_words(be_bytes(ws), 0, ws.len()) =~= ws);
}

/// Bytes read as words and laid out again are the same bytes.
pub proof fn law_bytes_roundtrip(s: Seq<u8>, from: int, n: nat)
    requires
        0 <= from,
        from + 2 * n <= s.len(),
    ensures
        be_bytes(be_words(s, from, n)) == s.subrange(from, from + 2 * n),
{
    let left = be_bytes(be_words(s, from, n));
    let right = s.subrange(from, from + 2 * n);
    assert forall|i: int| 0 <= i < 2 * n implies left[i] == right[i] by {
        let j = i / 2;
        assert(0 <= j < n);
        law_word_roundtrip(0, s[from + 2 * j], s[from + 2 * j + 1]);
        if i % 2 == 0 {
            assert(i == 2 * j);
        } else {
            assert(i == 2 * j + 1);
        }
    }
    assert(left =~= right);
}

proof fn lemma_sum_bits(
    b0: bool,
    b1: bool,
    b2: bool,
    b3: bool,
    b4: bool,
    b5: bool,
    b6: bool,
    b7: bool,
    v: u8,
)
    requires
        v == (if b0 { 1int } else { 0 }) + (if b1 { 2int } else { 0 }) + (if b2 { 4int } else { 0 })
            + (if b3 { 8int } else { 0 }) + (if b4 { 16int } else { 0 }) + (if b5 { 32int } else { 0 })
            + (if b6 { 64int } else { 0 }) + (if b7 { 128int } else { 0 }),
    ensures
        bit_of(v, 0) == b0,
        bit_of(v, 1) == b1,
        bit_of(v, 2) == b2,
        bit_of(v, 3) == b3,
        bit_of(v, 4) == b4,
        bit_of(v, 5) == b5,
        bit_of(v, 6) == b6,
        bit_of(v, 7) == b7,
{
    let r7 = if b7 { 1int } else { 0 };
    let r6 = (if b6 { 1int } else { 0 }) + 2 * r7;
    let r5 = (if b5 { 1int } else { 0 }) + 2 * r6;
    let r4 = (if b4 { 1int } else { 0 }) + 2 * r5;
    let r3 = (if b3 { 1int } else { 0 }) + 2 * r4;
    let r2 = (if b2 { 1int } else { 0 }) + 2 * r3;
    let r1 = (if b1 { 1int } else { 0 }) + 2 * r2;
    assert(v as int == (if b0 { 1int } else { 0 }) + 2 * r1);
    let low2 = (if b0 { 1int } else { 0 }) + (if b1 { 2int } else { 0 });
    let low3 = low2 + (if b2 { 4int } else { 0 });
    let low4 = low3 + (if b3 { 8int } else { 0 });
    let low5 = low4 + (if b4 { 16int } else { 0 });
    let low6 = low5 + (if b5 { 32int } else { 0 });
    let low7 = low6 + (if b6 { 64int } else { 0 });
    assert(v as int == low2 + 4 * r2 && 0 <= low2 < 4);
    assert(v as int == low3 + 8 * r3 && 0 <= low3 < 8);
    assert(v as int == low4 + 16 * r4 && 0 <= low4 < 16);
    assert(v as int == low5 + 32 * r5 && 0 <= low5 < 32);
    assert(v as int == low6 + 64 * r6 && 0 <= low6 < 64);
    assert(v as int == low7 + 128 * r7 && 0 <= low7 < 128);
    assert(v as int / 2 == r1);
    assert(v as int / 4 == r2);
    assert(v as int / 8 == r3);
    assert(v as int / 16 == r4);
    assert(v as int / 32 == r5);
    assert(v as int / 64 == r6);
    assert(v as int / 128 == r7);
}

/// Packed bits, unpacked, are the same bits, whatever stands before them.
pub proof fn law_bits_roundtrip(head: Seq<u8>, bits: Seq<bool>)
    ensures
        unpacked(head + packed(bits), head.len() as int, bits.len()) == bits,
{
    let s = packed(bits);
    let t = unpacked(head + s, head.len() as int, bits.len());
    assert forall|i: int| 0 <= i < bits.len() implies t[i] == bits[i] by {
        let j = i / 8;
        let k = i % 8;
        assert(i == 8 * j + k && 0 <= j < s.len());
        assert((head + s)[head.len() + j] == s[j]);
        let g = |m: int| 0 <= m < bits.len() && bits[m];
        lemma_sum_bits(
            g(8 * j),
            g(8 * j + 1),
            g(8 * j + 2),
            g(8 * j + 3),
            g(8 * j + 4),
            g(8 * j + 5),
            g(8 * j + 6),
            g(8 * j + 7),
            s[j],
        );
        assert(g(i) == bits[i]);
    }
    assert(t =~= bits);
}

/// A word is sent with its high byte first, and is 256 times that byte and the other.
pub proof fn law_word_layout(v: u16, h: u8, l: u8)
    ensures
        high(v) as int == v as int / 256,
        low(v) as int == v as int % 256,
        word(h, l) as int == 256 * h + l,
{
}

/// The low sixteen bits of a number are its remainder.
pub proof fn law_low_bits(n: int)
    requires
        0 <= n,
    ensures
        low16(n) as int == n % 65536,
        n < 65536 ==> low16(n) as int == n,
{
}

/// Each word of a run takes two bytes, at twice its place, the high byte first.
pub proof fn law_bytes_of_words(ws: Seq<u16>, i: int)
    requires
        0 <= i < ws.len(),
    ensures
        be_bytes(ws).len() == 2 * ws.len(),
        be_bytes(ws)[2 * i] as int == ws[i] as int / 256,
        be_bytes(ws)[2 * i + 1] as int == ws[i] as int % 256,
{
    assert((2 * i) % 2 == 0 && (2 * i) / 2 == i && (2 * i + 1) % 2 == 1 && (2 * i + 1) / 2 == i);
}

/// Each word that is read out of a run takes the next two bytes, the high byte first.
pub proof fn law_words_of_bytes(s: Seq<u8>, from: int, n: nat, i: int)
    requires
        0 <= i < n,
    ensures
        be_words(s, from, n).len() == n,
        be_words(s, from, n)[i] as int == 256 * s[from + 2 * i] + s[from + 2 * i + 1],
{
}

/// A byte is the sum of its set bits, the bit of place `k` counting two to the `k`.
pub proof fn law_bits_are_binary_digits(b: u8)
    ensures
        b as int == (if bit_of(b, 0) { 1int } else { 0 }) + (if bit_of(b, 1) { 2int } else { 0 }) + (
        if bit_of(b, 2) { 4int } else { 0 }) + (if bit_of(b, 3) { 8int } else { 0 }) + (if bit_of(
            b,
            4,
        ) { 16int } else { 0 }) + (if bit_of(b, 5) { 32int } else { 0 }) + (if bit_of(b, 6) {
            64int
        } else {
            0
        }) + (if bit_of(b, 7) { 128int } else { 0 }),
{
    let n = b as int;
    assert(n == 2 * (n / 2) + n % 2);
    assert(n / 2 == 2 * (n / 4) + (n / 2) % 2);
    assert(n / 4 == 2 * (n / 8) + (n / 4) % 2);
    assert(n / 8 == 2 * (n / 16) + (n / 8) % 2);
    assert(n / 16 == 2 * (n / 32) + (n / 16) % 2);
    assert(n / 32 == 2 * (n / 64) + (n / 32) % 2);
    assert(n / 64 == 2 * (n / 128) + (n / 64) % 2);
    assert(n / 128 == (n / 128) % 2);
}

/// Bits take an eighth of a byte each, rounded up; bit `i` stands in byte `i / 8` at place
/// `i % 8`, and the places that are left over in the last byte are clear.
pub proof fn law_packed_places(bits: Seq<bool>, i: int)
    requires
        0 <= i < 8 * packed(bits).len(),
    ensures
        packed(bits).len() == (bits.len() + 7) / 8,
        bit_of(packed(bits)[i / 8], i % 8) == (i < bits.len() && bits[i]),
{
    let j = i / 8;
    let k = i % 8;
    let s = packed(bits);
    assert(i == 8 * j + k && 0 <= j < s.len());
    let g = |m: int| 0 <= m < bits.len() && bits[m];
    lemma_sum_bits(
        g(8 * j),
        g(8 * j + 1),
        g(8 * j + 2),
        g(8 * j + 3),
        g(8 * j + 4),
        g(8 * j + 5),
        g(8 * j + 6),
        g(8 * j + 7),
        s[j],
    );
    assert(g(i) == (i < bits.len() && bits[i]));
}

/// Bit `i` of a run is taken from byte `i / 8`, place `i % 8`.
pub proof fn law_unpacked_places(s: Seq<u8>, from: int, n: nat, i: int)
    requires
        0 <= i < n,
    ensures
        unpacked(s, from, n).len() == n,
        unpacked(s, from, n)[i] == bit_of(s[from + i / 8], i % 8),
{
}

} // verus!
