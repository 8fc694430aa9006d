//! Modbus CRC-16 (polynomial 0x8005, initial value 0xFFFF, reflected, no final xor).
//! The register value is transmitted low byte first.

use vstd::prelude::*;
use crate::wire::{high, low};

verus! {

/// One step of the reflected shift register.
pub open spec fn crc_shift(c: u16) -> u16 {
    if c & 1 != 0 {
        (c >> 1) ^ 0xA001
    } else {
        c >> 1
    }
}

/// The register after taking in one byte.
pub open spec fn crc_byte(c: u16, b: u8) -> u16 {
    crc_shift(
        crc_shift(
            crc_shift(crc_shift(crc_shift(crc_shift(crc_shift(crc_shift(c ^ (b as u16)))))))),
    )
}

/// The register after taking in `s`, started from `c`.
pub open spec fn crc_run(c: u16, s: Seq<u8>) -> u16
    decreases s.len(),
{
    if s.len() == 0 {
        c
    } else {
        crc_byte(crc_run(c, s.drop_last()), s.last())
    }
}

/// The CRC-16/MODBUS of `s`.
pub open spec fn crc16(s: Seq<u8>) -> u16 {
    crc_run(0xFFFF, s)
}

/// The CRC of `s` as it stands on the wire.
pub open spec fn crc16_wire(s: Seq<u8>) -> Seq<u8> {
    seq![low(crc16(s)), high(crc16(s))]
}

fn shift(c: u16) -> (r: u16)
    ensures
        r == crc_shift(c),
{
    if c & 1 != 0 {
        (c >> 1) ^ 0xA001
    } else {
        c >> 1
    }
}

/// Computes the CRC-16/MODBUS of `data`.
pub fn crc16_modbus(data: &[u8]) -> (r: u16)
    ensures
        r == crc16(data@),
{
    let mut crc: u16 = 0xFFFF;
    let mut i: usize = 0;
    assert(data@.take(0) =~= Seq::<u8>::empty());
    while i < data.len()
        invariant
            i <= data@.len(),
            crc == crc_run(0xFFFF, data@.take(i as int)),
        decreases data@.len() - i,
    {
        let start: u16 = crc ^ (data[i] as u16);
        let half: u16 = shift(shift(shift(shift(start))));
        crc = shift(shift(shift(shift(half))));
        proof {
            let next = data@.take(i + 1);
            assert(next.drop_last() =~= data@.take(i as int));
            assert(next.last() == data@[i as int]);
        }
        i += 1;
    }
    assert(data@.take(i as int) =~= data@);
    crc
}

/// The CRC as the two bytes that end an RTU frame (low byte first).
pub fn crc16_modbus_bytes(data: &[u8]) -> (r: [u8; 2])
    ensures
        r@ == crc16_wire(data@),
{
    let c: u16 = crc16_modbus(data);
    let r: [u8; 2] = [(c % 256) as u8, (c / 256) as u8];
    assert(r@ =~= crc16_wire(data@));
    r
}

proof fn lemma_shift_injective(a: u16, b: u16)
    by (bit_vector)
    requires
        (if a & 1 != 0 {
            (a >> 1) ^ 0xA001
        } else {
            a >> 1
        }) == (if b & 1 != 0 {
            (b >> 1) ^ 0xA001
        } else {
            b >> 1
        }),
    ensures
        a == b,
{
}

proof fn lemma_byte_injective(c: u16, d: u16, b: u8, e: u8)
    requires
        crc_byte(c, b) == crc_byte(d, e),
    ensures
        c ^ (b as u16) == d ^ (e as u16),
{
    let x = c ^ (b as u16);
    let y = d ^ (e as u16);
    let x1 = crc_shift(x);
    let x2 = crc_shift(x1);
    let x3 = crc_shift(x2);
    let x4 = crc_shift(x3);
    let x5 = crc_shift(x4);
    let x6 = crc_shift(x5);
    let x7 = crc_shift(x6);
    let y1 = crc_shift(y);
    let y2 = crc_shift(y1);
    let y3 = crc_shift(y2);
    let y4 = crc_shift(y3);
    let y5 = crc_shift(y4);
    let y6 = crc_shift(y5);
    let y7 = crc_shift(y6);
    lemma_shift_injective(x7, y7);
    lemma_shift_injective(x6, y6);
    lemma_shift_injective(x5, y5);
    lemma_shift_injective(x4, y4);
    lemma_shift_injective(x3, y3);
    lemma_shift_injective(x2, y2);
    lemma_shift_injective(x1, y1);
    lemma_shift_injective(x, y);
}

/// Taking in a concatenation is taking in its parts one after the other.
pub proof fn lemma_crc_concat(c: u16, s: Seq<u8>, t: Seq<u8>)
    ensures
        crc_run(c, s + t) == crc_run(crc_run(c, s), t),
    decreases t.len(),
{
    if t.len() == 0 {
        assert(s + t =~= s);
    } else {
        lemma_crc_concat(c, s, t.drop_last());
        assert((s + t).drop_last() =~= s + t.drop_last());
        assert((s + t).last() == t.last());
    }
}

proof fn lemma_run_injective(c: u16, d: u16, s: Seq<u8>)
    requires
        crc_run(c, s) == crc_run(d, s),
    ensures
        c == d,
    decreases s.len(),
{
    if s.len() > 0 {
        let p = crc_run(c, s.drop_last());
        let q = crc_run(d, s.drop_last());
        let b = s.last();
        lemma_byte_injective(p, q, b, b);
        assert(p ^ (b as u16) == q ^ (b as u16) ==> p == q) by (bit_vector);
        lemma_run_injective(c, d, s.drop_last());
    }
}

/// A change of any one byte changes the CRC.
pub proof fn law_crc_detects_byte_change(s: Seq<u8>, i: int, b: u8)
    requires
        0 <= i < s.len(),
        b != s[i],
    ensures
        crc16(s.update(i, b)) != crc16(s),
{
    let front = s.take(i);
    let back = s.skip(i + 1);
    let a = s[i];
    assert(s =~= front.push(a) + back);
    assert(s.update(i, b) =~= front.push(b) + back);
    lemma_crc_concat(0xFFFF, front.push(a), back);
    lemma_crc_concat(0xFFFF, front.push(b), back);
    if crc16(s.update(i, b)) == crc16(s) {
        lemma_run_injective(
            crc_run(0xFFFF, front.push(a)),
            crc_run(0xFFFF, front.push(b)),
            back,
        );
        let c = crc_run(0xFFFF, front);
        assert(front.push(a).drop_last() =~= front);
        assert(front.push(b).drop_last() =~= front);
        lemma_byte_injective(c, c, a, b);
        assert(c ^ (a as u16) == c ^ (b as u16) ==> a == b) by (bit_vector);
    }
}

proof fn lemma_byte_cancels(c: u16)
    ensures
        crc_byte(crc_byte(c, (c % 256) as u8), (c / 256) as u8) == 0,
{
    let l = (c % 256) as u8;
    let h = (c / 256) as u8;
    let x = c ^ (l as u16);
    assert(x & 0xFF == 0 && x >> 8 == h as u16) by (bit_vector)
        requires
            x == c ^ (l as u16),
            l == (c % 256) as u8,
            h == (c / 256) as u8,
    ;
    lemma_eight_clear_shifts(x);
    let y = crc_byte(c, l);
    assert(y == h as u16);
    let z = y ^ (h as u16);
    assert(z == 0 && z & 0xFF == 0) by (bit_vector)
        requires
            z == y ^ (h as u16),
            y == h as u16,
    ;
    lemma_eight_clear_shifts(z);
    assert(0u16 >> 8 == 0) by (bit_vector);
}

proof fn lemma_eight_clear_shifts(x: u16)
    requires
        x & 0xFF == 0,
    ensures
        crc_shift(
            crc_shift(
                crc_shift(crc_shift(crc_shift(crc_shift(crc_shift(crc_shift(x)))))),
            ),
        ) == x >> 8,
{
    assert(x & 1 == 0 && (x >> 1) & 1 == 0 && (x >> 2) & 1 == 0 && (x >> 3) & 1 == 0 && (x >> 4)
        & 1 == 0 && (x >> 5) & 1 == 0 && (x >> 6) & 1 == 0 && (x >> 7) & 1 == 0) by (bit_vector)
        requires
            x & 0xFF == 0,
    ;
    assert((x >> 1) >> 1 == x >> 2 && (x >> 2) >> 1 == x >> 3 && (x >> 3) >> 1 == x >> 4 && (x >> 4)
        >> 1 == x >> 5 && (x >> 5) >> 1 == x >> 6 && (x >> 6) >> 1 == x >> 7 && (x >> 7) >> 1 == x
        >> 8) by (bit_vector);
}

/// A message followed by its own CRC has CRC zero.
pub proof fn law_crc_residue(s: Seq<u8>)
    ensures
        crc16(s + crc16_wire(s)) == 0,
{
    let c = crc16(s);
    let t = crc16_wire(s);
    lemma_crc_concat(0xFFFF, s, t);
    assert(t.drop_last() =~= seq![low(c)]);
    assert(t.drop_last().drop_last() =~= Seq::<u8>::empty());
    assert(crc_run(c, t.drop_last()) == crc_byte(crc_run(c, t.drop_last().drop_last()), low(c)));
    lemma_byte_cancels(c);
}

/// The CRC of every message is one run of a register that starts at 0xFFFF: a byte is
/// mixed into its low half, and it is shifted right eight times, 0xA001 being mixed in
/// whenever a set bit falls out.
pub proof fn law_crc_is_one_run(s: Seq<u8>, b: u8)
    ensures
        crc16(Seq::<u8>::empty()) == 0xFFFF,
        ({
            let f = |c: u16|
                if c & 1 != 0 {
                    (c >> 1) ^ 0xA001
                } else {
                    c >> 1
                };
            crc16(s.push(b)) == f(f(f(f(f(f(f(f(crc16(s) ^ (b as u16)))))))))
        }),
{
    assert(s.push(b).drop_last() =~= s);
}

/// On the wire the low byte of the CRC comes first.
pub proof fn law_crc_on_the_wire(s: Seq<u8>)
    ensures
        crc16_wire(s).len() == 2,
        crc16_wire(s)[0] as int == crc16(s) as int % 256,
        crc16_wire(s)[1] as int == crc16(s) as int / 256,
{
}

} // verus!
