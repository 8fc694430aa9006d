//! Modbus TCP (MBAP) and Modbus RTU framing.

use vstd::prelude::*;
use crate::crc::{crc16, crc16_modbus, crc16_wire, law_crc_detects_byte_change};
use crate::wire::{copy_range, high, high_byte, law_word_roundtrip, low, low_byte, make_word, push_bytes, push_word, word_at};

verus! {

/// Why a frame was refused.
#[derive(Debug, Clone, Copy, PartialEq, Eq, Structural)]
pub enum FramingError {
    InvalidCrc,
    IncompleteFrame,
    InvalidMbap,
}

impl FramingError {
    /// The error in words.
    pub open spec fn text(self) -> Seq<char> {
        match self {
            FramingError::InvalidCrc => "Invalid CRC"@,
            FramingError::IncompleteFrame => "Incomplete frame"@,
            FramingError::InvalidMbap => "Invalid MBAP Header"@,
        }
    }

    /// The error in words.
    pub fn message(&self) -> (r: &'static str)
        ensures
            r@ == self.text(),
    {
        match self {
            FramingError::InvalidCrc => "Invalid CRC",
            FramingError::IncompleteFrame => "Incomplete frame",
            FramingError::InvalidMbap => "Invalid MBAP Header",
        }
    }
}

/// Whether the last two bytes of `s` are the CRC of what stands before them.
pub open spec fn crc_ok(s: Seq<u8>) -> bool {
    s.len() >= 2 && s.skip(s.len() - 2) == crc16_wire(s.take(s.len() - 2))
}

/// Calculates the Modbus CRC16.
pub fn calc_crc(data: &[u8]) -> (r: u16)
    ensures
        r == crc16(data@),
{
    crc16_modbus(data)
}

/// Appends the CRC of a buffer to it.
pub fn append_crc(buf: &mut Vec<u8>)
    ensures
        final(buf)@ == old(buf)@ + crc16_wire(old(buf)@),
{
    let crc: u16 = calc_crc(buf.as_slice());
    buf.push(low_byte(crc));
    buf.push(high_byte(crc));
    assert(buf@ =~= old(buf)@ + crc16_wire(old(buf)@));
}

/// Whether a buffer ends with a valid CRC.
pub fn verify_crc(data: &[u8]) -> (r: bool)
    ensures
        r == crc_ok(data@),
{
    if data.len() < 2 {
        return false;
    }
    let n: usize = data.len() - 2;
    let expected: u16 = calc_crc(vstd::slice::slice_subrange(data, 0, n));
    let actual: u16 = make_word(data[n + 1], data[n]);
    proof {
        assert(data@.subrange(0, n as int) =~= data@.take(n as int));
        let tail = data@.skip(n as int);
        let want = crc16_wire(data@.take(n as int));
        law_word_roundtrip(expected, data@[n + 1], data@[n as int]);
        assert(tail[0] == data@[n as int] && tail[1] == data@[n + 1]);
        if expected == actual {
            assert(tail =~= want);
        }
        if tail == want {
            assert(tail[0] == want[0] && tail[1] == want[1]);
        }
    }
    expected == actual
}

/// MBAP header used by Modbus TCP.
#[derive(Debug, Clone, PartialEq, Eq, Structural)]
pub struct MbapHeader {
    pub transaction_id: u16,
    pub protocol_id: u16,
    pub length: u16,
    pub unit_id: u8,
}

impl MbapHeader {
    /// The seven bytes of the header on the wire.
    pub open spec fn bytes(self) -> Seq<u8> {
        seq![
            high(self.transaction_id),
            low(self.transaction_id),
            high(self.protocol_id),
            low(self.protocol_id),
            high(self.length),
            low(self.length),
            self.unit_id,
        ]
    }

    /// The header that the first seven bytes of `data` spell.
    pub open spec fn of(data: Seq<u8>) -> MbapHeader {
        MbapHeader {
            transaction_id: word_at(data, 0),
            protocol_id: word_at(data, 2),
            length: word_at(data, 4),
            unit_id: data[6],
        }
    }

    /// Appends the header to `out`.
    pub fn encode(&self, out: &mut Vec<u8>)
        ensures
            final(out)@ == old(out)@ + self.bytes(),
    {
        push_word(out, self.transaction_id);
        push_word(out, self.protocol_id);
        push_word(out, self.length);
        out.push(self.unit_id);
        assert(out@ =~= old(out)@ + self.bytes());
    }

    /// Reads a header from the front of `data`.
    pub fn decode(data: &[u8]) -> (r: Result<Self, FramingError>)
        ensures
            r == (if data@.len() < 7 {
                Err::<MbapHeader, FramingError>(FramingError::IncompleteFrame)
            } else {
                Ok(MbapHeader::of(data@))
            }),
    {
        if data.len() < 7 {
            return Err(FramingError::IncompleteFrame);
        }
        Ok(
            MbapHeader {
                transaction_id: make_word(data[0], data[1]),
                protocol_id: make_word(data[2], data[3]),
                length: make_word(data[4], data[5]),
                unit_id: data[6],
            },
        )
    }
}

/// The header that announces a PDU of `n` bytes; its length field covers the unit
/// id and the PDU, and keeps the low sixteen bits of that number.
pub open spec fn tcp_header(unit_id: u8, transaction_id: u16, n: nat) -> MbapHeader {
    MbapHeader { transaction_id, protocol_id: 0, length: ((1 + n) % 65536) as u16, unit_id }
}

/// The Modbus TCP frame of a PDU.
pub open spec fn tcp_adu(unit_id: u8, transaction_id: u16, pdu: Seq<u8>) -> Seq<u8> {
    tcp_header(unit_id, transaction_id, pdu.len()).bytes() + pdu
}

/// What a Modbus TCP frame says: transaction id, unit id and PDU. A header with another
/// protocol id, and one that announces not even a unit id, is invalid.
pub open spec fn tcp_parts(adu: Seq<u8>) -> Result<(u16, u8, Seq<u8>), FramingError> {
    if adu.len() < 7 {
        Err(FramingError::IncompleteFrame)
    } else if word_at(adu, 2) != 0 || word_at(adu, 4) == 0 {
        Err(FramingError::InvalidMbap)
    } else if adu.len() < 6 + word_at(adu, 4) {
        Err(FramingError::IncompleteFrame)
    } else {
        Ok((word_at(adu, 0), adu[6], adu.subrange(7, 6 + word_at(adu, 4))))
    }
}

/// The Modbus RTU frame of a PDU.
pub open spec fn rtu_adu(unit_id: u8, pdu: Seq<u8>) -> Seq<u8> {
    let body = seq![unit_id] + pdu;
    body + crc16_wire(body)
}

/// What a Modbus RTU frame says: unit id and PDU.
pub open spec fn rtu_parts(adu: Seq<u8>) -> Result<(u8, Seq<u8>), FramingError> {
    if adu.len() < 5 {
        Err(FramingError::IncompleteFrame)
    } else if !crc_ok(adu) {
        Err(FramingError::InvalidCrc)
    } else {
        Ok((adu[0], adu.subrange(1, adu.len() - 2)))
    }
}

/// Builds a Modbus TCP frame: MBAP header, then the raw PDU. The header's length
/// field covers the unit id and the PDU.
pub fn encode_tcp(unit_id: u8, transaction_id: u16, pdu: &[u8]) -> (r: Vec<u8>)
    requires
        pdu@.len() + 7 <= usize::MAX,
    ensures
        r@ == tcp_adu(unit_id, transaction_id, pdu@),
{
    let length: u16 = ((1 + pdu.len()) % 65536) as u16;
    let header = MbapHeader { transaction_id, protocol_id: 0, length, unit_id };
    let mut out: Vec<u8> = Vec::new();
    header.encode(&mut out);
    push_bytes(&mut out, pdu);
    assert(out@ =~= tcp_adu(unit_id, transaction_id, pdu@));
    out
}

/// Takes a Modbus TCP frame apart into transaction id, unit id and PDU.
pub fn parse_tcp(adu: &[u8]) -> (r: Result<(u16, u8, Vec<u8>), FramingError>)
    ensures
        match r {
            Ok(t) => tcp_parts(adu@) == Ok::<(u16, u8, Seq<u8>), FramingError>((t.0, t.1, t.2@)),
            Err(e) => tcp_parts(adu@) == Err::<(u16, u8, Seq<u8>), FramingError>(e),
        },
{
    if adu.len() < 7 {
        return Err(FramingError::IncompleteFrame);
    }
    let transaction_id: u16 = make_word(adu[0], adu[1]);
    let protocol_id: u16 = make_word(adu[2], adu[3]);
    if protocol_id != 0 {
        return Err(FramingError::InvalidMbap);
    }
    let length: usize = make_word(adu[4], adu[5]) as usize;
    if length == 0 {
        return Err(FramingError::InvalidMbap);
    }
    let expected_total: usize = 6 + length;
    if adu.len() < expected_total {
        return Err(FramingError::IncompleteFrame);
    }
    Ok((transaction_id, adu[6], copy_range(adu, 7, expected_total)))
}

/// Builds a Modbus RTU frame: unit id, PDU, CRC16 (low byte, then high).
pub fn encode_rtu(unit_id: u8, pdu: &[u8]) -> (r: Vec<u8>)
    ensures
        r@ == rtu_adu(unit_id, pdu@),
{
    let mut out: Vec<u8> = Vec::new();
    out.push(unit_id);
    push_bytes(&mut out, pdu);
    assert(out@ =~= seq![unit_id] + pdu@);
    append_crc(&mut out);
    out
}

/// Takes a Modbus RTU frame apart into unit id and PDU, after checking the CRC.
pub fn parse_rtu(adu: &[u8]) -> (r: Result<(u8, Vec<u8>), FramingError>)
    ensures
        match r {
            Ok(t) => rtu_parts(adu@) == Ok::<(u8, Seq<u8>), FramingError>((t.0, t.1@)),
            Err(e) => rtu_parts(adu@) == Err::<(u8, Seq<u8>), FramingError>(e),
        },
{
    if adu.len() < 5 {
        return Err(FramingError::IncompleteFrame);
    }
    if !verify_crc(adu) {
        return Err(FramingError::InvalidCrc);
    }
    Ok((adu[0], copy_range(adu, 1, adu.len() - 2)))
}

/// A buffer to which its CRC was appended passes the CRC test.
pub proof fn law_appended_crc_verifies(s: Seq<u8>)
    ensures
        crc_ok(s + crc16_wire(s)),
{
    let t = s + crc16_wire(s);
    assert(t.take(t.len() - 2) =~= s);
    assert(t.skip(t.len() - 2) =~= crc16_wire(s));
}

/// A header read back from its own bytes, whatever follows them, is the header.
pub proof fn law_mbap_roundtrip(h: MbapHeader, rest: Seq<u8>)
    ensures
        MbapHeader::of(h.bytes() + rest) == h,
        (h.bytes() + rest).len() >= 7,
{
    law_word_roundtrip(h.transaction_id, 0, 0);
    law_word_roundtrip(h.protocol_id, 0, 0);
    law_word_roundtrip(h.length, 0, 0);
    let s = h.bytes() + rest;
    assert(s[0] == h.bytes()[0] && s[1] == h.bytes()[1] && s[2] == h.bytes()[2] && s[3]
        == h.bytes()[3] && s[4] == h.bytes()[4] && s[5] == h.bytes()[5] && s[6] == h.bytes()[6]);
}

/// A Modbus TCP frame taken apart gives back what it was built from, for every PDU
/// whose length the header can state, also where more bytes follow the frame.
pub proof fn law_tcp_roundtrip(unit_id: u8, transaction_id: u16, pdu: Seq<u8>, rest: Seq<u8>)
    requires
        1 + pdu.len() <= 65535,
    ensures
        tcp_parts(tcp_adu(unit_id, transaction_id, pdu) + rest) == Ok::<
            (u16, u8, Seq<u8>),
            FramingError,
        >((transaction_id, unit_id, pdu)),
{
    let h = tcp_header(unit_id, transaction_id, pdu.len());
    let s = tcp_adu(unit_id, transaction_id, pdu) + rest;
    assert(s =~= h.bytes() + (pdu + rest));
    law_mbap_roundtrip(h, pdu + rest);
    assert(MbapHeader::of(s) == h);
    assert(s.subrange(7, 6 + h.length) =~= pdu);
}

/// An RTU frame taken apart gives back what it was built from, for every PDU of at
/// least two bytes.
pub proof fn law_rtu_roundtrip(unit_id: u8, pdu: Seq<u8>)
    requires
        pdu.len() >= 2,
    ensures
        rtu_parts(rtu_adu(unit_id, pdu)) == Ok::<(u8, Seq<u8>), FramingError>((unit_id, pdu)),
{
    let body = seq![unit_id] + pdu;
    law_appended_crc_verifies(body);
    let s = rtu_adu(unit_id, pdu);
    assert(s.subrange(1, s.len() - 2) =~= pdu);
}

/// An RTU frame in which any one byte was changed is refused for its CRC.
pub proof fn law_rtu_detects_byte_change(unit_id: u8, pdu: Seq<u8>, i: int, b: u8)
    requires
        pdu.len() >= 2,
        0 <= i < pdu.len() + 3,
        rtu_adu(unit_id, pdu)[i] != b,
    ensures
        rtu_parts(rtu_adu(unit_id, pdu).update(i, b)) == Err::<(u8, Seq<u8>), FramingError>(
            FramingError::InvalidCrc,
        ),
{
    let body = seq![unit_id] + pdu;
    let s = rtu_adu(unit_id, pdu);
    let t = s.update(i, b);
    let n = body.len() as int;
    assert(s.take(n) =~= body);
    if i < n {
        assert(t.take(n) =~= body.update(i, b));
        assert(t.skip(n) =~= crc16_wire(body));
        law_crc_detects_byte_change(body, i, b);
        law_word_roundtrip(crc16(body), 0, 0);
        law_word_roundtrip(crc16(body.update(i, b)), 0, 0);
        let x = crc16_wire(body);
        let y = crc16_wire(body.update(i, b));
        if x == y {
            assert(x[0] == y[0] && x[1] == y[1]);
        }
    } else {
        assert(t.take(n) =~= body);
        assert(t.skip(n)[i - n] == b);
        assert(crc16_wire(body)[i - n] == s[i]);
    }
}

/// The seven bytes of a header: transaction id, protocol id and length, each with its high
/// byte first, and the unit id.
pub proof fn law_header_layout(h: MbapHeader)
    ensures
        h.bytes().len() == 7,
        256 * h.bytes()[0] + h.bytes()[1] == h.transaction_id,
        256 * h.bytes()[2] + h.bytes()[3] == h.protocol_id,
        256 * h.bytes()[4] + h.bytes()[5] == h.length,
        h.bytes()[6] == h.unit_id,
{
}

/// A Modbus TCP frame is a header of seven bytes and the PDU. The header has the
/// transaction id, two zero bytes, the number of bytes that follow the length field, and
/// the unit id.
pub proof fn law_tcp_layout(unit_id: u8, transaction_id: u16, pdu: Seq<u8>)
    ensures
        ({
            let adu = tcp_adu(unit_id, transaction_id, pdu);
            &&& adu.len() == pdu.len() + 7
            &&& 256 * adu[0] + adu[1] == transaction_id
            &&& adu[2] == 0 && adu[3] == 0
            &&& 256 * adu[4] + adu[5] == (pdu.len() + 1) % 65536
            &&& adu[6] == unit_id
            &&& adu.skip(7) == pdu
        }),
{
    let adu = tcp_adu(unit_id, transaction_id, pdu);
    assert(adu.skip(7) =~= pdu);
}

/// A Modbus TCP frame is taken where it has a header with protocol id zero that announces
/// at least the unit id, and as many bytes as it announces; what follows is not part of
/// it. Else it is refused: for its header, or for the bytes that it lacks.
pub proof fn law_tcp_verdicts(adu: Seq<u8>)
    ensures
        adu.len() < 7 ==> tcp_parts(adu) == Err::<(u16, u8, Seq<u8>), FramingError>(
            FramingError::IncompleteFrame,
        ),
        adu.len() >= 7 && (adu[2] != 0 || adu[3] != 0 || (adu[4] == 0 && adu[5] == 0)) ==> tcp_parts(
            adu,
        ) == Err::<(u16, u8, Seq<u8>), FramingError>(FramingError::InvalidMbap),
        adu.len() >= 7 && adu[2] == 0 && adu[3] == 0 && 256 * adu[4] + adu[5] > 0 ==> (if adu.len()
            < 256 * adu[4] + adu[5] + 6 {
            tcp_parts(adu) == Err::<(u16, u8, Seq<u8>), FramingError>(
                FramingError::IncompleteFrame,
            )
        } else {
            tcp_parts(adu) == Ok::<(u16, u8, Seq<u8>), FramingError>(
                (
                    (256 * adu[0] + adu[1]) as u16,
                    adu[6],
                    adu.subrange(7, 256 * adu[4] + adu[5] + 6),
                ),
            )
        }),
{
}

/// A Modbus RTU frame is the unit id, the PDU and the CRC of both, its low byte first.
pub proof fn law_rtu_layout(unit_id: u8, pdu: Seq<u8>)
    ensures
        ({
            let adu = rtu_adu(unit_id, pdu);
            let n = pdu.len() as int;
            &&& adu.len() == n + 3
            &&& adu[0] == unit_id
            &&& adu.subrange(1, n + 1) == pdu
            &&& adu[n + 1] + 256 * adu[n + 2] == crc16(adu.take(n + 1))
        }),
{
    let adu = rtu_adu(unit_id, pdu);
    let n = pdu.len() as int;
    assert(adu.subrange(1, n + 1) =~= pdu);
    assert(adu.take(n + 1) =~= seq![unit_id] + pdu);
    crate::crc::law_crc_on_the_wire(seq![unit_id] + pdu);
}

/// A Modbus RTU frame of at least five bytes is taken exactly where its last two bytes are
/// the CRC of what stands before them; the unit id is its first byte and the PDU the rest.
pub proof fn law_rtu_verdicts(adu: Seq<u8>)
    ensures
        adu.len() < 5 ==> rtu_parts(adu) == Err::<(u8, Seq<u8>), FramingError>(
            FramingError::IncompleteFrame,
        ),
        adu.len() >= 5 ==> ({
            let n = adu.len() as int;
            if adu[n - 2] + 256 * adu[n - 1] == crc16(adu.take(n - 2)) {
                rtu_parts(adu) == Ok::<(u8, Seq<u8>), FramingError>(
                    (adu[0], adu.subrange(1, n - 2)),
                )
            } else {
                rtu_parts(adu) == Err::<(u8, Seq<u8>), FramingError>(FramingError::InvalidCrc)
            }
        }),
{
    if adu.len() >= 5 {
        law_crc_test(adu);
    }
}

/// The CRC test passes exactly where there are two last bytes, and they are the CRC of
/// what stands before them, its low byte first.
pub proof fn law_crc_test(s: Seq<u8>)
    ensures
        s.len() < 2 ==> !crc_ok(s),
        s.len() >= 2 ==> crc_ok(s) == (s[s.len() - 2] + 256 * s[s.len() - 1] == crc16(
            s.take(s.len() - 2),
        )),
{
    if s.len() >= 2 {
        let tail = s.skip(s.len() - 2);
        let want = crc16_wire(s.take(s.len() - 2));
        crate::crc::law_crc_on_the_wire(s.take(s.len() - 2));
        assert(tail[0] == s[s.len() - 2] && tail[1] == s[s.len() - 1]);
        if s[s.len() - 2] + 256 * s[s.len() - 1] == crc16(s.take(s.len() - 2)) {
            assert(tail =~= want);
        }
    }
}

} // verus!
