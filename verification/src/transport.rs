//! The master side of each transport: what is sent, and what becomes of the bytes
//! that come back.

pub mod rtu;
pub mod tcp;
pub mod udp;

use vstd::prelude::*;
use crate::error::{other, ErrorModel, ModbusError};
use crate::framing::{encode_rtu, parse_rtu, rtu_adu, rtu_parts};

verus! {

/// One exchange: the frame sent, the frame received, the round-trip time in
/// nanoseconds and the response PDU.
pub type Frame = (Vec<u8>, Vec<u8>, u64, Vec<u8>);

/// Whether a response PDU is a refusal.
pub open spec fn is_refusal(pdu: Seq<u8>) -> bool {
    pdu.len() >= 2 && pdu[0] >= 0x80
}

/// The frame received and the response PDU, or the exception that the PDU carries.
pub open spec fn accepted(rx: Seq<u8>, pdu: Seq<u8>) -> Result<(Seq<u8>, Seq<u8>), ErrorModel> {
    if is_refusal(pdu) {
        Err(ErrorModel::Exception(pdu[1]))
    } else {
        Ok((rx, pdu))
    }
}

/// Whether an executed outcome is the outcome `want`.
pub open spec fn is_outcome(
    r: Result<(Vec<u8>, Vec<u8>), ModbusError>,
    want: Result<(Seq<u8>, Seq<u8>), ErrorModel>,
) -> bool {
    match r {
        Ok(p) => want == Ok::<(Seq<u8>, Seq<u8>), ErrorModel>((p.0@, p.1@)),
        Err(e) => want == Err::<(Seq<u8>, Seq<u8>), ErrorModel>(e@),
    }
}

/// What the bytes gathered from an RTU line amount to.
pub open spec fn rtu_outcome(bytes: Seq<u8>) -> Result<(Seq<u8>, Seq<u8>), ErrorModel> {
    if bytes.len() == 0 {
        Err(ErrorModel::Other("no response (timeout)"@))
    } else {
        match rtu_parts(bytes) {
            Err(e) => Err(ErrorModel::Framing(e)),
            Ok(p) => accepted(rtu_adu(p.0, p.1), p.1),
        }
    }
}

/// Tells a refusal from a response.
pub(crate) fn accept(rx: Vec<u8>, pdu: Vec<u8>) -> (r: Result<(Vec<u8>, Vec<u8>), ModbusError>)
    ensures
        is_outcome(r, accepted(rx@, pdu@)),
{
    if pdu.len() >= 2 && pdu[0] >= 0x80 {
        Err(ModbusError::Exception(pdu[1]))
    } else {
        Ok((rx, pdu))
    }
}

/// Makes a response of the bytes gathered from an RTU line.
pub fn rtu_response_of(bytes: &[u8]) -> (r: Result<(Vec<u8>, Vec<u8>), ModbusError>)
    ensures
        is_outcome(r, rtu_outcome(bytes@)),
{
    if bytes.len() == 0 {
        return Err(other("no response (timeout)"));
    }
    match parse_rtu(bytes) {
        Err(e) => Err(ModbusError::Framing(e)),
        Ok(p) => {
            let rx = encode_rtu(p.0, p.1.as_slice());
            accept(rx, p.1)
        },
    }
}

/// An RTU frame is received as the frame that was sent, with the PDU in it, unless
/// the PDU is a refusal.
pub proof fn law_rtu_frame_received(unit_id: u8, pdu: Seq<u8>)
    requires
        pdu.len() >= 2,
    ensures
        rtu_outcome(rtu_adu(unit_id, pdu)) == (if pdu[0] >= 0x80 {
            Err::<(Seq<u8>, Seq<u8>), ErrorModel>(ErrorModel::Exception(pdu[1]))
        } else {
            Ok((rtu_adu(unit_id, pdu), pdu))
        }),
{
    crate::framing::law_rtu_roundtrip(unit_id, pdu);
}

/// A response of at least two bytes whose function has its top bit set is a refusal with
/// the code in its second byte; any other response is taken, with the frame it came in.
pub proof fn law_refusals_are_told_apart(rx: Seq<u8>, pdu: Seq<u8>)
    ensures
        pdu.len() >= 2 && pdu[0] >= 128 ==> accepted(rx, pdu) == Err::<
            (Seq<u8>, Seq<u8>),
            ErrorModel,
        >(ErrorModel::Exception(pdu[1])),
        pdu.len() < 2 || pdu[0] < 128 ==> accepted(rx, pdu) == Ok::<
            (Seq<u8>, Seq<u8>),
            ErrorModel,
        >((rx, pdu)),
{
}

/// No bytes at all are a timeout, bytes that are no sound frame a framing error, and a
/// sound frame is the response in it.
pub proof fn law_gathered_bytes(bytes: Seq<u8>)
    ensures
        bytes.len() == 0 ==> rtu_outcome(bytes) == Err::<(Seq<u8>, Seq<u8>), ErrorModel>(
            ErrorModel::Other("no response (timeout)"@),
        ),
        bytes.len() > 0 ==> match rtu_parts(bytes) {
            Err(e) => rtu_outcome(bytes) == Err::<(Seq<u8>, Seq<u8>), ErrorModel>(
                ErrorModel::Framing(e),
            ),
            Ok(p) => rtu_outcome(bytes) == accepted(bytes, p.1),
        },
{
    if rtu_parts(bytes) is Ok {
        let p = rtu_parts(bytes)->Ok_0;
        let n = bytes.len() as int;
        crate::framing::law_rtu_verdicts(bytes);
        crate::framing::law_rtu_layout(p.0, p.1);
        let again = rtu_adu(p.0, p.1);
        assert(seq![p.0] + p.1 =~= bytes.take(n - 2));
        assert(again.take(n - 2) =~= bytes.take(n - 2));
        assert(again =~= bytes) by {
            assert forall|i: int| 0 <= i < n implies again[i] == bytes[i] by {
                if i < n - 2 {
                    assert(again.take(n - 2)[i] == bytes.take(n - 2)[i]);
                }
            }
        }
    }
}

/// An executed outcome stands for the outcome that is wanted exactly where both are the
/// same frame and PDU, or both are the same error.
pub proof fn law_outcomes(
    r: Result<(Vec<u8>, Vec<u8>), ModbusError>,
    want: Result<(Seq<u8>, Seq<u8>), ErrorModel>,
)
    ensures
        is_outcome(r, want) <==> match (r, want) {
            (Ok(p), Ok(q)) => p.0@ == q.0 && p.1@ == q.1,
            (Err(e), Err(f)) => e@ == f,
            _ => false,
        },
{
}

} // verus!
