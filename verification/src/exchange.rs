//! A master and a slave put together: what comes back of a request, over each of the
//! framings.

use vstd::prelude::*;
use crate::commands::{law_bits_are_read, law_registers_are_read, read_values};
use crate::error::ErrorModel;
use crate::framing::{law_mbap_roundtrip, law_rtu_roundtrip, rtu_adu, tcp_adu, tcp_header, MbapHeader};
use crate::function_code as fc;
use crate::server::{gateway_response, response, rtu_response};
use crate::slave::{bits_from, in_range, read_pdu, registers_from, reply, ImageModel};
use crate::transport::tcp::{law_answer_is_taken, taken};
use crate::transport::udp::{mbap_outcome, rtu_datagram_outcome};
use crate::transport::{accepted, law_rtu_frame_received, rtu_outcome};

verus! {

/// Over TCP a slave reads the request that the master sent, and the master takes the
/// slave's answer out of the stream, whole, with the response PDU in it.
pub proof fn law_tcp_exchange(units: Map<u8, ImageModel>, unit_id: u8, tid: u16, pdu: Seq<u8>)
    requires
        pdu.len() <= 253,
    ensures
        ({
            let tx = tcp_adu(unit_id, tid, pdu);
            let resp = gateway_response(units, unit_id, pdu);
            let rx = tcp_adu(unit_id, tid, resp);
            &&& MbapHeader::of(tx).unit_id == unit_id
            &&& MbapHeader::of(tx).transaction_id == tid
            &&& MbapHeader::of(tx).length == 1 + pdu.len()
            &&& tx.skip(7) == pdu
            &&& taken(rx, tx, tid) == (Some(rx), Seq::<u8>::empty())
            &&& rx.skip(7) == resp
        }),
{
    let tx = tcp_adu(unit_id, tid, pdu);
    let resp = gateway_response(units, unit_id, pdu);
    let rx = tcp_adu(unit_id, tid, resp);
    law_mbap_roundtrip(tcp_header(unit_id, tid, pdu.len()), pdu);
    assert(tx.skip(7) =~= pdu);
    law_answer_is_taken(unit_id, tid, resp, Seq::empty(), tx);
    assert(rx + Seq::<u8>::empty() =~= rx);
}

/// Over UDP the master takes the slave's answer for what it is.
pub proof fn law_udp_exchange(units: Map<u8, ImageModel>, unit_id: u8, tid: u16, pdu: Seq<u8>)
    requires
        pdu.len() <= 65534,
    ensures
        ({
            let resp = gateway_response(units, unit_id, pdu);
            let rx = tcp_adu(unit_id, tid, resp);
            mbap_outcome(rx, tid) == Some(accepted(rx, resp))
        }),
{
    let resp = gateway_response(units, unit_id, pdu);
    let rx = tcp_adu(unit_id, tid, resp);
    crate::transport::udp::law_transactions_are_matched(unit_id, tid, resp, tid);
}

/// With RTU framing, on a line or in datagrams, the master takes the answer of a
/// configured slave for what it is.
pub proof fn law_rtu_exchange(units: Map<u8, ImageModel>, unit_id: u8, pdu: Seq<u8>)
    requires
        pdu.len() >= 2,
        units.contains_key(unit_id),
    ensures
        ({
            let resp = response(units, unit_id, pdu)->0;
            let rx = rtu_adu(unit_id, resp);
            &&& rtu_response(units, rtu_adu(unit_id, pdu)) == Some(rx)
            &&& rtu_outcome(rx) == accepted(rx, resp)
            &&& rtu_datagram_outcome(rx, unit_id) == Some(accepted(rx, resp))
        }),
{
    law_rtu_roundtrip(unit_id, pdu);
    let resp = response(units, unit_id, pdu)->0;
    assert(resp.len() >= 2);
    law_rtu_roundtrip(unit_id, resp);
    law_rtu_frame_received(unit_id, resp);
}

/// A refusal of the slave reaches the master as the exception that it carries, under
/// every framing.
pub proof fn law_refusal_reaches_master(
    units: Map<u8, ImageModel>,
    unit_id: u8,
    pdu: Seq<u8>,
    code: u8,
    rx: Seq<u8>,
)
    requires
        units.contains_key(unit_id),
        reply(units[unit_id], pdu) == Err::<Seq<u8>, u8>(code),
    ensures
        accepted(rx, gateway_response(units, unit_id, pdu)) == Err::<
            (Seq<u8>, Seq<u8>),
            ErrorModel,
        >(ErrorModel::Exception(code)),
{
    let first = crate::server::request_code(pdu);
    assert(first | 0x80 >= 0x80) by (bit_vector);
}

/// What a read of a unit's image gives: the registers or, as zeros and ones, the bits.
pub open spec fn image_values(img: ImageModel, code: u8, addr: u16, count: u16) -> Seq<u16> {
    let bit = |b: bool|
        if b {
            1u16
        } else {
            0u16
        };
    if code == fc::READ_COILS {
        bits_from(img.coils, addr, count as nat).map_values(bit)
    } else if code == fc::READ_DISCRETE_INPUTS {
        bits_from(img.discrete_inputs, addr, count as nat).map_values(bit)
    } else if code == fc::READ_HOLDING_REGISTERS {
        registers_from(img.holding_registers, addr, count as nat)
    } else {
        registers_from(img.input_registers, addr, count as nat)
    }
}

/// A read of coils, discrete inputs, holding or input registers brings the master what
/// the unit's image holds there, over TCP, over UDP and with RTU framing.
pub proof fn law_master_reads_image(
    units: Map<u8, ImageModel>,
    unit_id: u8,
    tid: u16,
    code: u8,
    addr: u16,
    count: u16,
)
    requires
        units.contains_key(unit_id),
        1 <= code <= 4,
        1 <= count <= (if code <= 2 {
            2000int
        } else {
            125int
        }),
        in_range(addr, count),
    ensures
        ({
            let pdu = read_pdu(code, addr, count);
            let tx = tcp_adu(unit_id, tid, pdu);
            let resp = gateway_response(units, unit_id, pdu);
            let rx = tcp_adu(unit_id, tid, resp);
            let line = rtu_adu(unit_id, resp);
            &&& read_values(resp, code, count as nat) == image_values(
                units[unit_id],
                code,
                addr,
                count,
            )
            &&& taken(rx, tx, tid).0 == Some(rx)
            &&& rx.skip(7) == resp
            &&& mbap_outcome(rx, tid) == Some(Ok::<(Seq<u8>, Seq<u8>), ErrorModel>((rx, resp)))
            &&& rtu_response(units, rtu_adu(unit_id, pdu)) == Some(line)
            &&& rtu_outcome(line) == Ok::<(Seq<u8>, Seq<u8>), ErrorModel>((line, resp))
            &&& rtu_datagram_outcome(line, unit_id) == Some(
                Ok::<(Seq<u8>, Seq<u8>), ErrorModel>((line, resp)),
            )
        }),
{
    let pdu = read_pdu(code, addr, count);
    let img = units[unit_id];
    if code <= 2 {
        law_bits_are_read(img, code, addr, count);
    } else {
        law_registers_are_read(img, code, addr, count);
    }
    crate::slave::law_reply_keeps_function(img, pdu);
    law_tcp_exchange(units, unit_id, tid, pdu);
    law_udp_exchange(units, unit_id, tid, pdu);
    law_rtu_exchange(units, unit_id, pdu);
}

} // verus!
