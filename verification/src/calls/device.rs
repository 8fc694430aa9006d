//! Calls of master and slave: what a slave answers, and what a master makes of it.

use vstd::prelude::*;
use crate::client::{decode_holding, decode_input, has_whole_words, holding_request, input_request, law_master_reads_registers, law_master_reads_what_it_wrote, law_write_request_layout, write_register_request, write_registers_request, Attempt, Attempts};
use crate::commands::{conn_info, friendly_serial_error, inter_frame_or_default, law_points_are_read, law_written_point_arrives, list_serial_ports, read_points, read_points_request, shown_ports, wants_udp, write_point, ReadPointsResult};
use crate::error::{ErrorModel, ModbusError};
use crate::framing::{encode_rtu, encode_tcp, law_rtu_layout, law_rtu_roundtrip, law_tcp_layout, law_tcp_roundtrip, tcp_adu};
use crate::number::Number;
use crate::server::{gateway_response, law_framings_agree, models, respond_for, rtu_answer, rtu_response, rtu_units_after, rtu_written_unit, snapshot_from, tcp_answer, tcp_body_len, udp_answer, units_after, written_unit, Answer, ImageSnapshot, RtuReceiver, UnitImages};
use crate::slave::{after, law_coil_run_writes, law_register_reads, law_register_run_writes, law_short_request_layout, read_pdu, reply, slot_absent, slot_agrees, slot_holds, DataImage, ImageModel};
use crate::text::{lowered, occurs_in, texts_sorted};
use crate::transport::rtu::{line_settings, read_probe_ms, LineSettings, RtuExchange};
use crate::transport::tcp::{rtu_probe_ns, rtu_stream_over, TcpLink, TcpRead};
use crate::transport::udp::{mbap_reply, on_mbap_read, on_rtu_read, rtu_reply, UdpLink, UdpRead};
use crate::transport::{accepted, rtu_outcome, rtu_response_of, Frame};
use crate::wire::bit_of;

verus! {

/// A request is accepted and refused, and changes the image, as the laws of replies say.
pub proof fn law_request_calls(img: &mut DataImage, pdu: &[u8], r: Result<Vec<u8>, u8>)
    requires
        call_ensures(DataImage::handle_request, (img, pdu), r),
    ensures
        reply(old(img)@, pdu@) is Ok <==> r is Ok,
        r matches Ok(v) ==> v@ == reply(old(img)@, pdu@)->Ok_0,
        r matches Err(code) ==> code == reply(old(img)@, pdu@)->Err_0,
        final(img)@ == after(old(img)@, pdu@),
{
}

/// A well-formed write of several coils is carried out, for every number from one to 1968,
/// whatever the image holds.
pub proof fn law_coil_write_calls(
    img: &mut DataImage,
    pdu: &[u8],
    r: Result<Vec<u8>, u8>,
    addr: int,
    n: int,
    i: int,
)
    requires
        call_ensures(DataImage::handle_request, (img, pdu), r),
        1 <= n <= 1968,
        0 <= addr,
        addr + n <= 0x10000,
        pdu@.len() >= 6 + (n + 7) / 8,
        pdu@[0] == 0x0F,
        256 * pdu@[1] + pdu@[2] == addr,
        256 * pdu@[3] + pdu@[4] == n,
        pdu@[5] == (n + 7) / 8,
        0 <= i < n,
    ensures
        r matches Ok(v) && v@ == pdu@.take(5),
        final(img).coils@.contains_key((addr + i) as u16),
        final(img).coils@[(addr + i) as u16] == bit_of(pdu@[6 + i / 8], i % 8),
{
    law_coil_run_writes(old(img)@, pdu@);
    assert(pdu@.take(5) =~= seq![pdu@[0], pdu@[1], pdu@[2], pdu@[3], pdu@[4]]);
    let a = (addr + i) as u16;
    assert(final(img)@.coils.contains_key(a));
}

/// A well-formed write of several registers is carried out, for every number from one to
/// 123, whatever the image holds.
pub proof fn law_register_write_calls(
    img: &mut DataImage,
    pdu: &[u8],
    r: Result<Vec<u8>, u8>,
    addr: int,
    n: int,
    i: int,
)
    requires
        call_ensures(DataImage::handle_request, (img, pdu), r),
        1 <= n <= 123,
        0 <= addr,
        addr + n <= 0x10000,
        pdu@.len() >= 6 + 2 * n,
        pdu@[0] == 0x10,
        256 * pdu@[1] + pdu@[2] == addr,
        256 * pdu@[3] + pdu@[4] == n,
        pdu@[5] == 2 * n,
        0 <= i < n,
    ensures
        r matches Ok(v) && v@ == pdu@.take(5),
        final(img).holding_registers@.contains_key((addr + i) as u16),
        final(img).holding_registers@[(addr + i) as u16] == 256 * pdu@[6 + 2 * i] + pdu@[7 + 2 * i],
{
    law_register_run_writes(old(img)@, pdu@);
    assert(pdu@.take(5) =~= seq![pdu@[0], pdu@[1], pdu@[2], pdu@[3], pdu@[4]]);
    let a = (addr + i) as u16;
    assert(final(img)@.holding_registers.contains_key(a));
}

/// A value that was set in an area is there, at the low sixteen bits of its address, and
/// nothing else has changed.
pub proof fn law_setter_calls(
    h: &mut DataImage,
    n: &mut DataImage,
    c: &mut DataImage,
    d: &mut DataImage,
    addr: usize,
    v: u16,
    on: bool,
    u: (),
)
    requires
        call_ensures(DataImage::set_holding, (h, addr, v), u),
        call_ensures(DataImage::set_input, (n, addr, v), u),
        call_ensures(DataImage::set_coil, (c, addr, on), u),
        call_ensures(DataImage::set_discrete, (d, addr, on), u),
    ensures
        ({
            let a = (addr as int % 65536) as u16;
            &&& final(h)@ == (ImageModel {
                holding_registers: old(h)@.holding_registers.insert(a, v),
                ..old(h)@
            })
            &&& final(n)@ == (ImageModel {
                input_registers: old(n)@.input_registers.insert(a, v),
                ..old(n)@
            })
            &&& final(c)@ == (ImageModel { coils: old(c)@.coils.insert(a, on), ..old(c)@ })
            &&& final(d)@ == (ImageModel {
                discrete_inputs: old(d)@.discrete_inputs.insert(a, on),
                ..old(d)@
            })
        }),
{
    crate::wire::law_low_bits(addr as int);
}

/// A holding register that was set is what a master reads at its address.
pub proof fn law_set_then_read(
    img: &mut DataImage,
    addr: u16,
    at: usize,
    v: u16,
    u: (),
    next: &mut DataImage,
    pdu: &[u8],
    r: Result<Vec<u8>, u8>,
)
    requires
        call_ensures(DataImage::set_holding, (img, at, v), u),
        call_ensures(DataImage::handle_request, (next, pdu), r),
        at == addr,
        old(next)@ == final(img)@,
        pdu@ == read_pdu(0x03, addr, 1),
    ensures
        r matches Ok(b) && b@.len() == 4 && b@[0] == 3 && b@[1] == 2 && 256 * b@[2] + b@[3] == v,
        final(next)@ == final(img)@,
{
    law_short_request_layout(0x03, addr, 1);
    law_register_reads(old(next)@, pdu@);
    crate::slave::law_read_changes_nothing(old(next)@, pdu@);
    let b = reply(old(next)@, pdu@)->Ok_0;
    let i: int = 0;
    assert(256 * b[2 + 2 * i] + b[3 + 2 * i] == v);
}

/// A slot that was written holds the number, one that was cleared is absent, and no other
/// slot changes; an image that was made or reset has no slot at all.
pub proof fn law_slot_calls(
    w: &mut DataImage,
    c: &mut DataImage,
    z: &mut DataImage,
    fresh: DataImage,
    area: &str,
    addr: u16,
    v: Number,
    u: (),
    other: Seq<char>,
    at: u16,
)
    requires
        call_ensures(DataImage::write_slot, (w, area, addr, v), u),
        call_ensures(DataImage::clear_slot, (c, area, addr), u),
        call_ensures(DataImage::reset, (z,), u),
        call_ensures(DataImage::new, (0usize, 0usize, 0usize, 0usize), fresh),
    ensures
        slot_holds(final(w)@, area@, addr, v),
        slot_absent(final(c)@, area@, addr),
        other != area@ || at != addr ==> slot_agrees(final(w)@, old(w)@, other, at) && slot_agrees(
            final(c)@,
            old(c)@,
            other,
            at,
        ),
        slot_absent(final(z)@, other, at),
        slot_absent(fresh@, other, at),
{
    crate::slave::law_slots_are_separate(old(w)@, area@, addr, v, other, at);
    crate::slave::law_slots_are_separate(old(c)@, area@, addr, v, other, at);
}

/// The requests of a master have the layout of the protocol.
pub proof fn law_request_layout_calls(
    addr: u16,
    n: u16,
    values: &[u16],
    h: Vec<u8>,
    i: Vec<u8>,
    w: Vec<u8>,
    m: Vec<u8>,
    k: int,
)
    requires
        call_ensures(holding_request, (addr, n), h),
        call_ensures(input_request, (addr, n), i),
        call_ensures(write_register_request, (addr, n), w),
        call_ensures(write_registers_request, (addr, values), m),
        0 <= k < values@.len() <= 123,
    ensures
        h@.len() == 5 && h@[0] == 3 && 256 * h@[1] + h@[2] == addr && 256 * h@[3] + h@[4] == n,
        i@.len() == 5 && i@[0] == 4 && 256 * i@[1] + i@[2] == addr && 256 * i@[3] + i@[4] == n,
        w@.len() == 5 && w@[0] == 6 && 256 * w@[1] + w@[2] == addr && 256 * w@[3] + w@[4] == n,
        m@.len() == 6 + 2 * values@.len() && m@[0] == 16 && 256 * m@[1] + m@[2] == addr,
        256 * m@[3] + m@[4] == values@.len() && m@[5] == 2 * values@.len(),
        256 * m@[6 + 2 * k] + m@[7 + 2 * k] == values@[k],
{
    law_short_request_layout(3, addr, n);
    law_short_request_layout(4, addr, n);
    law_short_request_layout(6, addr, n);
    law_write_request_layout(addr, values@);
}

/// A master that reads holding registers gets what the slave's image holds there, in order,
/// 0xFFFF for what was never written.
pub proof fn law_holding_read_calls(
    addr: u16,
    count: u16,
    ask: Vec<u8>,
    img: &mut DataImage,
    pdu: &[u8],
    answer: Result<Vec<u8>, u8>,
    resp: &[u8],
    whole: bool,
    values: Result<Vec<u16>, ModbusError>,
    i: int,
)
    requires
        call_ensures(holding_request, (addr, count), ask),
        call_ensures(DataImage::handle_request, (img, pdu), answer),
        call_ensures(has_whole_words, (resp,), whole),
        call_ensures(decode_holding, (resp,), values),
        pdu@ == ask@,
        answer matches Ok(b) ==> resp@ == b@,
        1 <= count <= 125,
        addr + count <= 0x10000,
        0 <= i < count,
    ensures
        answer is Ok,
        whole,
        values matches Ok(v) && v@.len() == count && v@[i] == (
        if old(img).holding_registers@.contains_key((addr + i) as u16) {
            old(img).holding_registers@[(addr + i) as u16]
        } else {
            0xFFFF
        }),
{
    law_master_reads_registers(old(img)@, addr, count);
}

/// A master that reads input registers gets what the slave's image holds there, in order,
/// 0xFFFF for what was never written.
pub proof fn law_input_read_calls(
    addr: u16,
    count: u16,
    ask: Vec<u8>,
    img: &mut DataImage,
    pdu: &[u8],
    answer: Result<Vec<u8>, u8>,
    resp: &[u8],
    whole: bool,
    values: Result<Vec<u16>, ModbusError>,
    i: int,
)
    requires
        call_ensures(input_request, (addr, count), ask),
        call_ensures(DataImage::handle_request, (img, pdu), answer),
        call_ensures(has_whole_words, (resp,), whole),
        call_ensures(decode_input, (resp,), values),
        pdu@ == ask@,
        answer matches Ok(b) ==> resp@ == b@,
        1 <= count <= 125,
        addr + count <= 0x10000,
        0 <= i < count,
    ensures
        answer is Ok,
        whole,
        values matches Ok(v) && v@.len() == count && v@[i] == (
        if old(img).input_registers@.contains_key((addr + i) as u16) {
            old(img).input_registers@[(addr + i) as u16]
        } else {
            0xFFFF
        }),
{
    law_master_reads_registers(old(img)@, addr, count);
}

/// Registers that a master writes, one or several, are those that it reads back.
pub proof fn law_write_then_read_calls(
    addr: u16,
    values: &[u16],
    write: Vec<u8>,
    img: &mut DataImage,
    pdu: &[u8],
    done: Result<Vec<u8>, u8>,
    ask: Vec<u8>,
    next: &mut DataImage,
    read: &[u8],
    answer: Result<Vec<u8>, u8>,
    resp: &[u8],
    got: Result<Vec<u16>, ModbusError>,
)
    requires
        call_ensures(write_registers_request, (addr, values), write),
        call_ensures(DataImage::handle_request, (img, pdu), done),
        call_ensures(holding_request, (addr, values@.len() as u16), ask),
        call_ensures(DataImage::handle_request, (next, read), answer),
        call_ensures(decode_holding, (resp,), got),
        pdu@ == write@,
        read@ == ask@,
        old(next)@ == final(img)@,
        answer matches Ok(b) ==> resp@ == b@,
        1 <= values@.len() <= 123,
        addr + values@.len() <= 0x10000,
    ensures
        done matches Ok(v) && v@ == write@.take(5),
        answer is Ok,
        got matches Ok(v) && v@ == values@,
{
    law_master_reads_what_it_wrote(old(img)@, addr, values@);
}

/// A response of another function is refused, and so is a response to a read of holding
/// registers that lacks bytes.
pub proof fn law_refused_responses(
    resp: &[u8],
    h: Result<Vec<u16>, ModbusError>,
    n: Result<Vec<u16>, ModbusError>,
)
    requires
        call_ensures(decode_holding, (resp,), h),
        call_ensures(decode_input, (resp,), n),
    ensures
        resp@.len() < 2 || resp@[0] != 3 ==> (h matches Err(e) && e@ == ErrorModel::Other(
            "unexpected read response"@,
        )),
        resp@.len() >= 2 && resp@[0] == 3 && resp@.len() < 2 + resp@[1] ==> (h matches Err(e) && e@
            == ErrorModel::Other("read response truncated"@)),
        resp@.len() < 2 || resp@[0] != 4 ==> (n matches Err(e) && e@ == ErrorModel::Other(
            "unexpected read-input response"@,
        )),
{
}

/// A request is tried once and then as often as there are retries, but at least twice: an
/// attempt that fails is followed by another one as long as fewer were made. A response or
/// an exception of the slave ends it at once.
pub proof fn law_attempt_calls(
    retries: u32,
    fresh: Attempts,
    a: &mut Attempts,
    result: Result<Vec<u8>, ModbusError>,
    r: Attempt,
)
    requires
        call_ensures(Attempts::new, (retries,), fresh),
        call_ensures(Attempts::on_result, (a, result), r),
    ensures
        fresh.wf() && fresh.failed() == 0,
        retries >= 1 ==> fresh.limit() == retries + 1,
        retries == 0 ==> fresh.limit() == 2,
        final(a).limit() == old(a).limit(),
        result is Ok || result->Err_0 is Exception ==> r == Attempt::Done(result),
        result is Err && !(result->Err_0 is Exception) && old(a).failed() + 1 < old(a).limit() ==> r
            is Again && final(a).failed() == old(a).failed() + 1,
        result is Err && !(result->Err_0 is Exception) && old(a).failed() + 1 == old(a).limit()
            ==> r == Attempt::Done(result),
{
}

/// Every server answers a request for a configured unit with the reply of its image, and
/// changes it as the request says; over MBAP framing with the transaction id and unit id of
/// the request, over RTU framing with the unit id.
pub proof fn law_server_calls(
    t: &mut UnitImages,
    u: &mut UnitImages,
    l: &mut UnitImages,
    header: &[u8],
    pdu: &[u8],
    datagram: &[u8],
    frame: &[u8],
    a: Answer,
    b: Option<Answer>,
    c: Option<Answer>,
    tid: u16,
    unit_id: u8,
)
    requires
        call_ensures(tcp_answer, (t, header, pdu), a),
        call_ensures(udp_answer, (u, datagram), b),
        call_ensures(rtu_answer, (l, frame), c),
        header@.len() == 7,
        256 * header@[0] + header@[1] == tid,
        header@[6] == unit_id,
        2 <= pdu@.len() <= 65534,
        datagram@ == tcp_adu(unit_id, tid, pdu@),
        frame@ == crate::framing::rtu_adu(unit_id, pdu@),
    ensures
        ({
            let units = models(old(t)@);
            &&& a.bytes@ == tcp_adu(unit_id, tid, gateway_response(units, unit_id, pdu@))
            &&& a.wrote == written_unit(units, unit_id, pdu@)
            &&& models(final(t)@) == units_after(units, unit_id, pdu@)
        }),
        ({
            let units = models(old(u)@);
            &&& b matches Some(x) && x.bytes@ == tcp_adu(
                unit_id,
                tid,
                gateway_response(units, unit_id, pdu@),
            ) && x.wrote == written_unit(units, unit_id, pdu@)
            &&& models(final(u)@) == units_after(units, unit_id, pdu@)
        }),
        ({
            let units = models(old(l)@);
            &&& !units.contains_key(unit_id) ==> c is None
            &&& units.contains_key(unit_id) ==> (c matches Some(x) && x.bytes@
                == crate::framing::rtu_adu(unit_id, gateway_response(units, unit_id, pdu@))
                && x.wrote == written_unit(units, unit_id, pdu@))
            &&& models(final(l)@) == units_after(units, unit_id, pdu@)
        }),
{
    crate::wire::law_word_layout(0, header@[0], header@[1]);
    law_tcp_roundtrip(unit_id, tid, pdu@, Seq::empty());
    assert(datagram@ + Seq::<u8>::empty() =~= datagram@);
    law_rtu_roundtrip(unit_id, pdu@);
    if models(old(l)@).contains_key(unit_id) {
        law_framings_agree(models(old(l)@), unit_id, pdu@);
    }
}

/// What is no sound frame gets no answer, and changes nothing.
pub proof fn law_unsound_frame_calls(
    u: &mut UnitImages,
    l: &mut UnitImages,
    datagram: &[u8],
    frame: &[u8],
    b: Option<Answer>,
    c: Option<Answer>,
)
    requires
        call_ensures(udp_answer, (u, datagram), b),
        call_ensures(rtu_answer, (l, frame), c),
        crate::framing::tcp_parts(datagram@) is Err,
        crate::framing::rtu_parts(frame@) is Err,
    ensures
        b is None && models(final(u)@) == models(old(u)@),
        c is None && models(final(l)@) == models(old(l)@),
{
}

/// A unit that is not configured has no answer of its own; a configured one has the reply
/// of its image, or a refusal with its code, and tells its editor of a write.
pub proof fn law_unit_calls(units: &mut UnitImages, unit_id: u8, pdu: &[u8], r: Option<Answer>)
    requires
        call_ensures(respond_for, (units, unit_id, pdu), r),
    ensures
        r is Some <==> old(units)@.contains_key(unit_id),
        r matches Some(a) ==> a.bytes@ == gateway_response(models(old(units)@), unit_id, pdu@)
            && a.wrote == written_unit(models(old(units)@), unit_id, pdu@),
        models(final(units)@) == units_after(models(old(units)@), unit_id, pdu@),
{
}

/// The body that follows a header on a TCP connection is one byte shorter than its length
/// field says, for that covers the unit id.
pub proof fn law_body_calls(header: &[u8], r: Option<usize>)
    requires
        call_ensures(tcp_body_len, (header,), r),
    ensures
        256 * header@[4] + header@[5] == 0 ==> r is None,
        256 * header@[4] + header@[5] > 0 ==> r == Some(
            (256 * header@[4] + header@[5] - 1) as usize,
        ),
{
    crate::wire::law_word_layout(0, header@[4], header@[5]);
}

/// A receiver gathers bytes, and takes them for a frame once the line has been silent for
/// the gap, which is at least two milliseconds; then it gathers anew.
pub proof fn law_receiver_calls(
    ms: u64,
    fresh: RtuReceiver,
    x: &mut RtuReceiver,
    byte: u8,
    u: (),
    y: &mut RtuReceiver,
    silent: u64,
    units: &mut UnitImages,
    r: Option<Answer>,
)
    requires
        call_ensures(RtuReceiver::new, (ms,), fresh),
        call_ensures(RtuReceiver::on_byte, (x, byte), u),
        call_ensures(RtuReceiver::on_idle, (y, silent, units), r),
    ensures
        fresh.pending().len() == 0,
        ms >= 2 ==> fresh.gap() == ms,
        ms < 2 ==> fresh.gap() == 2,
        final(x).pending() == old(x).pending().push(byte),
        final(x).gap() == old(x).gap(),
        final(y).gap() == old(y).gap(),
        silent < old(y).gap() ==> r is None && final(y).pending() == old(y).pending() && models(
            final(units)@,
        ) == models(old(units)@),
        silent >= old(y).gap() && old(y).pending().len() > 0 ==> {
            &&& final(y).pending().len() == 0
            &&& models(final(units)@) == rtu_units_after(models(old(units)@), old(y).pending())
            &&& rtu_response(models(old(units)@), old(y).pending()) is None <==> r is None
            &&& r matches Some(a) ==> Some(a.bytes@) == rtu_response(
                models(old(units)@),
                old(y).pending(),
            ) && a.wrote == rtu_written_unit(models(old(units)@), old(y).pending())
        },
{
}

/// A snapshot has the values of the image.
pub proof fn law_snapshot_calls(img: &DataImage, s: ImageSnapshot)
    requires
        call_ensures(snapshot_from, (img,), s),
    ensures
        s.coils@ == img.coils@,
        s.discrete_inputs@ == img.discrete_inputs@,
        s.input_registers@ == img.input_registers@,
        s.holding_registers@ == img.holding_registers@,
{
}

/// A request over TCP carries the next transaction id, which counts up. The answer of that
/// transaction, read in one piece on an idle connection, is what the master gets: the PDU, or
/// the exception that it carries.
pub proof fn law_tcp_link_calls(
    fresh: TcpLink,
    a: &mut TcpLink,
    unit_id: u8,
    pdu: &[u8],
    sent: (u16, Vec<u8>),
    b: &mut TcpLink,
    data: Vec<u8>,
    read: Result<(), ModbusError>,
    c: &mut TcpLink,
    tx: &[u8],
    got: Option<Result<(Vec<u8>, Vec<u8>), ModbusError>>,
    resp: Seq<u8>,
)
    requires
        call_ensures(TcpLink::new, (), fresh),
        call_ensures(TcpLink::begin, (a, unit_id, pdu), sent),
        call_ensures(TcpLink::on_read, (b, TcpRead::Data(data)), read),
        call_ensures(TcpLink::poll, (c, tx, sent.0), got),
        *old(b) == *final(a),
        *old(c) == *final(b),
        old(a).pending().len() == 0,
        tx@ == sent.1@,
        resp.len() <= 253,
        data@ == tcp_adu(unit_id, sent.0, resp),
    ensures
        fresh.next_tid() == 0 && fresh.pending().len() == 0,
        sent.0 == old(a).next_tid(),
        final(a).next_tid() as int == (old(a).next_tid() + 1) % 65536,
        sent.1@ == tcp_adu(unit_id, sent.0, pdu@),
        read is Ok,
        resp.len() >= 2 && resp[0] >= 128 ==> (got matches Some(Err(e)) && e@
            == ErrorModel::Exception(resp[1])),
        resp.len() < 2 || resp[0] < 128 ==> (got matches Some(Ok(p)) && p.0@ == data@ && p.1@
            == resp),
        final(c).pending().len() == 0,
{
    law_tcp_layout(unit_id, sent.0, resp);
    crate::transport::tcp::law_answer_is_taken(unit_id, sent.0, resp, Seq::empty(), tx@);
    assert(data@ + Seq::<u8>::empty() =~= data@);
    assert(old(a).pending() + data@ =~= data@);
    crate::transport::law_refusals_are_told_apart(data@, resp);
}

/// A read of a connection that brings no bytes, an error, or nothing in time ends the
/// request with an error of its own.
pub proof fn law_tcp_read_calls(
    a: &mut TcpLink,
    d: Vec<u8>,
    x: Result<(), ModbusError>,
    b: &mut TcpLink,
    t: String,
    y: Result<(), ModbusError>,
    c: &mut TcpLink,
    z: Result<(), ModbusError>,
)
    requires
        call_ensures(TcpLink::on_read, (a, TcpRead::Data(d)), x),
        call_ensures(TcpLink::on_read, (b, TcpRead::Failed(t)), y),
        call_ensures(TcpLink::on_read, (c, TcpRead::TimedOut), z),
    ensures
        d@.len() > 0 ==> x is Ok && final(a).pending() == old(a).pending() + d@,
        d@.len() == 0 ==> (x matches Err(e) && e@ == ErrorModel::Other(
            "connection closed by peer"@,
        )),
        y matches Err(e) && e@ == ErrorModel::Other("read error: "@ + t@),
        z matches Err(e) && e@ == ErrorModel::Other("read body timeout"@),
        final(b).pending() == old(b).pending() && final(c).pending() == old(c).pending(),
{
}

/// A request over UDP carries the next transaction id, which counts up.
pub proof fn law_udp_link_calls(
    fresh: UdpLink,
    a: &mut UdpLink,
    unit_id: u8,
    pdu: &[u8],
    sent: (u16, Vec<u8>),
)
    requires
        call_ensures(UdpLink::new, (), fresh),
        call_ensures(UdpLink::begin, (a, unit_id, pdu), sent),
    ensures
        fresh.next_tid() == 0,
        sent.0 == old(a).next_tid(),
        final(a).next_tid() as int == (old(a).next_tid() + 1) % 65536,
        sent.1@ == tcp_adu(unit_id, sent.0, pdu@),
{
}

/// A datagram is the answer to a request where it is a frame of its transaction.
pub proof fn law_mbap_datagram_calls(
    unit_id: u8,
    sent: u16,
    resp: &[u8],
    frame: Vec<u8>,
    data: Vec<u8>,
    tid: u16,
    x: Option<Result<(Vec<u8>, Vec<u8>), ModbusError>>,
)
    requires
        call_ensures(encode_tcp, (unit_id, sent, resp), frame),
        call_ensures(on_mbap_read, (&UdpRead::Data(data), tid), x),
        resp@.len() <= 65534,
        data@ == frame@,
    ensures
        tid != sent ==> x is None,
        tid == sent && resp@.len() >= 2 && resp@[0] >= 128 ==> (x matches Some(Err(e)) && e@
            == ErrorModel::Exception(resp@[1])),
        tid == sent && (resp@.len() < 2 || resp@[0] < 128) ==> (x matches Some(Ok(p)) && p.0@
            == data@ && p.1@ == resp@),
{
    law_tcp_roundtrip(unit_id, sent, resp@, Seq::empty());
    assert(data@ + Seq::<u8>::empty() =~= data@);
    crate::transport::law_refusals_are_told_apart(data@, resp@);
    assert(crate::transport::udp::mbap_outcome(data@, tid) == (if tid == sent {
        Some(accepted(data@, resp@))
    } else {
        None
    }));
}

/// A failed read and the deadline end a request.
pub proof fn law_mbap_read_calls(
    text: String,
    tid: u16,
    y: Option<Result<(Vec<u8>, Vec<u8>), ModbusError>>,
    z: Option<Result<(Vec<u8>, Vec<u8>), ModbusError>>,
)
    requires
        call_ensures(on_mbap_read, (&UdpRead::Failed(text), tid), y),
        call_ensures(on_mbap_read, (&UdpRead::TimedOut, tid), z),
    ensures
        y matches Some(Err(e)) && e@ == ErrorModel::Io(text@),
        z matches Some(Err(e)) && e@ == ErrorModel::Other("read body timeout"@),
{
}

/// Over RTU framing a datagram is the answer where it is a sound frame of the unit that was
/// asked. A failed read and the deadline end the request.
pub proof fn law_rtu_datagram_calls(
    from: u8,
    resp: &[u8],
    frame: Vec<u8>,
    data: Vec<u8>,
    text: String,
    unit_id: u8,
    x: Option<Result<(Vec<u8>, Vec<u8>), ModbusError>>,
    y: Option<Result<(Vec<u8>, Vec<u8>), ModbusError>>,
    z: Option<Result<(Vec<u8>, Vec<u8>), ModbusError>>,
)
    requires
        call_ensures(encode_rtu, (from, resp), frame),
        call_ensures(on_rtu_read, (&UdpRead::Data(data), unit_id), x),
        call_ensures(on_rtu_read, (&UdpRead::Failed(text), unit_id), y),
        call_ensures(on_rtu_read, (&UdpRead::TimedOut, unit_id), z),
        resp@.len() >= 2,
        data@ == frame@,
    ensures
        from != unit_id ==> x is None,
        from == unit_id && resp@[0] >= 128 ==> (x matches Some(Err(e)) && e@
            == ErrorModel::Exception(resp@[1])),
        from == unit_id && resp@[0] < 128 ==> (x matches Some(Ok(p)) && p.0@ == frame@ && p.1@
            == resp@),
        y matches Some(Err(e)) && e@ == ErrorModel::Io(text@),
        z matches Some(Err(e)) && e@ == ErrorModel::Other("read body timeout"@),
{
    law_rtu_roundtrip(from, resp@);
    crate::transport::law_refusals_are_told_apart(frame@, resp@);
}

/// Without the socket around it a datagram means the same.
pub proof fn law_datagram_calls(
    d: &[u8],
    data: Vec<u8>,
    tid: u16,
    unit_id: u8,
    x: Option<Result<(Vec<u8>, Vec<u8>), ModbusError>>,
    y: Option<Result<(Vec<u8>, Vec<u8>), ModbusError>>,
    p: Option<Result<(Vec<u8>, Vec<u8>), ModbusError>>,
    q: Option<Result<(Vec<u8>, Vec<u8>), ModbusError>>,
)
    requires
        call_ensures(mbap_reply, (d, tid), x),
        call_ensures(on_mbap_read, (&UdpRead::Data(data), tid), y),
        call_ensures(rtu_reply, (d, unit_id), p),
        call_ensures(on_rtu_read, (&UdpRead::Data(data), unit_id), q),
        d@ == data@,
    ensures
        x is Some <==> y is Some,
        p is Some <==> q is Some,
        x matches Some(Ok(a)) ==> (y matches Some(Ok(b)) && a.0@ == b.0@ && a.1@ == b.1@),
        p matches Some(Ok(a)) ==> (q matches Some(Ok(b)) && a.0@ == b.0@ && a.1@ == b.1@),
        x matches Some(Err(e)) ==> (y matches Some(Err(f)) && e@ == f@),
        p matches Some(Err(e)) ==> (q matches Some(Err(f)) && e@ == f@),
{
}

/// The bytes that were gathered on a line are the response in them where they are a sound
/// frame; none are a timeout.
pub proof fn law_line_calls(
    unit_id: u8,
    resp: &[u8],
    frame: Vec<u8>,
    line: &[u8],
    r: Result<(Vec<u8>, Vec<u8>), ModbusError>,
)
    requires
        call_ensures(encode_rtu, (unit_id, resp), frame),
        call_ensures(rtu_response_of, (line,), r),
    ensures
        line@.len() == 0 ==> (r matches Err(e) && e@ == ErrorModel::Other(
            "no response (timeout)"@,
        )),
        line@ == frame@ && resp@.len() >= 2 && resp@[0] >= 128 ==> (r matches Err(e) && e@
            == ErrorModel::Exception(resp@[1])),
        line@ == frame@ && resp@.len() >= 2 && resp@[0] < 128 ==> (r matches Ok(p) && p.0@
            == frame@ && p.1@ == resp@),
        line@.len() > 0 && crate::framing::rtu_parts(line@) is Err ==> (r matches Err(e) && e@
            == ErrorModel::Framing(crate::framing::rtu_parts(line@)->Err_0)),
{
    if resp@.len() >= 2 {
        crate::transport::law_rtu_frame_received(unit_id, resp@);
    }
    law_rtu_layout(unit_id, resp@);
}

/// An exchange on a serial line sends the frame of its request, gathers what comes in, is
/// over with the timeout or with the gap behind the last byte, and ends with the time of the
/// last byte and the response in what came in.
pub proof fn law_exchange_calls(
    unit_id: u8,
    pdu: &[u8],
    gap: u64,
    limit: u64,
    fresh: RtuExchange,
    x: &mut RtuExchange,
    byte: u8,
    now: u64,
    u: (),
    y: &RtuExchange,
    at: u64,
    over: bool,
    z: RtuExchange,
    end: Result<Frame, ModbusError>,
)
    requires
        call_ensures(RtuExchange::new, (unit_id, pdu, gap, limit), fresh),
        call_ensures(RtuExchange::on_byte, (x, byte, now), u),
        call_ensures(RtuExchange::is_over, (y, at), over),
        call_ensures(RtuExchange::finish, (z,), end),
        y.last() matches Some(l) ==> l <= at,
    ensures
        fresh.sent() == crate::framing::rtu_adu(unit_id, pdu@),
        fresh.gathered().len() == 0 && fresh.last() is None,
        fresh.gap() == gap && fresh.limit() == limit,
        final(x).gathered() == old(x).gathered().push(byte),
        final(x).last() == Some(now),
        final(x).sent() == old(x).sent(),
        final(x).gap() == old(x).gap() && final(x).limit() == old(x).limit(),
        y.last() is None ==> over == (at >= y.limit()),
        y.last() matches Some(l) ==> over == (at >= l + y.gap() || at >= y.limit()),
        end is Ok <==> rtu_outcome(z.gathered()) is Ok,
        end matches Ok(f) ==> f.0@ == z.sent() && (f.1@, f.3@) == rtu_outcome(z.gathered())->Ok_0,
        end matches Ok(f) ==> (z.last() matches Some(l) ==> f.2 == l),
        end matches Err(e) ==> e@ == rtu_outcome(z.gathered())->Err_0,
{
}

/// A serial line is set up as asked for, or with eight data bits, one stop bit and no
/// parity; and reads of it, and of a stream, are probed at least and at most so often.
pub proof fn law_line_setting_calls(
    data_bits: u8,
    stop_bits: u8,
    parity: &str,
    s: LineSettings,
    ms: u64,
    probe: u64,
    ns: u64,
    stream: u64,
    silent: u64,
    limit: u64,
    over: bool,
)
    requires
        call_ensures(line_settings, (data_bits, stop_bits, parity), s),
        call_ensures(read_probe_ms, (ms,), probe),
        call_ensures(rtu_probe_ns, (ns,), stream),
        call_ensures(rtu_stream_over, (silent, ns, limit), over),
    ensures
        5 <= data_bits <= 7 ==> s.data_bits == data_bits,
        !(5 <= data_bits <= 7) ==> s.data_bits == 8,
        s.stop_bits == (if stop_bits == 2 {
            2u8
        } else {
            1
        }),
        s.parity is Odd <==> lowered(parity@) == "odd"@,
        s.parity is Even <==> lowered(parity@) == "even"@,
        probe <= 20 && probe <= ms && (probe == 20 || probe == ms),
        stream >= 20_000_000 && stream >= ns && (stream == 20_000_000 || stream == ns),
        over <==> silent >= ns || silent > limit,
{
    crate::transport::rtu::law_line_settings(data_bits, stop_bits, parity@);
}

/// A data point that a master writes arrives in the slave's image.
pub proof fn law_point_write_calls(
    func: &str,
    addr: u16,
    values: &[u16],
    w: Vec<u8>,
    img: &mut DataImage,
    pdu: &[u8],
    r: Result<Vec<u8>, u8>,
    code: u8,
)
    requires
        call_ensures(write_point, (func, addr, values), w),
        call_ensures(DataImage::handle_request, (img, pdu), r),
        call_ensures(crate::commands::parse_func, (func,), code),
        pdu@ == w@,
        values@.len() >= 2 ==> addr < 0xFFFF,
    ensures
        r is Ok,
        ({
            let first: u16 = if values@.len() == 0 {
                0
            } else {
                values@[0]
            };
            if code == 1 {
                final(img)@ == (ImageModel {
                    coils: old(img)@.coils.insert(addr, first != 0),
                    ..old(img)@
                })
            } else if values@.len() >= 2 {
                final(img)@ == (ImageModel {
                    holding_registers: old(img)@.holding_registers.insert(addr, first).insert(
                        (addr + 1) as u16,
                        values@[1],
                    ),
                    ..old(img)@
                })
            } else {
                final(img)@ == (ImageModel {
                    holding_registers: old(img)@.holding_registers.insert(addr, first),
                    ..old(img)@
                })
            }
        }),
{
    law_written_point_arrives(old(img)@, func@, addr, values@);
}

/// Data points that a master reads are what the slave's image holds, in order; the frames
/// are shown in hexadecimal beside them. Only the four reads are accepted.
pub proof fn law_point_read_calls(
    func: &str,
    code: u8,
    addr: u16,
    count: u16,
    ask: Result<(u8, Vec<u8>), String>,
    img: &mut DataImage,
    pdu: &[u8],
    answer: Result<Vec<u8>, u8>,
    tx: &[u8],
    rx: &[u8],
    rtt: u64,
    resp: &[u8],
    r: Result<ReadPointsResult, String>,
    i: int,
)
    requires
        call_ensures(crate::commands::parse_func, (func,), code),
        call_ensures(read_points_request, (func, addr, count), ask),
        call_ensures(DataImage::handle_request, (img, pdu), answer),
        call_ensures(read_points, (tx, rx, rtt, resp, code, count), r),
        ask matches Ok(p) ==> pdu@ == p.1@,
        answer matches Ok(b) ==> resp@ == b@,
        1 <= count <= (if code <= 2 {
            2000int
        } else {
            125
        }),
        addr + count <= 0x10000,
        0 <= i < count,
    ensures
        ask is Ok <==> 1 <= code <= 4,
        ask matches Ok(p) ==> p.0 == code,
        1 <= code <= 4 ==> {
            let a = (addr + i) as u16;
            &&& answer is Ok
            &&& r is Ok
            &&& r->Ok_0.rtt_ms == rtt
            &&& r->Ok_0.regs@.len() == count
            &&& code == 1 ==> r->Ok_0.regs@[i] == (if old(img).coils@.contains_key(a) && old(
                img,
            ).coils@[a] {
                1u16
            } else {
                0
            })
            &&& code == 2 ==> r->Ok_0.regs@[i] == (if old(img).discrete_inputs@.contains_key(a)
                && old(img).discrete_inputs@[a] {
                1u16
            } else {
                0
            })
            &&& code == 3 ==> r->Ok_0.regs@[i] == (if old(img).holding_registers@.contains_key(
                a,
            ) {
                old(img).holding_registers@[a]
            } else {
                0xFFFF
            })
            &&& code == 4 ==> r->Ok_0.regs@[i] == (if old(img).input_registers@.contains_key(a) {
                old(img).input_registers@[a]
            } else {
                0xFFFF
            })
        },
{
    if 1 <= code <= 4 {
        law_points_are_read(old(img)@, code, addr, count, i);
    }
}

/// Connections have their names, a gap that is not given is five milliseconds, and UDP is
/// meant where the transport says so in small or capital letters.
pub proof fn law_connection_calls(
    conn: u8,
    name: &'static str,
    ms: u64,
    given: u64,
    open: u64,
    t: &str,
    udp: bool,
    none: bool,
)
    requires
        call_ensures(conn_info, (conn,), name),
        call_ensures(inter_frame_or_default, (Some(ms),), given),
        call_ensures(inter_frame_or_default, (None::<u64>,), open),
        call_ensures(wants_udp, (Some(t),), udp),
        call_ensures(wants_udp, (None::<&str>,), none),
    ensures
        conn == 1 ==> name@ == "tcp"@,
        conn == 2 ==> name@ == "rtu"@,
        conn == 3 ==> name@ == "udp"@,
        conn == 0 || conn > 3 ==> name@ == "none"@,
        given == ms && open == 5,
        udp <==> lowered(t@) == "udp"@,
        !none,
{
    crate::commands::law_connection_names(conn);
}

/// The ports that are listed stand in order; each is one that was found and is worth
/// showing. An error about opening one keeps its text.
pub proof fn law_port_calls(ports: Vec<String>, r: Vec<String>, m: String, e: String)
    requires
        call_ensures(list_serial_ports, (ports,), r),
        call_ensures(friendly_serial_error, (m,), e),
    ensures
        texts_sorted(r@),
        r@.to_multiset() == shown_ports(ports@).to_multiset(),
        e@.len() >= m@.len() && e@.take(m@.len() as int) == m@,
        e@ != m@ <==> occurs_in("Resource busy"@, m@) || occurs_in("os error 16"@, m@),
{
    crate::commands::law_serial_errors(m@);
}

} // verus!
