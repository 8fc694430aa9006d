//! The slave (server) side: which reply a request gets, over each of the framings,
//! and when a serial frame is complete.
//!
//! All servers work on one table of units, so a value that a master writes over one
//! of them is at once visible over the others.

use std::collections::HashMap;
use vstd::prelude::*;
use crate::error::exception;
use crate::framing::{encode_rtu, encode_tcp, parse_rtu, parse_tcp, rtu_adu, rtu_parts, tcp_adu, tcp_parts};
use crate::function_code as fc;
use crate::slave::{after, empty_image, law_written_coil_reads_back, law_written_coils_read_back, law_written_register_reads_back, law_written_registers_read_back, pdu_addr, pdu_count, read_pdu, reply, DataImage, ImageModel};
use crate::wire::{make_word, packed, unpacked, word_at};

verus! {

/// The data image of one unit. The table of units has one owner, which every server
/// and the editor go through.
pub type SharedImage = DataImage;

/// The silence, in milliseconds, that ends an RTU frame on a TCP stream, where there is
/// no line whose timing would end it.
pub const RTU_STREAM_GAP_MS: u64 = 20;

/// The units that are configured, each with a data image of its own.
pub type UnitImages = HashMap<u8, SharedImage>;

/// What a table of units holds.
pub open spec fn models(units: Map<u8, DataImage>) -> Map<u8, ImageModel> {
    units.map_values(|d: DataImage| d@)
}

/// The function code of a request, zero for a request without any byte.
pub open spec fn request_code(pdu: Seq<u8>) -> u8 {
    if pdu.len() == 0 {
        0
    } else {
        pdu[0]
    }
}

/// A refusal: the function code with its top bit set, then the exception code.
pub open spec fn refusal(pdu: Seq<u8>, code: u8) -> Seq<u8> {
    seq![request_code(pdu) | 0x80, code]
}

/// The response PDU of an image, a refusal included.
pub open spec fn response_pdu(img: ImageModel, pdu: Seq<u8>) -> Seq<u8> {
    match reply(img, pdu) {
        Ok(s) => s,
        Err(code) => refusal(pdu, code),
    }
}

/// Whether a request is one of the writes that a slave carries out.
pub open spec fn is_slave_write(pdu: Seq<u8>) -> bool {
    pdu.len() > 0 && (pdu[0] == fc::WRITE_SINGLE_COIL || pdu[0] == fc::WRITE_SINGLE_REGISTER || pdu[0]
        == fc::WRITE_MULTIPLE_COILS || pdu[0] == fc::WRITE_MULTIPLE_REGISTERS)
}

/// What the unit `unit_id` answers; nothing where no such unit is configured.
pub open spec fn response(units: Map<u8, ImageModel>, unit_id: u8, pdu: Seq<u8>) -> Option<
    Seq<u8>,
> {
    if units.contains_key(unit_id) {
        Some(response_pdu(units[unit_id], pdu))
    } else {
        None
    }
}

/// The unit that a request has written to, if it has written.
pub open spec fn written_unit(units: Map<u8, ImageModel>, unit_id: u8, pdu: Seq<u8>) -> Option<u8> {
    if units.contains_key(unit_id) && reply(units[unit_id], pdu) is Ok && is_slave_write(pdu) {
        Some(unit_id)
    } else {
        None
    }
}

/// The units after a request to `unit_id`.
pub open spec fn units_after(units: Map<u8, ImageModel>, unit_id: u8, pdu: Seq<u8>) -> Map<
    u8,
    ImageModel,
> {
    if units.contains_key(unit_id) {
        units.insert(unit_id, after(units[unit_id], pdu))
    } else {
        units
    }
}

/// What a server with MBAP framing answers: where the unit is not configured, the
/// exception of a gateway whose target does not answer.
pub open spec fn gateway_response(units: Map<u8, ImageModel>, unit_id: u8, pdu: Seq<u8>) -> Seq<
    u8,
> {
    match response(units, unit_id, pdu) {
        Some(r) => r,
        None => refusal(pdu, exception::GATEWAY_TARGET_FAILED),
    }
}

/// The frame with which an RTU server answers `frame`: none for a broken frame or a
/// unit that is not configured.
pub open spec fn rtu_response(units: Map<u8, ImageModel>, frame: Seq<u8>) -> Option<Seq<u8>> {
    match rtu_parts(frame) {
        Ok(p) => match response(units, p.0, p.1) {
            Some(r) => Some(rtu_adu(p.0, r)),
            None => None,
        },
        Err(_) => None,
    }
}

/// The units after an RTU server has taken in `frame`.
pub open spec fn rtu_units_after(units: Map<u8, ImageModel>, frame: Seq<u8>) -> Map<u8, ImageModel> {
    match rtu_parts(frame) {
        Ok(p) => units_after(units, p.0, p.1),
        Err(_) => units,
    }
}

/// The unit that `frame` has written to over RTU, if it has written.
pub open spec fn rtu_written_unit(units: Map<u8, ImageModel>, frame: Seq<u8>) -> Option<u8> {
    match rtu_parts(frame) {
        Ok(p) => written_unit(units, p.0, p.1),
        Err(_) => None,
    }
}

/// A reply to send, and the unit that was written to, if one was: its editor has to
/// be told.
#[derive(Debug)]
pub struct Answer {
    pub bytes: Vec<u8>,
    pub wrote: Option<u8>,
}

/// A fresh, empty data image.
pub fn new_shared_image() -> (r: SharedImage)
    ensures
        r@ == empty_image(),
{
    DataImage::new(0, 0, 0, 0)
}

fn first_or_zero(pdu: &[u8]) -> (r: u8)
    ensures
        r == request_code(pdu@),
{
    if pdu.len() == 0 {
        0
    } else {
        pdu[0]
    }
}

fn refuse(pdu: &[u8], code: u8) -> (r: Vec<u8>)
    ensures
        r@ == refusal(pdu@, code),
{
    let mut out: Vec<u8> = Vec::new();
    out.push(first_or_zero(pdu) | 0x80);
    out.push(code);
    assert(out@ =~= refusal(pdu@, code));
    out
}

/// Processes a request PDU on the data image of `unit_id` and returns the response
/// PDU (an exception PDU where the request is refused). Returns `None` where the unit
/// is not configured: the caller decides whether that means silence or a gateway
/// exception.
pub fn respond_for(units: &mut UnitImages, unit_id: u8, req_pdu: &[u8]) -> (r: Option<Answer>)
    ensures
        models(final(units)@) == units_after(models(old(units)@), unit_id, req_pdu@),
        r is Some <==> old(units)@.contains_key(unit_id),
        r matches Some(a) ==> response(models(old(units)@), unit_id, req_pdu@) == Some(a.bytes@)
            && a.wrote == written_unit(models(old(units)@), unit_id, req_pdu@),
{
    let ghost before = units@;
    match units.remove(&unit_id) {
        None => {
            assert(models(units@) =~= models(before));
            None
        },
        Some(img) => {
            let mut img: DataImage = img;
            let ghost model = img@;
            let res = img.handle_request(req_pdu);
            units.insert(unit_id, img);
            assert(models(units@) =~= models(before).insert(unit_id, after(model, req_pdu@)));
            let code: u8 = first_or_zero(req_pdu);
            let writes: bool = code == fc::WRITE_SINGLE_COIL || code == fc::WRITE_SINGLE_REGISTER
                || code == fc::WRITE_MULTIPLE_COILS || code == fc::WRITE_MULTIPLE_REGISTERS;
            match res {
                Ok(resp) => {
                    let wrote = if writes {
                        Some(unit_id)
                    } else {
                        None
                    };
                    Some(Answer { bytes: resp, wrote })
                },
                Err(exc) => Some(Answer { bytes: refuse(req_pdu, exc), wrote: None }),
            }
        },
    }
}

fn respond_as_gateway(units: &mut UnitImages, unit_id: u8, req_pdu: &[u8]) -> (r: Answer)
    ensures
        models(final(units)@) == units_after(models(old(units)@), unit_id, req_pdu@),
        r.bytes@ == gateway_response(models(old(units)@), unit_id, req_pdu@),
        r.wrote == written_unit(models(old(units)@), unit_id, req_pdu@),
{
    match respond_for(units, unit_id, req_pdu) {
        Some(a) => a,
        None => Answer {
            bytes: refuse(req_pdu, exception::GATEWAY_TARGET_FAILED),
            wrote: None,
        },
    }
}

proof fn lemma_response_len(units: Map<u8, ImageModel>, unit_id: u8, pdu: Seq<u8>)
    ensures
        gateway_response(units, unit_id, pdu).len() <= 252 || gateway_response(
            units,
            unit_id,
            pdu,
        ).len() <= pdu.len(),
{
}

/// How many bytes follow a seven-byte MBAP header on a TCP connection; `None` where
/// the header announces not even a unit id, and the next header has to be awaited.
pub fn tcp_body_len(header: &[u8]) -> (r: Option<usize>)
    requires
        header@.len() == 7,
    ensures
        r == (if word_at(header@, 4) == 0 {
            None::<usize>
        } else {
            Some((word_at(header@, 4) - 1) as usize)
        }),
{
    let len: u16 = make_word(header[4], header[5]);
    if len < 1 {
        None
    } else {
        Some((len - 1) as usize)
    }
}

/// The frame with which a TCP slave answers the request whose MBAP header and PDU
/// were read. The reply carries the request's transaction id and unit id. The
/// protocol id of the request is not looked at.
pub fn tcp_answer(units: &mut UnitImages, header: &[u8], pdu: &[u8]) -> (r: Answer)
    requires
        header@.len() == 7,
        pdu@.len() <= 65535,
    ensures
        models(final(units)@) == units_after(models(old(units)@), header@[6], pdu@),
        r.bytes@ == tcp_adu(
            header@[6],
            word_at(header@, 0),
            gateway_response(models(old(units)@), header@[6], pdu@),
        ),
        r.wrote == written_unit(models(old(units)@), header@[6], pdu@),
{
    proof {
        lemma_response_len(models(units@), header@[6], pdu@);
    }
    let unit_id: u8 = header[6];
    let a = respond_as_gateway(units, unit_id, pdu);
    let bytes = encode_tcp(unit_id, make_word(header[0], header[1]), a.bytes.as_slice());
    Answer { bytes, wrote: a.wrote }
}

/// The datagram with which a UDP slave answers a datagram that holds an MBAP frame;
/// `None` where it holds none.
pub fn udp_answer(units: &mut UnitImages, datagram: &[u8]) -> (r: Option<Answer>)
    ensures
        match tcp_parts(datagram@) {
            Err(_) => r is None && models(final(units)@) == models(old(units)@),
            Ok(p) => {
                &&& models(final(units)@) == units_after(models(old(units)@), p.1, p.2)
                &&& r matches Some(a) && a.bytes@ == tcp_adu(
                    p.1,
                    p.0,
                    gateway_response(models(old(units)@), p.1, p.2),
                ) && a.wrote == written_unit(models(old(units)@), p.1, p.2)
            },
        },
{
    match parse_tcp(datagram) {
        Err(_) => None,
        Ok(p) => {
            let pdu: Vec<u8> = p.2;
            proof {
                lemma_response_len(models(units@), p.1, pdu@);
                assert(pdu@.len() <= 65535);
            }
            let a = respond_as_gateway(units, p.1, pdu.as_slice());
            let bytes = encode_tcp(p.1, p.0, a.bytes.as_slice());
            Some(Answer { bytes, wrote: a.wrote })
        },
    }
}

/// The frame with which an RTU slave answers a frame, on a serial line, over UDP or
/// over TCP; `None` where the frame is broken or its unit is not configured, for then
/// the bus stays silent.
pub fn rtu_answer(units: &mut UnitImages, frame: &[u8]) -> (r: Option<Answer>)
    ensures
        models(final(units)@) == rtu_units_after(models(old(units)@), frame@),
        match r {
            Some(a) => rtu_response(models(old(units)@), frame@) == Some(a.bytes@) && a.wrote
                == rtu_written_unit(models(old(units)@), frame@),
            None => rtu_response(models(old(units)@), frame@) is None,
        },
{
    match parse_rtu(frame) {
        Err(_) => None,
        Ok(p) => {
            let pdu: Vec<u8> = p.1;
            match respond_for(units, p.0, pdu.as_slice()) {
                None => None,
                Some(a) => {
                    let bytes = encode_rtu(p.0, a.bytes.as_slice());
                    Some(Answer { bytes, wrote: a.wrote })
                },
            }
        },
    }
}

/// The receiving end of an RTU slave: bytes gather until the line has been silent for
/// the inter-frame gap, and are then one frame.
#[derive(Debug)]
pub struct RtuReceiver {
    buf: Vec<u8>,
    gap_ms: u64,
}

impl RtuReceiver {
    /// The bytes of the frame under way.
    pub closed spec fn pending(&self) -> Seq<u8> {
        self.buf@
    }

    /// The silence, in milliseconds, that ends a frame.
    pub closed spec fn gap(&self) -> u64 {
        self.gap_ms
    }

    /// A receiver on an idle line. Gaps under two milliseconds are raised to two.
    pub fn new(inter_frame_ms: u64) -> (r: Self)
        ensures
            r.pending() == Seq::<u8>::empty(),
            r.gap() == (if inter_frame_ms < 2 {
                2
            } else {
                inter_frame_ms
            }),
    {
        let gap_ms: u64 = if inter_frame_ms < 2 {
            2
        } else {
            inter_frame_ms
        };
        RtuReceiver { buf: Vec::new(), gap_ms }
    }

    /// A byte has come in.
    pub fn on_byte(&mut self, b: u8)
        ensures
            final(self).pending() == old(self).pending().push(b),
            final(self).gap() == old(self).gap(),
    {
        self.buf.push(b);
    }

    /// Nothing came in, and the last byte is `silent_ms` whole milliseconds old. Once
    /// the gap has passed, a frame under way is answered and given up.
    pub fn on_idle(&mut self, silent_ms: u64, units: &mut UnitImages) -> (r: Option<Answer>)
        ensures
            final(self).gap() == old(self).gap(),
            silent_ms < old(self).gap() || old(self).pending().len() == 0 ==> {
                &&& r is None
                &&& final(self).pending() == old(self).pending()
                &&& models(final(units)@) == models(old(units)@)
            },
            silent_ms >= old(self).gap() && old(self).pending().len() > 0 ==> {
                &&& final(self).pending() == Seq::<u8>::empty()
                &&& models(final(units)@) == rtu_units_after(
                    models(old(units)@),
                    old(self).pending(),
                )
                &&& match r {
                    Some(a) => rtu_response(models(old(units)@), old(self).pending()) == Some(
                        a.bytes@,
                    ) && a.wrote == rtu_written_unit(models(old(units)@), old(self).pending()),
                    None => rtu_response(models(old(units)@), old(self).pending()) is None,
                }
            },
    {
        if silent_ms >= self.gap_ms && self.buf.len() > 0 {
            self.end_frame(units)
        } else {
            None
        }
    }

    /// The frame under way has ended: it is answered and given up.
    pub fn end_frame(&mut self, units: &mut UnitImages) -> (r: Option<Answer>)
        ensures
            final(self).gap() == old(self).gap(),
            final(self).pending() == Seq::<u8>::empty(),
            models(final(units)@) == rtu_units_after(models(old(units)@), old(self).pending()),
            match r {
                Some(a) => rtu_response(models(old(units)@), old(self).pending()) == Some(a.bytes@)
                    && a.wrote == rtu_written_unit(models(old(units)@), old(self).pending()),
                None => rtu_response(models(old(units)@), old(self).pending()) is None,
            },
    {
        let r = rtu_answer(units, self.buf.as_slice());
        self.buf.clear();
        r
    }
}

/// A copy of the values of an image, for display. An address that is absent was never
/// written.
#[derive(Debug, Clone)]
pub struct ImageSnapshot {
    pub coils: HashMap<u16, bool>,
    pub discrete_inputs: HashMap<u16, bool>,
    pub input_registers: HashMap<u16, u16>,
    pub holding_registers: HashMap<u16, u16>,
}

impl View for ImageSnapshot {
    type V = ImageModel;

    open spec fn view(&self) -> ImageModel {
        ImageModel {
            coils: self.coils@,
            discrete_inputs: self.discrete_inputs@,
            input_registers: self.input_registers@,
            holding_registers: self.holding_registers@,
        }
    }
}

impl Default for ImageSnapshot {
    fn default() -> (r: Self)
        ensures
            r@ == empty_image(),
    {
        ImageSnapshot {
            coils: HashMap::new(),
            discrete_inputs: HashMap::new(),
            input_registers: HashMap::new(),
            holding_registers: HashMap::new(),
        }
    }
}

/// Takes a snapshot of the values in an image.
pub fn snapshot(image: &SharedImage) -> (r: ImageSnapshot)
    ensures
        r@ == image@,
{
    snapshot_from(image)
}

/// Takes a snapshot of the values in an image.
pub fn snapshot_from(img: &DataImage) -> (r: ImageSnapshot)
    ensures
        r@ == img@,
{
    ImageSnapshot {
        coils: img.coils.clone(),
        discrete_inputs: img.discrete_inputs.clone(),
        input_registers: img.input_registers.clone(),
        holding_registers: img.holding_registers.clone(),
    }
}

/// A request to one unit leaves every other unit as it was, and configures none.
pub proof fn law_units_are_isolated(
    units: Map<u8, ImageModel>,
    unit_id: u8,
    pdu: Seq<u8>,
    other: u8,
)
    ensures
        units_after(units, unit_id, pdu).contains_key(other) == units.contains_key(other),
        other != unit_id && units.contains_key(other) ==> units_after(units, unit_id, pdu)[other]
            == units[other],
        units_after(units, unit_id, pdu).dom() == units.dom(),
{
    assert(units_after(units, unit_id, pdu).dom() =~= units.dom());
}

/// A unit that is not configured is answered with the gateway exception under MBAP
/// framing and not at all under RTU framing; either way nothing changes.
pub proof fn law_unknown_unit(units: Map<u8, ImageModel>, unit_id: u8, pdu: Seq<u8>)
    requires
        !units.contains_key(unit_id),
    ensures
        gateway_response(units, unit_id, pdu) == seq![
            request_code(pdu) | 0x80,
            exception::GATEWAY_TARGET_FAILED,
        ],
        response(units, unit_id, pdu) is None,
        written_unit(units, unit_id, pdu) is None,
        units_after(units, unit_id, pdu) == units,
        pdu.len() >= 2 ==> rtu_response(units, rtu_adu(unit_id, pdu)) is None,
{
    if pdu.len() >= 2 {
        crate::framing::law_rtu_roundtrip(unit_id, pdu);
    }
}

/// A refused request is answered with its function code, the top bit set, and the
/// exception code; nothing changes and no editor is told.
pub proof fn law_refused_request(units: Map<u8, ImageModel>, unit_id: u8, pdu: Seq<u8>, code: u8)
    requires
        units.contains_key(unit_id),
        reply(units[unit_id], pdu) == Err::<Seq<u8>, u8>(code),
    ensures
        response(units, unit_id, pdu) == Some(seq![request_code(pdu) | 0x80, code]),
        written_unit(units, unit_id, pdu) is None,
        units_after(units, unit_id, pdu) == units,
{
    assert(units_after(units, unit_id, pdu) =~= units);
}

/// An editor is told of a request exactly where it may have changed an image: a
/// request that tells none leaves the units as they were.
pub proof fn law_untold_request_changes_nothing(
    units: Map<u8, ImageModel>,
    unit_id: u8,
    pdu: Seq<u8>,
)
    requires
        written_unit(units, unit_id, pdu) is None,
    ensures
        units_after(units, unit_id, pdu) == units,
{
    assert(units_after(units, unit_id, pdu) =~= units);
}

/// The read of what a write request wrote.
pub open spec fn read_of_write(pdu: Seq<u8>) -> Seq<u8> {
    read_pdu(
        if pdu[0] == fc::WRITE_SINGLE_COIL || pdu[0] == fc::WRITE_MULTIPLE_COILS {
            fc::READ_COILS
        } else {
            fc::READ_HOLDING_REGISTERS
        },
        pdu_addr(pdu),
        if pdu[0] == fc::WRITE_SINGLE_COIL || pdu[0] == fc::WRITE_SINGLE_REGISTER {
            1
        } else {
            pdu_count(pdu)
        },
    )
}

/// The response PDU with what a write request wrote: the data of the request, for coils
/// as packed bits.
pub open spec fn written_back(pdu: Seq<u8>) -> Seq<u8> {
    if pdu[0] == fc::WRITE_SINGLE_COIL {
        seq![
            fc::READ_COILS,
            1,
            if word_at(pdu, 3) == 0xFF00 {
                1
            } else {
                0
            },
        ]
    } else if pdu[0] == fc::WRITE_MULTIPLE_COILS {
        seq![fc::READ_COILS, pdu[5]] + packed(unpacked(pdu, 6, pdu_count(pdu) as nat))
    } else if pdu[0] == fc::WRITE_SINGLE_REGISTER {
        seq![fc::READ_HOLDING_REGISTERS, 2, pdu[3], pdu[4]]
    } else {
        seq![fc::READ_HOLDING_REGISTERS, pdu[5]] + pdu.subrange(6, 6 + pdu[5])
    }
}

/// Coils and registers that a master has written over any server, by themselves or
/// together, are read back as written over any server, the MBAP framing and the RTU
/// framing alike.
pub proof fn law_writes_are_shared(units: Map<u8, ImageModel>, unit_id: u8, pdu: Seq<u8>)
    requires
        units.contains_key(unit_id),
        is_slave_write(pdu),
        reply(units[unit_id], pdu) is Ok,
    ensures
        ({
            let next = units_after(units, unit_id, pdu);
            let read = read_of_write(pdu);
            let data = written_back(pdu);
            &&& gateway_response(next, unit_id, read) == data
            &&& rtu_response(next, rtu_adu(unit_id, read)) == Some(rtu_adu(unit_id, data))
            &&& written_unit(units, unit_id, pdu) == Some(unit_id)
        }),
{
    let img = units[unit_id];
    if pdu[0] == fc::WRITE_SINGLE_COIL {
        law_written_coil_reads_back(img, pdu);
    } else if pdu[0] == fc::WRITE_MULTIPLE_COILS {
        law_written_coils_read_back(img, pdu);
    } else if pdu[0] == fc::WRITE_SINGLE_REGISTER {
        law_written_register_reads_back(img, pdu);
    } else {
        law_written_registers_read_back(img, pdu);
    }
    crate::framing::law_rtu_roundtrip(unit_id, read_of_write(pdu));
}

/// The framing makes no difference to what a request does: for a configured unit the
/// MBAP servers and the RTU servers answer with the same response PDU, leave the same
/// units behind and tell the same editor.
pub proof fn law_framings_agree(units: Map<u8, ImageModel>, unit_id: u8, pdu: Seq<u8>)
    requires
        units.contains_key(unit_id),
        pdu.len() >= 2,
    ensures
        ({
            let frame = rtu_adu(unit_id, pdu);
            &&& rtu_response(units, frame) == Some(
                rtu_adu(unit_id, gateway_response(units, unit_id, pdu)),
            )
            &&& rtu_units_after(units, frame) == units_after(units, unit_id, pdu)
            &&& rtu_written_unit(units, frame) == written_unit(units, unit_id, pdu)
        }),
{
    crate::framing::law_rtu_roundtrip(unit_id, pdu);
}

/// A refusal is two bytes: the function of the request with its top bit set, zero standing
/// for a missing one, and the exception code.
pub proof fn law_refusal_layout(pdu: Seq<u8>, code: u8)
    ensures
        refusal(pdu, code).len() == 2,
        refusal(pdu, code)[1] == code,
        pdu.len() == 0 ==> refusal(pdu, code)[0] == 0x80,
        pdu.len() > 0 && pdu[0] < 0x80 ==> refusal(pdu, code)[0] == pdu[0] + 0x80,
        pdu.len() > 0 && pdu[0] >= 0x80 ==> refusal(pdu, code)[0] == pdu[0],
{
    let c = request_code(pdu);
    assert(0u8 | 0x80 == 0x80) by (bit_vector);
    assert(c < 0x80 ==> c | 0x80 == c + 0x80) by (bit_vector);
    assert(c >= 0x80 ==> c | 0x80 == c) by (bit_vector);
}

/// A configured unit answers every request out of its own image: with the reply of the
/// image, or with a refusal that carries its code. Its image changes as the request says,
/// and its editor is told exactly of the writes that were carried out.
pub proof fn law_unit_answers(units: Map<u8, ImageModel>, unit_id: u8, pdu: Seq<u8>)
    requires
        units.contains_key(unit_id),
    ensures
        ({
            let img = units[unit_id];
            let told = reply(img, pdu) is Ok && (pdu[0] == 0x05 || pdu[0] == 0x06 || pdu[0] == 0x0F
                || pdu[0] == 0x10);
            &&& reply(img, pdu) matches Ok(s) ==> gateway_response(units, unit_id, pdu) == s
            &&& reply(img, pdu) matches Err(code) ==> gateway_response(units, unit_id, pdu)
                == refusal(pdu, code)
            &&& response(units, unit_id, pdu) == Some(gateway_response(units, unit_id, pdu))
            &&& units_after(units, unit_id, pdu) == units.insert(unit_id, after(img, pdu))
            &&& written_unit(units, unit_id, pdu) == (if told {
                Some(unit_id)
            } else {
                None::<u8>
            })
        }),
{
}

/// Over MBAP framing a unit that is not configured is answered with exception 0x0B.
pub proof fn law_missing_unit_answer(units: Map<u8, ImageModel>, unit_id: u8, pdu: Seq<u8>)
    requires
        !units.contains_key(unit_id),
    ensures
        gateway_response(units, unit_id, pdu) == refusal(pdu, 0x0B),
        units_after(units, unit_id, pdu) == units,
        written_unit(units, unit_id, pdu) is None,
        response(units, unit_id, pdu) is None,
{
}

/// An RTU server answers a sound frame for its unit with a frame from that unit, and does
/// as the PDU in it says. A broken frame is as if it had not come.
pub proof fn law_rtu_server(units: Map<u8, ImageModel>, frame: Seq<u8>)
    ensures
        rtu_parts(frame) is Err ==> rtu_response(units, frame) is None && rtu_units_after(
            units,
            frame,
        ) == units && rtu_written_unit(units, frame) is None,
        rtu_parts(frame) matches Ok(p) ==> {
            &&& units.contains_key(p.0) ==> rtu_response(units, frame) == Some(
                rtu_adu(p.0, gateway_response(units, p.0, p.1)),
            )
            &&& !units.contains_key(p.0) ==> rtu_response(units, frame) is None
            &&& rtu_units_after(units, frame) == units_after(units, p.0, p.1)
            &&& rtu_written_unit(units, frame) == written_unit(units, p.0, p.1)
        },
{
}

/// A table of units holds what the images in it hold, a snapshot what its four tables hold.
pub proof fn law_units_hold_images(units: Map<u8, DataImage>, unit_id: u8, s: ImageSnapshot)
    ensures
        models(units).contains_key(unit_id) == units.contains_key(unit_id),
        units.contains_key(unit_id) ==> models(units)[unit_id] == units[unit_id]@,
        s@.coils == s.coils@ && s@.discrete_inputs == s.discrete_inputs@,
        s@.input_registers == s.input_registers@ && s@.holding_registers == s.holding_registers@,
{
}

/// On a TCP stream an RTU frame ends with twenty milliseconds of silence.
pub proof fn law_stream_gap()
    ensures
        RTU_STREAM_GAP_MS == 20,
{
}

} // verus!
