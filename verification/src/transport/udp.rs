//! UDP: one datagram per request and one per response, with MBAP or RTU framing.

use vstd::prelude::*;
use crate::error::{other, ErrorModel, ModbusError};
use crate::framing::{encode_rtu, encode_tcp, parse_rtu, parse_tcp, rtu_adu, rtu_parts, tcp_adu, tcp_parts};
use crate::transport::{accept, accepted, is_outcome};
use crate::wire::{copy_range, word_at};

verus! {

/// Framing on a UDP socket.
#[derive(Debug, Clone, Copy, PartialEq, Eq, Structural)]
pub enum UdpMode {
    /// MBAP header and PDU.
    Tcp,
    /// One RTU frame per datagram.
    Rtu,
}

/// What a datagram means to the request of transaction `tid`: nothing where it is
/// empty, holds no MBAP frame or answers another transaction.
pub open spec fn mbap_outcome(datagram: Seq<u8>, tid: u16) -> Option<
    Result<(Seq<u8>, Seq<u8>), ErrorModel>,
> {
    match tcp_parts(datagram) {
        Err(_) => None,
        Ok(p) => if p.0 != tid {
            None
        } else {
            Some(accepted(datagram, p.2))
        },
    }
}

/// What a datagram means to a request to `unit_id`: nothing where it holds no sound
/// RTU frame or comes from another unit.
pub open spec fn rtu_datagram_outcome(datagram: Seq<u8>, unit_id: u8) -> Option<
    Result<(Seq<u8>, Seq<u8>), ErrorModel>,
> {
    match rtu_parts(datagram) {
        Err(_) => None,
        Ok(p) => if p.0 != unit_id {
            None
        } else {
            Some(accepted(rtu_adu(p.0, p.1), p.1))
        },
    }
}

/// The protocol state of a UDP channel: the next transaction id.
#[derive(Debug)]
pub struct UdpLink {
    transaction: u16,
}

impl UdpLink {
    /// The transaction id of the next request.
    pub closed spec fn next_tid(&self) -> u16 {
        self.transaction
    }

    /// A fresh channel.
    pub fn new() -> (r: Self)
        ensures
            r.next_tid() == 0,
    {
        UdpLink { transaction: 0 }
    }

    /// Begins a request with MBAP framing: its transaction id and the datagram to
    /// send. Transaction ids count up and wrap around.
    pub fn begin(&mut self, unit_id: u8, pdu: &[u8]) -> (r: (u16, Vec<u8>))
        requires
            pdu@.len() + 7 <= usize::MAX,
        ensures
            r.0 == old(self).next_tid(),
            r.1@ == tcp_adu(unit_id, r.0, pdu@),
            final(self).next_tid() == old(self).next_tid().wrapping_add(1),
    {
        let tid: u16 = self.transaction;
        self.transaction = self.transaction.wrapping_add(1);
        (tid, encode_tcp(unit_id, tid, pdu))
    }
}

/// What a datagram means to the request of transaction `tid`; `None` where the next
/// one has to be awaited. The frame received is the whole datagram.
pub fn mbap_reply(datagram: &[u8], tid: u16) -> (r: Option<
    Result<(Vec<u8>, Vec<u8>), ModbusError>,
>)
    ensures
        match mbap_outcome(datagram@, tid) {
            None => r is None,
            Some(want) => r matches Some(o) && is_outcome(o, want),
        },
{
    match parse_tcp(datagram) {
        Err(_) => None,
        Ok(p) => {
            if p.0 != tid {
                return None;
            }
            let rx = copy_range(datagram, 0, datagram.len());
            assert(rx@ =~= datagram@);
            Some(accept(rx, p.2))
        },
    }
}

/// What a datagram means to a request to `unit_id` with RTU framing; `None` where the
/// next one has to be awaited.
pub fn rtu_reply(datagram: &[u8], unit_id: u8) -> (r: Option<
    Result<(Vec<u8>, Vec<u8>), ModbusError>,
>)
    ensures
        match rtu_datagram_outcome(datagram@, unit_id) {
            None => r is None,
            Some(want) => r matches Some(o) && is_outcome(o, want),
        },
{
    match parse_rtu(datagram) {
        Err(_) => None,
        Ok(p) => {
            if p.0 != unit_id {
                return None;
            }
            let rx = encode_rtu(p.0, p.1.as_slice());
            Some(accept(rx, p.1))
        },
    }
}

/// What a read of the socket brought: a datagram, an error, or nothing before the
/// request's deadline.
#[derive(Debug)]
pub enum UdpRead {
    Data(Vec<u8>),
    Failed(String),
    TimedOut,
}

/// What a read of the socket means to the request of transaction `tid`; `None` where the
/// next one has to be awaited. A failed read ends the request, and so does the deadline.
pub fn on_mbap_read(read: &UdpRead, tid: u16) -> (r: Option<
    Result<(Vec<u8>, Vec<u8>), ModbusError>,
>)
    ensures
        match *read {
            UdpRead::Data(d) => match mbap_outcome(d@, tid) {
                None => r is None,
                Some(want) => r matches Some(o) && is_outcome(o, want),
            },
            UdpRead::Failed(text) => r matches Some(Err(e)) && e@ == ErrorModel::Io(text@),
            UdpRead::TimedOut => r matches Some(Err(e)) && e@ == ErrorModel::Other(
                "read body timeout"@,
            ),
        },
{
    match read {
        UdpRead::Data(d) => mbap_reply(d.as_slice(), tid),
        UdpRead::Failed(text) => Some(Err(ModbusError::Io(text.clone()))),
        UdpRead::TimedOut => Some(Err(other("read body timeout"))),
    }
}

/// What a read of the socket means to a request to `unit_id` with RTU framing; `None`
/// where the next one has to be awaited. A failed read ends the request, and so does the
/// deadline.
pub fn on_rtu_read(read: &UdpRead, unit_id: u8) -> (r: Option<
    Result<(Vec<u8>, Vec<u8>), ModbusError>,
>)
    ensures
        match *read {
            UdpRead::Data(d) => match rtu_datagram_outcome(d@, unit_id) {
                None => r is None,
                Some(want) => r matches Some(o) && is_outcome(o, want),
            },
            UdpRead::Failed(text) => r matches Some(Err(e)) && e@ == ErrorModel::Io(text@),
            UdpRead::TimedOut => r matches Some(Err(e)) && e@ == ErrorModel::Other(
                "read body timeout"@,
            ),
        },
{
    match read {
        UdpRead::Data(d) => rtu_reply(d.as_slice(), unit_id),
        UdpRead::Failed(text) => Some(Err(ModbusError::Io(text.clone()))),
        UdpRead::TimedOut => Some(Err(other("read body timeout"))),
    }
}

/// A frame that is not sound, the empty datagram among them, is passed over.
pub proof fn law_unsound_datagrams_are_ignored(datagram: Seq<u8>, tid: u16, unit_id: u8)
    ensures
        tcp_parts(datagram) is Err ==> mbap_outcome(datagram, tid) is None,
        rtu_parts(datagram) is Err ==> rtu_datagram_outcome(datagram, unit_id) is None,
        datagram.len() == 0 ==> mbap_outcome(datagram, tid) is None && rtu_datagram_outcome(
            datagram,
            unit_id,
        ) is None,
        datagram.len() >= 7 && word_at(datagram, 4) == 0 ==> mbap_outcome(datagram, tid) is None,
{
}

/// The answer to a request is recognised by its transaction id, a datagram of another
/// transaction is passed over.
pub proof fn law_transactions_are_matched(unit_id: u8, answered: u16, pdu: Seq<u8>, tid: u16)
    requires
        1 + pdu.len() <= 65535,
    ensures
        mbap_outcome(tcp_adu(unit_id, answered, pdu), tid) == (if answered == tid {
            Some(accepted(tcp_adu(unit_id, answered, pdu), pdu))
        } else {
            None
        }),
{
    crate::framing::law_tcp_roundtrip(unit_id, answered, pdu, Seq::empty());
    assert(tcp_adu(unit_id, answered, pdu) + Seq::<u8>::empty() =~= tcp_adu(
        unit_id,
        answered,
        pdu,
    ));
}

/// With RTU framing the answer is recognised by its unit id, a datagram of another
/// unit is passed over.
pub proof fn law_units_are_matched(answered: u8, pdu: Seq<u8>, unit_id: u8)
    requires
        pdu.len() >= 2,
    ensures
        rtu_datagram_outcome(rtu_adu(answered, pdu), unit_id) == (if answered == unit_id {
            Some(accepted(rtu_adu(answered, pdu), pdu))
        } else {
            None
        }),
{
    crate::framing::law_rtu_roundtrip(answered, pdu);
}

/// A sound frame of the request's transaction is its answer, and the whole datagram the
/// frame that was received; any other datagram is none.
pub proof fn law_datagram_verdicts(datagram: Seq<u8>, tid: u16, unit_id: u8)
    ensures
        mbap_outcome(datagram, tid) is Some <==> (tcp_parts(datagram) is Ok && tcp_parts(
            datagram,
        )->Ok_0.0 == tid),
        mbap_outcome(datagram, tid) is Some ==> mbap_outcome(datagram, tid) == Some(
            accepted(datagram, tcp_parts(datagram)->Ok_0.2),
        ),
        rtu_datagram_outcome(datagram, unit_id) is Some <==> (rtu_parts(datagram) is Ok
            && rtu_parts(datagram)->Ok_0.0 == unit_id),
        rtu_datagram_outcome(datagram, unit_id) is Some ==> rtu_datagram_outcome(datagram, unit_id)
            == Some(crate::transport::rtu_outcome(datagram)),
{
    crate::framing::law_rtu_verdicts(datagram);
}

} // verus!
