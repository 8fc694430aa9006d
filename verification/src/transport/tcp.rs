//! TCP: a byte stream from which MBAP frames are cut out, or which carries RTU frames.

use vstd::prelude::*;
use crate::error::{other, ErrorModel, ModbusError};
use crate::framing::{encode_tcp, tcp_adu, tcp_header, MbapHeader};
use crate::transport::{accept, accepted, is_outcome};
use crate::wire::{copy_range, make_word, push_bytes, same_bytes, word_at};
use vstd::string::*;

verus! {

/// Framing on a TCP connection.
#[derive(Debug, Clone, Copy, PartialEq, Eq, Structural)]
pub enum TcpMode {
    /// MBAP header and PDU.
    Tcp,
    /// RTU frames over the stream, as serial gateways send them.
    Rtu,
}

/// Whether a complete frame, with `more` bytes behind it, answers the request `tx`
/// of transaction `tid`: protocol id zero and the transaction id match. A frame
/// that is the request itself is taken for the echo of a gateway where at least a header
/// follows it, and for the answer otherwise, since some answers equal their request.
pub open spec fn is_wanted(frame: Seq<u8>, more: int, tx: Seq<u8>, tid: u16) -> bool {
    &&& word_at(frame, 2) == 0
    &&& word_at(frame, 0) == tid
    &&& !(frame == tx && more >= 7)
}

/// Whether a header may announce a body of `len` bytes.
pub open spec fn plausible(len: u16) -> bool {
    1 <= len <= 254
}

/// The first wanted frame of a stream, and what is kept of the stream. An implausible
/// length drops one byte, a frame that is not wanted is dropped whole, and an
/// incomplete frame is kept until more comes in.
pub open spec fn taken(buf: Seq<u8>, tx: Seq<u8>, tid: u16) -> (Option<Seq<u8>>, Seq<u8>)
    decreases buf.len(),
{
    if buf.len() < 7 {
        (None, buf)
    } else if !plausible(word_at(buf, 4)) {
        taken(buf.skip(1), tx, tid)
    } else if buf.len() < 6 + word_at(buf, 4) {
        (None, buf)
    } else {
        let total = 6 + word_at(buf, 4);
        let frame = buf.take(total);
        let rest = buf.skip(total);
        if is_wanted(frame, rest.len() as int, tx, tid) {
            (Some(frame), rest)
        } else {
            taken(rest, tx, tid)
        }
    }
}

/// What a read of the connection brought.
pub enum TcpRead {
    Data(Vec<u8>),
    Failed(String),
    TimedOut,
}

/// The protocol state of a connection: the next transaction id and the bytes that
/// have come in and are not consumed.
#[derive(Debug)]
pub struct TcpLink {
    transaction: u16,
    rx_buf: Vec<u8>,
}

impl TcpLink {
    /// The transaction id of the next request.
    pub closed spec fn next_tid(&self) -> u16 {
        self.transaction
    }

    /// The bytes that are not consumed.
    pub closed spec fn pending(&self) -> Seq<u8> {
        self.rx_buf@
    }

    /// A fresh connection.
    pub fn new() -> (r: Self)
        ensures
            r.next_tid() == 0,
            r.pending() == Seq::<u8>::empty(),
    {
        TcpLink { transaction: 0, rx_buf: Vec::new() }
    }

    /// Begins a request: its transaction id and the frame to send. Transaction ids
    /// count up and wrap around.
    pub fn begin(&mut self, unit_id: u8, pdu: &[u8]) -> (r: (u16, Vec<u8>))
        requires
            pdu@.len() + 7 <= usize::MAX,
        ensures
            r.0 == old(self).next_tid(),
            r.1@ == tcp_adu(unit_id, r.0, pdu@),
            final(self).next_tid() == old(self).next_tid().wrapping_add(1),
            final(self).pending() == old(self).pending(),
    {
        let tid: u16 = self.transaction;
        self.transaction = self.transaction.wrapping_add(1);
        (tid, encode_tcp(unit_id, tid, pdu))
    }

    /// Cuts the frame that answers the request out of what has come in; returns the
    /// frame and the PDU in it.
    pub fn take_frame(&mut self, tx_adu: &[u8], want_tid: u16) -> (r: Option<(Vec<u8>, Vec<u8>)>)
        ensures
            final(self).next_tid() == old(self).next_tid(),
            final(self).pending() == taken(old(self).pending(), tx_adu@, want_tid).1,
            match r {
                Some(p) => taken(old(self).pending(), tx_adu@, want_tid).0 == Some(p.0@) && p.1@
                    == p.0@.skip(7),
                None => taken(old(self).pending(), tx_adu@, want_tid).0 is None,
            },
    {
        let n: usize = self.rx_buf.len();
        let ghost all = self.rx_buf@;
        let mut i: usize = 0;
        assert(all.skip(0) =~= all);
        while n - i >= 7
            invariant
                i <= n,
                n == all.len(),
                self.rx_buf@ == all,
                all == old(self).pending(),
                self.transaction == old(self).transaction,
                taken(all, tx_adu@, want_tid) == taken(all.skip(i as int), tx_adu@, want_tid),
            ensures
                taken(all.skip(i as int), tx_adu@, want_tid) == (None::<Seq<u8>>, all.skip(i as int)),
            decreases n - i,
        {
            let ghost rest = all.skip(i as int);
            let len: u16 = make_word(self.rx_buf[i + 4], self.rx_buf[i + 5]);
            assert(word_at(rest, 4) == len);
            if !(1 <= len && len <= 254) {
                assert(rest.skip(1) =~= all.skip(i + 1));
                i += 1;
                continue;
            }
            let total: usize = 6 + len as usize;
            if n - i < total {
                break;
            }
            let proto: u16 = make_word(self.rx_buf[i + 2], self.rx_buf[i + 3]);
            let tid_rx: u16 = make_word(self.rx_buf[i], self.rx_buf[i + 1]);
            let frame = copy_range(self.rx_buf.as_slice(), i, i + total);
            proof {
                assert(frame@ =~= rest.take(total as int));
                assert(rest.skip(total as int) =~= all.skip(i + total));
                assert(word_at(frame@, 0) == tid_rx && word_at(frame@, 2) == proto);
            }
            if proto == 0 && tid_rx == want_tid {
                let pdu = copy_range(frame.as_slice(), 7, total);
                assert(pdu@ =~= frame@.skip(7));
                let echo: bool = same_bytes(frame.as_slice(), tx_adu) && n - i - total >= 7;
                if !echo {
                    self.rx_buf = copy_range(self.rx_buf.as_slice(), i + total, n);
                    assert(self.rx_buf@ =~= all.skip(i + total));
                    return Some((frame, pdu));
                }
            }
            i += total;
        }
        if i > 0 {
            self.rx_buf = copy_range(self.rx_buf.as_slice(), i, n);
        }
        assert(self.rx_buf@ =~= all.skip(i as int));
        None
    }

    /// Looks for the answer to a request in what has come in; `None` as long as there
    /// is none.
    pub fn poll(&mut self, tx_adu: &[u8], want_tid: u16) -> (r: Option<
        Result<(Vec<u8>, Vec<u8>), ModbusError>,
    >)
        ensures
            final(self).next_tid() == old(self).next_tid(),
            final(self).pending() == taken(old(self).pending(), tx_adu@, want_tid).1,
            match taken(old(self).pending(), tx_adu@, want_tid).0 {
                None => r is None,
                Some(f) => r matches Some(o) && is_outcome(o, accepted(f, f.skip(7))),
            },
    {
        match self.take_frame(tx_adu, want_tid) {
            None => None,
            Some(p) => Some(accept(p.0, p.1)),
        }
    }

    /// Takes in what a read of the connection brought. Anything but data ends the
    /// request with an error, and so does a read of no bytes: the peer has closed.
    pub fn on_read(&mut self, read: TcpRead) -> (r: Result<(), ModbusError>)
        ensures
            final(self).next_tid() == old(self).next_tid(),
            match read {
                TcpRead::Data(d) => {
                    &&& final(self).pending() == old(self).pending() + d@
                    &&& d@.len() > 0 ==> r is Ok
                    &&& d@.len() == 0 ==> (r matches Err(e) && e@ == ErrorModel::Other(
                        "connection closed by peer"@,
                    ))
                },
                TcpRead::Failed(text) => {
                    &&& final(self).pending() == old(self).pending()
                    &&& r matches Err(e) && e@ == ErrorModel::Other("read error: "@ + text@)
                },
                TcpRead::TimedOut => {
                    &&& final(self).pending() == old(self).pending()
                    &&& r matches Err(e) && e@ == ErrorModel::Other("read body timeout"@)
                },
            },
    {
        match read {
            TcpRead::Data(d) => {
                if d.len() == 0 {
                    assert(self.rx_buf@ + d@ =~= self.rx_buf@);
                    return Err(other("connection closed by peer"));
                }
                push_bytes(&mut self.rx_buf, d.as_slice());
                Ok(())
            },
            TcpRead::Failed(text) => {
                let mut m = "read error: ".to_owned();
                m.append(text.as_str());
                Err(ModbusError::Other(m))
            },
            TcpRead::TimedOut => Err(other("read body timeout")),
        }
    }
}

/// How long one read may block on a connection that carries RTU frames, in
/// nanoseconds: the inter-frame gap, but no less than twenty milliseconds.
pub fn rtu_probe_ns(inter_frame_ns: u64) -> (r: u64)
    ensures
        r == (if inter_frame_ns < 20_000_000 {
            20_000_000
        } else {
            inter_frame_ns
        }),
{
    if inter_frame_ns < 20_000_000 {
        20_000_000
    } else {
        inter_frame_ns
    }
}

/// Whether an RTU response over TCP is over, no byte being there to read for
/// `silent_ns` nanoseconds since the last byte, or since the request.
pub fn rtu_stream_over(silent_ns: u64, inter_frame_ns: u64, timeout_ns: u64) -> (r: bool)
    ensures
        r == (silent_ns >= inter_frame_ns || silent_ns > timeout_ns),
{
    silent_ns >= inter_frame_ns || silent_ns > timeout_ns
}

/// What is taken is a whole frame of the stream, of the wanted transaction; what is
/// kept is the end of the stream behind it, and otherwise still an end of the stream.
pub proof fn law_taken_frame(buf: Seq<u8>, tx: Seq<u8>, tid: u16)
    ensures
        ({
            let (frame, rest) = taken(buf, tx, tid);
            let kept = rest.len() as int;
            &&& kept <= buf.len()
            &&& rest == buf.skip(buf.len() - kept)
            &&& frame matches Some(f) ==> {
                &&& f.len() >= 7
                &&& f.len() == 6 + word_at(f, 4)
                &&& f.len() + kept <= buf.len()
                &&& f == buf.subrange(buf.len() - kept - f.len(), buf.len() - kept)
                &&& word_at(f, 0) == tid
                &&& word_at(f, 2) == 0
            }
        }),
    decreases buf.len(),
{
    if buf.len() < 7 {
        assert(buf.skip(0) =~= buf);
    } else if !plausible(word_at(buf, 4)) {
        let tail = buf.skip(1);
        law_taken_frame(tail, tx, tid);
        lemma_shift(buf, 1, taken(tail, tx, tid).1);
        if taken(tail, tx, tid).0 is Some {
            lemma_shift_frame(buf, 1, taken(tail, tx, tid).0->0, taken(tail, tx, tid).1);
        }
    } else if buf.len() < 6 + word_at(buf, 4) {
        assert(buf.skip(0) =~= buf);
    } else {
        let total = 6 + word_at(buf, 4);
        let frame = buf.take(total);
        let tail = buf.skip(total);
        assert(word_at(frame, 4) == word_at(buf, 4));
        if is_wanted(frame, tail.len() as int, tx, tid) {
            assert(frame =~= buf.subrange(0, total));
        } else {
            law_taken_frame(tail, tx, tid);
            lemma_shift(buf, total, taken(tail, tx, tid).1);
            if taken(tail, tx, tid).0 is Some {
                lemma_shift_frame(buf, total, taken(tail, tx, tid).0->0, taken(tail, tx, tid).1);
            }
        }
    }
}

proof fn lemma_shift(buf: Seq<u8>, n: int, rest: Seq<u8>)
    requires
        0 <= n <= buf.len(),
        rest.len() <= buf.len() - n,
        rest == buf.skip(n).skip(buf.skip(n).len() - rest.len()),
    ensures
        rest == buf.skip(buf.len() - rest.len()),
{
    assert(rest =~= buf.skip(buf.len() - rest.len()));
}

proof fn lemma_shift_frame(buf: Seq<u8>, n: int, f: Seq<u8>, rest: Seq<u8>)
    requires
        0 <= n <= buf.len(),
        f.len() + rest.len() <= buf.len() - n,
        f == buf.skip(n).subrange(
            buf.skip(n).len() - rest.len() - f.len(),
            buf.skip(n).len() - rest.len(),
        ),
    ensures
        f == buf.subrange(buf.len() - rest.len() - f.len(), buf.len() - rest.len()),
{
    assert(f =~= buf.subrange(buf.len() - rest.len() - f.len(), buf.len() - rest.len()));
}

/// The frame of an answer that stands at the front of the stream is taken, and what
/// comes behind it is kept, unless it is the request itself with a header behind it.
pub proof fn law_answer_is_taken(
    unit_id: u8,
    tid: u16,
    pdu: Seq<u8>,
    rest: Seq<u8>,
    tx: Seq<u8>,
)
    requires
        pdu.len() <= 253,
        tcp_adu(unit_id, tid, pdu) != tx || rest.len() < 7,
    ensures
        taken(tcp_adu(unit_id, tid, pdu) + rest, tx, tid) == (
            Some(tcp_adu(unit_id, tid, pdu)),
            rest,
        ),
        tcp_adu(unit_id, tid, pdu).skip(7) == pdu,
{
    lemma_front_frame(unit_id, tid, pdu, rest);
    assert(tcp_adu(unit_id, tid, pdu).skip(7) =~= pdu);
}

/// A frame of another transaction, and the echo of the request with a header behind
/// it, are passed over.
pub proof fn law_stray_frame_is_dropped(
    unit_id: u8,
    other_tid: u16,
    pdu: Seq<u8>,
    rest: Seq<u8>,
    tx: Seq<u8>,
    tid: u16,
)
    requires
        pdu.len() <= 253,
        other_tid != tid || (tcp_adu(unit_id, other_tid, pdu) == tx && rest.len() >= 7),
    ensures
        taken(tcp_adu(unit_id, other_tid, pdu) + rest, tx, tid) == taken(rest, tx, tid),
{
    lemma_front_frame(unit_id, other_tid, pdu, rest);
}

/// A frame that is not complete yet is kept to the last byte.
pub proof fn law_partial_frame_is_kept(
    unit_id: u8,
    tid: u16,
    pdu: Seq<u8>,
    n: int,
    tx: Seq<u8>,
    want: u16,
)
    requires
        pdu.len() <= 253,
        0 <= n < pdu.len() + 7,
    ensures
        taken(tcp_adu(unit_id, tid, pdu).take(n), tx, want) == (
            None::<Seq<u8>>,
            tcp_adu(unit_id, tid, pdu).take(n),
        ),
{
    let whole = tcp_adu(unit_id, tid, pdu);
    lemma_front_frame(unit_id, tid, pdu, Seq::empty());
    assert(whole + Seq::<u8>::empty() =~= whole);
    if n >= 7 {
        assert(word_at(whole.take(n), 4) == word_at(whole, 4));
    }
}

proof fn lemma_front_frame(unit_id: u8, tid: u16, pdu: Seq<u8>, rest: Seq<u8>)
    requires
        pdu.len() <= 253,
    ensures
        ({
            let frame = tcp_adu(unit_id, tid, pdu);
            let s = frame + rest;
            &&& frame.len() == 7 + pdu.len()
            &&& word_at(s, 4) == 1 + pdu.len()
            &&& s.take(frame.len() as int) == frame
            &&& s.skip(frame.len() as int) == rest
            &&& word_at(frame, 0) == tid
            &&& word_at(frame, 2) == 0
        }),
{
    let frame = tcp_adu(unit_id, tid, pdu);
    let s = frame + rest;
    let h = tcp_header(unit_id, tid, pdu.len());
    crate::framing::law_mbap_roundtrip(h, pdu);
    assert(MbapHeader::of(frame) == h);
    assert(word_at(s, 4) == word_at(frame, 4));
    assert(s.take(frame.len() as int) =~= frame);
    assert(s.skip(frame.len() as int) =~= rest);
}

/// Fewer bytes than a header are kept. A header that announces nothing, or more than 254
/// bytes, is no header: one byte is dropped. Else the frame is awaited, and then taken or
/// passed over; it is passed over for another protocol, for another transaction, and as
/// the echo of the request where at least seven bytes follow.
pub proof fn law_stream_steps(buf: Seq<u8>, tx: Seq<u8>, tid: u16)
    ensures
        buf.len() < 7 ==> taken(buf, tx, tid) == (None::<Seq<u8>>, buf),
        buf.len() >= 7 ==> ({
            let n = 256 * buf[4] + buf[5];
            let frame = buf.take(n + 6);
            let rest = buf.skip(n + 6);
            if n == 0 || n > 254 {
                taken(buf, tx, tid) == taken(buf.skip(1), tx, tid)
            } else if buf.len() < n + 6 {
                taken(buf, tx, tid) == (None::<Seq<u8>>, buf)
            } else if buf[2] != 0 || buf[3] != 0 || 256 * buf[0] + buf[1] != tid || (frame == tx
                && buf.len() >= n + 13) {
                taken(buf, tx, tid) == taken(rest, tx, tid)
            } else {
                taken(buf, tx, tid) == (Some(frame), rest)
            }
        }),
{
}

} // verus!
