//! RTU on a serial line: line settings, and the timing of one exchange.

use vstd::prelude::*;
use crate::error::ModbusError;
use crate::framing::{encode_rtu, rtu_adu};
use crate::text::{lowered, same, to_ascii_lower};
use crate::transport::{rtu_outcome, rtu_response_of, Frame};

verus! {

/// Parity of a serial line.
#[derive(Debug, Clone, Copy, PartialEq, Eq, Structural)]
pub enum LineParity {
    Odd,
    Even,
    NoParity,
}

/// How a serial line is set up.
#[derive(Debug, Clone, Copy, PartialEq, Eq, Structural)]
pub struct LineSettings {
    /// Five to eight.
    pub data_bits: u8,
    /// One or two.
    pub stop_bits: u8,
    pub parity: LineParity,
}

/// The settings that a request for a line stands for: eight data bits, one stop bit
/// and no parity wherever it asks for something unknown.
pub open spec fn settings_for(data_bits: u8, stop_bits: u8, parity: Seq<char>) -> LineSettings {
    LineSettings {
        data_bits: if 5 <= data_bits <= 7 {
            data_bits
        } else {
            8
        },
        stop_bits: if stop_bits == 2 {
            2
        } else {
            1
        },
        parity: if lowered(parity) == "odd"@ {
            LineParity::Odd
        } else if lowered(parity) == "even"@ {
            LineParity::Even
        } else {
            LineParity::NoParity
        },
    }
}

/// The settings that a request for a line stands for.
pub fn line_settings(data_bits: u8, stop_bits: u8, parity: &str) -> (r: LineSettings)
    ensures
        r == settings_for(data_bits, stop_bits, parity@),
{
    let p = to_ascii_lower(parity);
    LineSettings {
        data_bits: if 5 <= data_bits && data_bits <= 7 {
            data_bits
        } else {
            8
        },
        stop_bits: if stop_bits == 2 {
            2
        } else {
            1
        },
        parity: if same(p.as_str(), "odd") {
            LineParity::Odd
        } else if same(p.as_str(), "even") {
            LineParity::Even
        } else {
            LineParity::NoParity
        },
    }
}

/// How long one read of the line may block, in milliseconds, within an exchange that
/// may take `timeout_ms` in all.
pub fn read_probe_ms(timeout_ms: u64) -> (r: u64)
    ensures
        r == (if timeout_ms < 20 {
            timeout_ms
        } else {
            20
        }),
{
    if timeout_ms < 20 {
        timeout_ms
    } else {
        20
    }
}

/// One request and its response on an RTU line. Times are nanoseconds since the
/// request was written.
///
/// As long as no byte has come, the exchange waits the whole timeout. From the first
/// byte on, it ends with a silence of the inter-frame gap, or with the timeout.
#[derive(Debug)]
pub struct RtuExchange {
    tx_adu: Vec<u8>,
    buf: Vec<u8>,
    last_ns: Option<u64>,
    inter_frame_ns: u64,
    timeout_ns: u64,
}

impl RtuExchange {
    /// The frame to send.
    pub closed spec fn sent(&self) -> Seq<u8> {
        self.tx_adu@
    }

    /// The bytes that have come in.
    pub closed spec fn gathered(&self) -> Seq<u8> {
        self.buf@
    }

    /// When the last byte came in.
    pub closed spec fn last(&self) -> Option<u64> {
        self.last_ns
    }

    pub closed spec fn gap(&self) -> u64 {
        self.inter_frame_ns
    }

    pub closed spec fn limit(&self) -> u64 {
        self.timeout_ns
    }

    /// Whether the exchange is over at `now`, no byte being there to read.
    pub open spec fn over_at(&self, now: u64) -> bool {
        match self.last() {
            None => now >= self.limit(),
            Some(l) => now - l >= self.gap() || now >= self.limit(),
        }
    }

    /// A byte is in exactly where there is a time for the last one.
    pub open spec fn wf(&self) -> bool {
        self.last() is Some <==> self.gathered().len() > 0
    }

    /// Prepares an exchange.
    pub fn new(unit_id: u8, pdu: &[u8], inter_frame_ns: u64, timeout_ns: u64) -> (r: Self)
        ensures
            r.wf(),
            r.sent() == rtu_adu(unit_id, pdu@),
            r.gathered() == Seq::<u8>::empty(),
            r.last() is None,
            r.gap() == inter_frame_ns,
            r.limit() == timeout_ns,
    {
        RtuExchange {
            tx_adu: encode_rtu(unit_id, pdu),
            buf: Vec::new(),
            last_ns: None,
            inter_frame_ns,
            timeout_ns,
        }
    }

    /// The frame to send.
    pub fn tx_adu(&self) -> (r: &Vec<u8>)
        ensures
            r@ == self.sent(),
    {
        &self.tx_adu
    }

    /// A byte has come in at `now_ns`.
    pub fn on_byte(&mut self, b: u8, now_ns: u64)
        requires
            old(self).wf(),
        ensures
            final(self).wf(),
            final(self).sent() == old(self).sent(),
            final(self).gathered() == old(self).gathered().push(b),
            final(self).last() == Some(now_ns),
            final(self).gap() == old(self).gap(),
            final(self).limit() == old(self).limit(),
    {
        self.buf.push(b);
        self.last_ns = Some(now_ns);
    }

    /// Whether the exchange is over at `now_ns`, no byte being there to read.
    pub fn is_over(&self, now_ns: u64) -> (r: bool)
        requires
            self.last() matches Some(l) ==> l <= now_ns,
        ensures
            r == self.over_at(now_ns),
    {
        match self.last_ns {
            None => now_ns >= self.timeout_ns,
            Some(l) => now_ns - l >= self.inter_frame_ns || now_ns >= self.timeout_ns,
        }
    }

    /// Makes a response of what has come in. The round-trip time ends with the last
    /// byte: the silence after it does not count.
    pub fn finish(self) -> (r: Result<Frame, ModbusError>)
        ensures
            match r {
                Ok(f) => {
                    &&& rtu_outcome(self.gathered()) is Ok
                    &&& (f.1@, f.3@) == rtu_outcome(self.gathered())->Ok_0
                    &&& f.0@ == self.sent()
                    &&& f.2 == (match self.last() {
                        Some(l) => l,
                        None => 0,
                    })
                },
                Err(e) => {
                    &&& rtu_outcome(self.gathered()) is Err
                    &&& e@ == rtu_outcome(self.gathered())->Err_0
                },
            },
    {
        let rtt: u64 = match self.last_ns {
            Some(l) => l,
            None => 0,
        };
        match rtu_response_of(self.buf.as_slice()) {
            Ok(p) => Ok((self.tx_adu, p.0, rtt, p.1)),
            Err(e) => Err(e),
        }
    }
}

/// Until the first byte has come, only the timeout ends an exchange: the inter-frame
/// gap does not.
pub proof fn law_first_byte_is_awaited(x: RtuExchange, now: u64)
    requires
        x.last() is None,
        now < x.limit(),
    ensures
        !x.over_at(now),
{
}

/// Whatever has come in, the timeout ends an exchange.
pub proof fn law_timeout_ends_exchange(x: RtuExchange, now: u64)
    requires
        now >= x.limit(),
    ensures
        x.over_at(now),
{
}

/// Five, six and seven data bits, two stop bits, and odd or even parity are set as asked
/// for, small and capital letters alike; else eight, one and none.
pub proof fn law_line_settings(data_bits: u8, stop_bits: u8, parity: Seq<char>)
    ensures
        ({
            let s = settings_for(data_bits, stop_bits, parity);
            &&& data_bits == 5 || data_bits == 6 || data_bits == 7 ==> s.data_bits == data_bits
            &&& data_bits < 5 || data_bits > 7 ==> s.data_bits == 8
            &&& stop_bits == 2 ==> s.stop_bits == 2
            &&& stop_bits != 2 ==> s.stop_bits == 1
            &&& s.parity is Odd <==> lowered(parity) == "odd"@
            &&& s.parity is Even <==> lowered(parity) == "even"@
        }),
{
    reveal_strlit("odd");
    reveal_strlit("even");
    assert("odd"@.len() == 3 && "even"@.len() == 4);
}

/// Once a byte has come, the exchange is over exactly when the gap has passed since the
/// last one, or the timeout since the request.
pub proof fn law_silence_ends_exchange(x: RtuExchange, last: u64, now: u64)
    requires
        x.last() == Some(last),
        last <= now,
    ensures
        x.over_at(now) <==> now >= last + x.gap() || now >= x.limit(),
{
}

} // verus!
