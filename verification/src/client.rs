//! The master: request PDUs, what becomes of the responses, and when a request is tried
//! again.

use vstd::prelude::*;
use crate::error::{other, ErrorModel, ModbusError};
use crate::function_code as fc;
use crate::slave::{after, pdu_addr, pdu_count, read_pdu, reply, ImageModel};
use crate::wire::{be_bytes, be_words, high, law_word_roundtrip, law_words_roundtrip, low, low16, make_word, push_word};

verus! {

/// The number of words that a read response announces; an odd byte counts as a word.
pub open spec fn announced_words(resp: Seq<u8>) -> nat {
    ((resp[1] + 1) / 2) as nat
}

/// Whether a read response holds all bytes of the words that it announces.
pub open spec fn holds_words(resp: Seq<u8>) -> bool {
    resp.len() >= 2 + 2 * announced_words(resp)
}

/// The values that a response to a read of holding registers carries.
pub open spec fn holding_values(resp: Seq<u8>) -> Result<Seq<u16>, ErrorModel> {
    if resp.len() < 2 || resp[0] != fc::READ_HOLDING_REGISTERS {
        Err(ErrorModel::Other("unexpected read response"@))
    } else if resp.len() < 2 + resp[1] {
        Err(ErrorModel::Other("read response truncated"@))
    } else {
        Ok(be_words(resp, 2, announced_words(resp)))
    }
}

/// The values that a response to a read of input registers carries.
pub open spec fn input_values(resp: Seq<u8>) -> Result<Seq<u16>, ErrorModel> {
    if resp.len() < 2 || resp[0] != fc::READ_INPUT_REGISTERS {
        Err(ErrorModel::Other("unexpected read-input response"@))
    } else {
        Ok(be_words(resp, 2, announced_words(resp)))
    }
}

/// Whether executed values are the values `want`.
pub open spec fn is_values(r: Result<Vec<u16>, ModbusError>, want: Result<Seq<u16>, ErrorModel>) -> bool {
    match r {
        Ok(v) => want == Ok::<Seq<u16>, ErrorModel>(v@),
        Err(e) => want == Err::<Seq<u16>, ErrorModel>(e@),
    }
}

/// The request to write several registers. Its count keeps the low sixteen bits of the
/// number of values, and its byte count the low eight bits of the number of bytes.
pub open spec fn write_registers_pdu(addr: u16, values: Seq<u16>) -> Seq<u8> {
    seq![
        fc::WRITE_MULTIPLE_REGISTERS,
        high(addr),
        low(addr),
        high(low16(values.len() as int)),
        low(low16(values.len() as int)),
        (2 * values.len() % 256) as u8,
    ] + be_bytes(values)
}

/// A request of five bytes: function code, address, and a count or value.
pub fn short_pdu(code: u8, addr: u16, field: u16) -> (r: Vec<u8>)
    ensures
        r@ == read_pdu(code, addr, field),
{
    let mut out: Vec<u8> = Vec::new();
    out.push(code);
    push_word(&mut out, addr);
    push_word(&mut out, field);
    assert(out@ =~= read_pdu(code, addr, field));
    out
}

/// The request to read holding registers (FC03).
pub fn holding_request(addr: u16, count: u16) -> (r: Vec<u8>)
    ensures
        r@ == read_pdu(fc::READ_HOLDING_REGISTERS, addr, count),
{
    short_pdu(fc::READ_HOLDING_REGISTERS, addr, count)
}

/// The request to read input registers (FC04).
pub fn input_request(addr: u16, count: u16) -> (r: Vec<u8>)
    ensures
        r@ == read_pdu(fc::READ_INPUT_REGISTERS, addr, count),
{
    short_pdu(fc::READ_INPUT_REGISTERS, addr, count)
}

/// The request to write one holding register (FC06).
pub fn write_register_request(addr: u16, value: u16) -> (r: Vec<u8>)
    ensures
        r@ == read_pdu(fc::WRITE_SINGLE_REGISTER, addr, value),
{
    short_pdu(fc::WRITE_SINGLE_REGISTER, addr, value)
}

/// The request to write several holding registers (FC16).
pub fn write_registers_request(addr: u16, values: &[u16]) -> (r: Vec<u8>)
    requires
        2 * values@.len() + 6 <= usize::MAX,
    ensures
        r@ == write_registers_pdu(addr, values@),
{
    let mut out: Vec<u8> = Vec::new();
    out.push(fc::WRITE_MULTIPLE_REGISTERS);
    push_word(&mut out, addr);
    push_word(&mut out, (values.len() % 65536) as u16);
    out.push((2 * values.len() % 256) as u8);
    let ghost head = out@;
    let mut i: usize = 0;
    assert(out@ =~= head + be_bytes(values@.take(0)));
    while i < values.len()
        invariant
            i <= values@.len(),
            out@ == head + be_bytes(values@.take(i as int)),
        decreases values@.len() - i,
    {
        push_word(&mut out, values[i]);
        i += 1;
        assert(out@ =~= head + be_bytes(values@.take(i as int)));
    }
    assert(values@.take(i as int) =~= values@);
    assert(out@ =~= write_registers_pdu(addr, values@));
    out
}

/// Whether a read response holds all bytes of the words that it announces. A response
/// that does not must be kept from [`decode_holding`] and [`decode_input`].
pub fn has_whole_words(resp: &[u8]) -> (r: bool)
    requires
        resp@.len() >= 2,
    ensures
        r == holds_words(resp@),
{
    let words: usize = (resp[1] as usize + 1) / 2;
    resp.len() >= 2 + 2 * words
}

fn read_words(resp: &[u8]) -> (r: Vec<u16>)
    requires
        resp@.len() >= 2,
        holds_words(resp@),
    ensures
        r@ == be_words(resp@, 2, announced_words(resp@)),
{
    let n: usize = (resp[1] as usize + 1) / 2;
    let mut out: Vec<u16> = Vec::new();
    let mut i: usize = 0;
    while i < n
        invariant
            i <= n,
            n == announced_words(resp@),
            resp@.len() >= 2 + 2 * n,
            n <= 128,
            out@ == be_words(resp@, 2, i as nat),
        decreases n - i,
    {
        out.push(make_word(resp[2 + 2 * i], resp[3 + 2 * i]));
        i += 1;
        assert(out@ =~= be_words(resp@, 2, i as nat));
    }
    out
}

/// Takes the values out of a response to a read of holding registers.
pub fn decode_holding(resp: &[u8]) -> (r: Result<Vec<u16>, ModbusError>)
    requires
        holding_values(resp@) is Ok ==> holds_words(resp@),
    ensures
        is_values(r, holding_values(resp@)),
{
    if resp.len() < 2 || resp[0] != fc::READ_HOLDING_REGISTERS {
        return Err(other("unexpected read response"));
    }
    if resp.len() < 2 + resp[1] as usize {
        return Err(other("read response truncated"));
    }
    Ok(read_words(resp))
}

/// Takes the values out of a response to a read of input registers.
pub fn decode_input(resp: &[u8]) -> (r: Result<Vec<u16>, ModbusError>)
    requires
        input_values(resp@) is Ok ==> holds_words(resp@),
    ensures
        is_values(r, input_values(resp@)),
{
    if resp.len() < 2 || resp[0] != fc::READ_INPUT_REGISTERS {
        return Err(other("unexpected read-input response"));
    }
    Ok(read_words(resp))
}

/// What to do after an attempt.
#[derive(Debug)]
pub enum Attempt {
    /// The request is to be tried again.
    Again,
    /// The request is over.
    Done(Result<Vec<u8>, ModbusError>),
}

/// How often a request is tried: once, and then as often as there are retries, but at
/// least once more.
#[derive(Debug)]
pub struct Attempts {
    used: u64,
    allowed: u64,
}

impl Attempts {
    /// The attempts that have failed.
    pub closed spec fn failed(&self) -> u64 {
        self.used
    }

    /// The attempts that may be made in all.
    pub closed spec fn limit(&self) -> u64 {
        self.allowed
    }

    pub open spec fn wf(&self) -> bool {
        self.failed() < self.limit()
    }

    /// No attempt has been made.
    pub fn new(retries: u32) -> (r: Self)
        ensures
            r.wf(),
            r.failed() == 0,
            r.limit() == (if retries == 0 {
                2
            } else {
                retries + 1
            }),
    {
        let allowed: u64 = if retries == 0 {
            2
        } else {
            retries as u64 + 1
        };
        Attempts { used: 0, allowed }
    }

    /// An attempt has come back. A response ends the request, and so does an exception
    /// of the slave; any other error ends it with the last attempt.
    pub fn on_result(&mut self, result: Result<Vec<u8>, ModbusError>) -> (r: Attempt)
        requires
            old(self).wf(),
        ensures
            final(self).limit() == old(self).limit(),
            ({
                let over = result is Ok || result->Err_0 is Exception || old(self).failed() + 1
                    == old(self).limit();
                &&& over ==> r == Attempt::Done(result) && final(self).failed()
                    == old(self).failed()
                &&& !over ==> r is Again && final(self).failed() == old(self).failed() + 1
                &&& final(self).wf()
            }),
    {
        match result {
            Ok(v) => Attempt::Done(Ok(v)),
            Err(e) => {
                let exception: bool = match e {
                    ModbusError::Exception(_) => true,
                    _ => false,
                };
                if exception || self.used + 1 == self.allowed {
                    Attempt::Done(Err(e))
                } else {
                    self.used = self.used + 1;
                    Attempt::Again
                }
            },
        }
    }
}

/// Values that a master writes to a slave (FC16) are the values that it reads back from
/// there (FC03).
pub proof fn law_master_reads_what_it_wrote(img: ImageModel, addr: u16, values: Seq<u16>)
    requires
        1 <= values.len() <= 123,
        addr + values.len() <= 0x10000,
    ensures
        ({
            let write = write_registers_pdu(addr, values);
            let read = read_pdu(fc::READ_HOLDING_REGISTERS, addr, values.len() as u16);
            let answer = reply(after(img, write), read);
            &&& reply(img, write) == Ok::<Seq<u8>, u8>(write.take(5))
            &&& answer is Ok
            &&& holds_words(answer->Ok_0)
            &&& holding_values(answer->Ok_0) == Ok::<Seq<u16>, ErrorModel>(values)
        }),
{
    let write = write_registers_pdu(addr, values);
    let n = values.len() as u16;
    law_word_roundtrip(addr, 0, 0);
    law_word_roundtrip(n, 0, 0);
    assert(pdu_addr(write) == addr);
    assert(pdu_count(write) == n);
    assert(write[5] == 2 * n);
    crate::slave::law_written_registers_read_back(img, write);
    let read = read_pdu(fc::READ_HOLDING_REGISTERS, addr, n);
    let answer = reply(after(img, write), read)->Ok_0;
    let data = be_bytes(values);
    assert(write.subrange(6, 6 + write[5]) =~= data);
    assert(answer =~= seq![fc::READ_HOLDING_REGISTERS, write[5]] + data);
    law_words_roundtrip(values);
    assert(be_words(answer, 2, values.len()) =~= be_words(data, 0, values.len())) by {
        assert forall|i: int| 0 <= i < values.len() implies be_words(answer, 2, values.len())[i]
            == be_words(data, 0, values.len())[i] by {
            assert(answer[2 + 2 * i] == data[0 + 2 * i]);
            assert(answer[2 + 2 * i + 1] == data[0 + 2 * i + 1]);
        }
    }
}

/// The request to write several registers: the function, the address, the number of
/// registers, the number of bytes, and each register with its high byte first. Of numbers
/// that do not fit into their field the low bits are sent.
pub proof fn law_write_request_layout(addr: u16, values: Seq<u16>)
    ensures
        ({
            let pdu = write_registers_pdu(addr, values);
            let n = values.len() as int;
            &&& pdu.len() == 6 + 2 * n
            &&& pdu[0] == 0x10
            &&& 256 * pdu[1] + pdu[2] == addr
            &&& 256 * pdu[3] + pdu[4] == n % 65536
            &&& pdu[5] as int == (2 * n) % 256
            &&& forall|i: int|
                0 <= i < n ==> 256 * #[trigger] pdu[6 + 2 * i] + pdu[7 + 2 * i] == values[i]
        }),
{
    let pdu = write_registers_pdu(addr, values);
    assert forall|i: int| 0 <= i < values.len() implies 256 * #[trigger] pdu[6 + 2 * i] + pdu[7 + 2
        * i] == values[i] by {
        crate::wire::law_bytes_of_words(values, i);
        assert(pdu[6 + 2 * i] == be_bytes(values)[2 * i]);
        assert(pdu[7 + 2 * i] == be_bytes(values)[2 * i + 1]);
    }
}

/// A response to a read of registers (FC03 and FC04) is taken where it carries the
/// function that was asked for: each pair of bytes that the byte count covers is a
/// register, in order and with the high byte first. A holding register response that is
/// shorter than its byte count is refused.
pub proof fn law_register_responses(resp: Seq<u8>)
    ensures
        resp.len() < 2 || resp[0] != 3 ==> holding_values(resp) is Err,
        resp.len() < 2 || resp[0] != 4 ==> input_values(resp) is Err,
        resp.len() >= 2 && resp[0] == 3 && resp.len() < 2 + resp[1] ==> holding_values(
            resp,
        ) is Err,
        resp.len() >= 2 && resp[0] == 3 && resp.len() >= 2 + resp[1] ==> holding_values(resp) is Ok
            && spells_words(resp, holding_values(resp)->Ok_0),
        resp.len() >= 2 && resp[0] == 4 ==> input_values(resp) is Ok && spells_words(
            resp,
            input_values(resp)->Ok_0,
        ),
        resp.len() >= 2 ==> holds_words(resp) == (resp.len() >= 2 + resp[1] + resp[1] % 2),
{
    if resp.len() >= 2 {
        let n = announced_words(resp);
        assert forall|i: int| 0 <= i < n implies #[trigger] be_words(resp, 2, n)[i] == 256 * resp[2
            + 2 * i] + resp[3 + 2 * i] by {
            crate::wire::law_words_of_bytes(resp, 2, n, i);
        }
    }
}

/// Whether `values` are the words that the bytes behind a byte count spell, half a word
/// counting as one.
pub open spec fn spells_words(resp: Seq<u8>, values: Seq<u16>) -> bool {
    &&& 2 * values.len() == resp[1] + resp[1] % 2
    &&& forall|i: int|
        0 <= i < values.len() ==> #[trigger] values[i] == 256 * resp[2 + 2 * i] + resp[3 + 2 * i]
}

/// A master that reads registers gets what the slave's image holds there, in order, 0xFFFF
/// for a register that was never written: holding registers (FC03) and input registers
/// (FC04) alike.
pub proof fn law_master_reads_registers(img: ImageModel, addr: u16, count: u16)
    requires
        1 <= count <= 125,
        addr + count <= 0x10000,
    ensures
        ({
            let h = reply(img, read_pdu(0x03, addr, count))->Ok_0;
            let n = reply(img, read_pdu(0x04, addr, count))->Ok_0;
            &&& reply(img, read_pdu(0x03, addr, count)) is Ok
            &&& reply(img, read_pdu(0x04, addr, count)) is Ok
            &&& holds_words(h) && holding_values(h) is Ok
            &&& holds_words(n) && input_values(n) is Ok
            &&& holding_values(h)->Ok_0.len() == count
            &&& input_values(n)->Ok_0.len() == count
            &&& forall|i: int|
                0 <= i < count ==> #[trigger] holding_values(h)->Ok_0[i] == (
                if img.holding_registers.contains_key((addr + i) as u16) {
                    img.holding_registers[(addr + i) as u16]
                } else {
                    0xFFFF
                })
            &&& forall|i: int|
                0 <= i < count ==> #[trigger] input_values(n)->Ok_0[i] == (
                if img.input_registers.contains_key((addr + i) as u16) {
                    img.input_registers[(addr + i) as u16]
                } else {
                    0xFFFF
                })
        }),
{
    let ask3 = read_pdu(0x03, addr, count);
    let ask4 = read_pdu(0x04, addr, count);
    crate::slave::law_short_request_layout(0x03, addr, count);
    crate::slave::law_short_request_layout(0x04, addr, count);
    crate::slave::law_register_reads(img, ask3);
    crate::slave::law_register_reads(img, ask4);
    let h = reply(img, ask3)->Ok_0;
    let n = reply(img, ask4)->Ok_0;
    law_register_responses(h);
    law_register_responses(n);
    assert forall|i: int| 0 <= i < count implies #[trigger] holding_values(h)->Ok_0[i] == (
    if img.holding_registers.contains_key((addr + i) as u16) {
        img.holding_registers[(addr + i) as u16]
    } else {
        0xFFFF
    }) by {
        assert(256 * h[2 + 2 * i] + h[3 + 2 * i] == holding_values(h)->Ok_0[i]);
    }
    assert forall|i: int| 0 <= i < count implies #[trigger] input_values(n)->Ok_0[i] == (
    if img.input_registers.contains_key((addr + i) as u16) {
        img.input_registers[(addr + i) as u16]
    } else {
        0xFFFF
    }) by {
        assert(256 * n[2 + 2 * i] + n[3 + 2 * i] == input_values(n)->Ok_0[i]);
    }
}

/// Executed values stand for the values that are wanted exactly where both are the same
/// registers, or both are the same error.
pub proof fn law_values(r: Result<Vec<u16>, ModbusError>, want: Result<Seq<u16>, ErrorModel>)
    ensures
        is_values(r, want) <==> match (r, want) {
            (Ok(v), Ok(s)) => v@ == s,
            (Err(e), Err(f)) => e@ == f,
            _ => false,
        },
{
}

} // verus!
