//! The decisions behind the commands of the user interface: connections, reads and
//! writes, and the serial port list.

use vstd::prelude::*;
use vstd::string::*;
use crate::client::short_pdu;
use crate::function_code as fc;
use crate::hex::{hex_encode, hex_text};
use crate::state::{CONN_RTU, CONN_TCP, CONN_UDP};
use crate::slave::{after, bits_from, in_range, read_pdu, registers_from, reply, ImageModel};
use crate::text::{contains, lowered, occurs_in, parse_decimal, parsed, same, sort_texts, texts_sorted, to_ascii_lower};
use crate::wire::{be_bytes, be_words, bit_bytes, bit_of, high, law_bits_roundtrip, law_words_roundtrip, low, make_word, packed, push_word, test_bit, unpacked};

verus! {

/// The name of a connection type.
pub open spec fn conn_text(conn: u8) -> Seq<char> {
    if conn == CONN_TCP {
        "tcp"@
    } else if conn == CONN_RTU {
        "rtu"@
    } else if conn == CONN_UDP {
        "udp"@
    } else {
        "none"@
    }
}

/// The name of a connection type: "none", "tcp", "rtu" or "udp".
pub fn conn_info(conn: u8) -> (r: &'static str)
    ensures
        r@ == conn_text(conn),
{
    if conn == CONN_TCP {
        "tcp"
    } else if conn == CONN_RTU {
        "rtu"
    } else if conn == CONN_UDP {
        "udp"
    } else {
        "none"
    }
}

/// Whether a connection is asked for over UDP: TCP is meant unless it says "udp", in
/// small or capital ASCII letters.
pub fn wants_udp(transport: Option<&str>) -> (r: bool)
    ensures
        r == (transport matches Some(t) && lowered(t@) == "udp"@),
{
    match transport {
        Some(t) => same(to_ascii_lower(t).as_str(), "udp"),
        None => false,
    }
}

/// The inter-frame gap in milliseconds: five unless one is given.
pub fn inter_frame_or_default(ms: Option<u64>) -> (r: u64)
    ensures
        r == (match ms {
            Some(n) => n,
            None => 5,
        }),
{
    match ms {
        Some(n) => n,
        None => 5,
    }
}

/// The values that a response to a read of holding registers carries; half a word at
/// the end is dropped.
pub open spec fn register_values(resp: Seq<u8>) -> Result<Seq<u16>, Seq<char>> {
    if resp.len() < 2 || resp[0] != fc::READ_HOLDING_REGISTERS {
        Err("unexpected response"@)
    } else if resp.len() < 2 + resp[1] {
        Err("truncated response"@)
    } else {
        Ok(be_words(resp, 2, (resp[1] / 2) as nat))
    }
}

fn words_from(resp: &[u8], n: usize) -> (r: Vec<u16>)
    requires
        resp@.len() >= 2 + 2 * n,
    ensures
        r@ == be_words(resp@, 2, n as nat),
{
    let mut out: Vec<u16> = Vec::new();
    let mut i: usize = 0;
    while i < n
        invariant
            i <= n,
            resp@.len() == resp.len(),
            resp@.len() >= 2 + 2 * n,
            out@ == be_words(resp@, 2, i as nat),
        decreases n - i,
    {
        out.push(make_word(resp[2 + 2 * i], resp[3 + 2 * i]));
        i += 1;
        assert(out@ =~= be_words(resp@, 2, i as nat));
    }
    out
}

/// Takes the values out of a response to a read of holding registers that came over a
/// serial line or over UDP.
pub fn read_registers(resp: &[u8]) -> (r: Result<Vec<u16>, String>)
    ensures
        match r {
            Ok(v) => register_values(resp@) == Ok::<Seq<u16>, Seq<char>>(v@),
            Err(m) => register_values(resp@) == Err::<Seq<u16>, Seq<char>>(m@),
        },
{
    if resp.len() < 2 || resp[0] != fc::READ_HOLDING_REGISTERS {
        return Err("unexpected response".to_owned());
    }
    if resp.len() - 2 < resp[1] as usize {
        return Err("truncated response".to_owned());
    }
    Ok(words_from(resp, (resp[1] / 2) as usize))
}

/// The function code that a text asks for: three unless it is a number up to 255.
pub open spec fn func_code(func: Seq<char>) -> u8 {
    match parsed(func, 255) {
        Some(n) => n as u8,
        None => 3,
    }
}

/// The function code that a text asks for.
pub fn parse_func(func: &str) -> (r: u8)
    ensures
        r == func_code(func@),
{
    match parse_decimal(func, 255) {
        Some(n) => n as u8,
        None => 3,
    }
}

/// The first value, zero where there is none.
pub open spec fn first_value(values: Seq<u16>) -> u16 {
    if values.len() == 0 {
        0
    } else {
        values[0]
    }
}

/// The request that writes a data point: one coil (FC05) for the coil family, else two
/// registers (FC16) where there are at least two values, else one register (FC06).
pub open spec fn point_pdu(func: Seq<char>, addr: u16, values: Seq<u16>) -> Seq<u8> {
    if func_code(func) == 1 {
        seq![
            fc::WRITE_SINGLE_COIL,
            high(addr),
            low(addr),
            if first_value(values) != 0 {
                0xFF
            } else {
                0
            },
            0,
        ]
    } else if values.len() >= 2 {
        seq![
            fc::WRITE_MULTIPLE_REGISTERS,
            high(addr),
            low(addr),
            0,
            2,
            4,
            high(values[0]),
            low(values[0]),
            high(values[1]),
            low(values[1]),
        ]
    } else {
        read_pdu(fc::WRITE_SINGLE_REGISTER, addr, first_value(values))
    }
}

/// The request that writes a data point.
pub fn write_point(func: &str, addr: u16, values: &[u16]) -> (r: Vec<u8>)
    ensures
        r@ == point_pdu(func@, addr, values@),
{
    let code: u8 = parse_func(func);
    let first: u16 = if values.len() == 0 {
        0
    } else {
        values[0]
    };
    if code == 1 {
        let on: u16 = if first != 0 {
            0xFF00
        } else {
            0
        };
        let out = short_pdu(fc::WRITE_SINGLE_COIL, addr, on);
        assert(out@ =~= point_pdu(func@, addr, values@));
        out
    } else if values.len() >= 2 {
        let mut out: Vec<u8> = Vec::new();
        out.push(fc::WRITE_MULTIPLE_REGISTERS);
        push_word(&mut out, addr);
        push_word(&mut out, 2);
        out.push(4);
        push_word(&mut out, values[0]);
        push_word(&mut out, values[1]);
        assert(out@ =~= point_pdu(func@, addr, values@));
        out
    } else {
        short_pdu(fc::WRITE_SINGLE_REGISTER, addr, first)
    }
}

/// The outcome of a single write: the frames in hexadecimal and the round-trip time.
#[derive(Debug)]
pub struct WriteResult {
    pub tx: String,
    pub rx: String,
    pub rtt_ms: u64,
}

/// The outcome of a single write.
pub fn write_result(tx: &[u8], rx: &[u8], rtt_ms: u64) -> (r: WriteResult)
    ensures
        r.tx@ == hex_text(tx@),
        r.rx@ == hex_text(rx@),
        r.rtt_ms == rtt_ms,
{
    WriteResult { tx: hex_encode(tx), rx: hex_encode(rx), rtt_ms }
}

/// The outcome of a single read: the values, the frames in hexadecimal and the
/// round-trip time.
#[derive(Debug)]
pub struct ReadPointsResult {
    pub regs: Vec<u16>,
    pub tx: String,
    pub rx: String,
    pub rtt_ms: u64,
}

/// The outcome of a raw request: the frames and the response PDU in hexadecimal and the
/// round-trip time.
#[derive(Debug)]
pub struct SendRawFrameResp {
    pub tx: String,
    pub rx: String,
    pub rtt_ms: u64,
    pub pdu_resp: String,
}

/// The outcome of a raw request.
pub fn send_raw_frame(tx: &[u8], rx: &[u8], rtt_ms: u64, resp: &[u8]) -> (r: SendRawFrameResp)
    ensures
        r.tx@ == hex_text(tx@),
        r.rx@ == hex_text(rx@),
        r.rtt_ms == rtt_ms,
        r.pdu_resp@ == hex_text(resp@),
{
    SendRawFrameResp {
        tx: hex_encode(tx),
        rx: hex_encode(rx),
        rtt_ms,
        pdu_resp: hex_encode(resp),
    }
}

/// Builds a read request.
pub fn build_read_pdu(func: u8, addr: u16, count: u16) -> (r: Vec<u8>)
    ensures
        r@ == read_pdu(func, addr, count),
{
    short_pdu(func, addr, count)
}

/// The values that a read response carries: for the bit functions (FC01, FC02) a zero
/// or a one for each bit, `count` at most, else words. None where the response does not
/// belong to `func` or is cut short.
pub open spec fn read_values(resp: Seq<u8>, func: u8, count: nat) -> Seq<u16> {
    if resp.len() < 2 || resp[0] != func || resp.len() < 2 + resp[1] {
        Seq::empty()
    } else if func == fc::READ_COILS || func == fc::READ_DISCRETE_INPUTS {
        let bits = unpacked(resp, 2, (8 * resp[1]) as nat);
        let n = if count < bits.len() {
            count
        } else {
            bits.len()
        };
        Seq::new(
            n,
            |i: int|
                if bits[i] {
                    1
                } else {
                    0
                },
        )
    } else {
        be_words(resp, 2, (resp[1] / 2) as nat)
    }
}

/// Takes the values out of a read response.
pub fn decode_read(resp: &[u8], func: u8, count: usize) -> (r: Vec<u16>)
    ensures
        r@ == read_values(resp@, func, count as nat),
{
    let mut out: Vec<u16> = Vec::new();
    if resp.len() < 2 || resp[0] != func {
        assert(out@ =~= read_values(resp@, func, count as nat));
        return out;
    }
    let bc: usize = resp[1] as usize;
    if resp.len() - 2 < bc {
        assert(out@ =~= read_values(resp@, func, count as nat));
        return out;
    }
    if func == fc::READ_COILS || func == fc::READ_DISCRETE_INPUTS {
        let n: usize = if count < 8 * bc {
            count
        } else {
            8 * bc
        };
        let ghost want = read_values(resp@, func, count as nat);
        let mut i: usize = 0;
        while i < n
            invariant
                i <= n <= 8 * bc,
                bc <= 255,
                resp@.len() >= 2 + bc,
                want.len() == n,
                forall|k: int|
                    0 <= k < n ==> #[trigger] want[k] == (if bit_of(resp@[2 + k / 8], k % 8) {
                        1u16
                    } else {
                        0u16
                    }),
                out@ == want.take(i as int),
            decreases n - i,
        {
            let v: u16 = if test_bit(resp[2 + i / 8], i % 8) {
                1
            } else {
                0
            };
            out.push(v);
            i += 1;
            assert(out@ =~= want.take(i as int));
        }
        assert(want.take(n as int) =~= want);
        out
    } else {
        words_from(resp, bc / 2)
    }
}

/// The request that reads data points, with its function code. Only the four reads are
/// accepted.
pub fn read_points_request(func: &str, addr: u16, count: u16) -> (r: Result<(u8, Vec<u8>), String>)
    ensures
        match r {
            Ok(p) => 1 <= func_code(func@) <= 4 && p.0 == func_code(func@) && p.1@ == read_pdu(
                p.0,
                addr,
                count,
            ),
            Err(m) => !(1 <= func_code(func@) <= 4) && m@
                == "read_points supports FC01/FC02/FC03/FC04 only"@,
        },
{
    let code: u8 = parse_func(func);
    if code != 1 && code != 2 && code != 3 && code != 4 {
        return Err("read_points supports FC01/FC02/FC03/FC04 only".to_owned());
    }
    Ok((code, build_read_pdu(code, addr, count)))
}

/// The outcome of a read of data points. A response without any value is an error.
pub fn read_points(
    tx: &[u8],
    rx: &[u8],
    rtt_ms: u64,
    resp: &[u8],
    code: u8,
    count: u16,
) -> (r: Result<ReadPointsResult, String>)
    ensures
        match r {
            Ok(p) => {
                &&& read_values(resp@, code, count as nat).len() > 0
                &&& p.regs@ == read_values(resp@, code, count as nat)
                &&& p.tx@ == hex_text(tx@)
                &&& p.rx@ == hex_text(rx@)
                &&& p.rtt_ms == rtt_ms
            },
            Err(m) => read_values(resp@, code, count as nat).len() == 0 && m@
                == "unexpected read response"@,
        },
{
    let vals = decode_read(resp, code, count as usize);
    if vals.len() == 0 {
        return Err("unexpected read response".to_owned());
    }
    Ok(ReadPointsResult { regs: vals, tx: hex_encode(tx), rx: hex_encode(rx), rtt_ms })
}

/// An error text about opening a serial port, with a hint where the port is busy.
pub open spec fn serial_error_text(msg: Seq<char>) -> Seq<char> {
    if occurs_in("Resource busy"@, msg) || occurs_in("os error 16"@, msg) {
        msg
            + "\n\n提示：串口已被其他程序独占用，请先关闭占用该串口的程序，或重启该串口设备后重试。"@
    } else {
        msg
    }
}

/// Adds to an error about opening a serial port what usually holds a busy port.
pub fn friendly_serial_error(msg: String) -> (r: String)
    ensures
        r@ == serial_error_text(msg@),
{
    if contains(msg.as_str(), "Resource busy") || contains(msg.as_str(), "os error 16") {
        let mut out = msg;
        out.append(
            "\n\n提示：串口已被其他程序独占用，请先关闭占用该串口的程序，或重启该串口设备后重试。",
        );
        out
    } else {
        msg
    }
}

/// The ports worth showing: the dial-in twin of a port is left out, unless only such
/// ports are there.
pub open spec fn shown_ports(ports: Seq<String>) -> Seq<String> {
    let calling = ports.filter(|p: String| !occurs_in("/dev/tty."@, p@));
    if calling.len() == 0 {
        ports
    } else {
        calling
    }
}

/// The ports worth showing, in order of their names.
pub fn list_serial_ports(ports: Vec<String>) -> (r: Vec<String>)
    ensures
        texts_sorted(r@),
        r@.to_multiset() == shown_ports(ports@).to_multiset(),
{
    let ghost p = |p: String| !occurs_in("/dev/tty."@, p@);
    let mut calling: Vec<String> = Vec::new();
    let mut i: usize = 0;
    proof {
        reveal(Seq::filter);
        assert(ports@.take(0) =~= Seq::empty());
        assert(calling@ =~= ports@.take(0).filter(p));
    }
    while i < ports.len()
        invariant
            i <= ports@.len(),
            p == (|p: String| !occurs_in("/dev/tty."@, p@)),
            calling@ == ports@.take(i as int).filter(p),
        decreases ports@.len() - i,
    {
        proof {
            reveal(Seq::filter);
            let next = ports@.take(i + 1);
            assert(next.drop_last() =~= ports@.take(i as int));
            assert(next.last() == ports@[i as int]);
        }
        if !contains(ports[i].as_str(), "/dev/tty.") {
            calling.push(ports[i].clone());
        }
        i += 1;
    }
    assert(ports@.take(i as int) =~= ports@);
    if calling.len() == 0 {
        sort_texts(ports)
    } else {
        sort_texts(calling)
    }
}

/// A read request that a slave has answered gives back the registers of its image.
pub proof fn law_registers_are_read(img: ImageModel, code: u8, addr: u16, count: u16)
    requires
        code == fc::READ_HOLDING_REGISTERS || code == fc::READ_INPUT_REGISTERS,
        1 <= count <= 125,
        in_range(addr, count),
    ensures
        ({
            let answer = reply(img, read_pdu(code, addr, count));
            &&& answer is Ok
            &&& read_values(answer->Ok_0, code, count as nat) == registers_from(
                if code == fc::READ_HOLDING_REGISTERS {
                    img.holding_registers
                } else {
                    img.input_registers
                },
                addr,
                count as nat,
            )
        }),
{
    let store = if code == fc::READ_HOLDING_REGISTERS {
        img.holding_registers
    } else {
        img.input_registers
    };
    let read = read_pdu(code, addr, count);
    crate::wire::law_word_roundtrip(addr, 0, 0);
    crate::wire::law_word_roundtrip(count, 0, 0);
    let values = registers_from(store, addr, count as nat);
    let data = be_bytes(values);
    let answer = reply(img, read)->Ok_0;
    assert(answer =~= seq![code, (2 * count) as u8] + data);
    law_words_roundtrip(values);
    let got = be_words(answer, 2, count as nat);
    assert forall|i: int| 0 <= i < count implies got[i] == values[i] by {
        assert(answer[2 + 2 * i] == data[0 + 2 * i]);
        assert(answer[2 + 2 * i + 1] == data[0 + 2 * i + 1]);
        assert(be_words(data, 0, values.len())[i] == values[i]);
    }
    assert(got =~= values);
}

/// A read request that a slave has answered gives back the bits of its image, as zeros
/// and ones.
pub proof fn law_bits_are_read(img: ImageModel, code: u8, addr: u16, count: u16)
    requires
        code == fc::READ_COILS || code == fc::READ_DISCRETE_INPUTS,
        1 <= count <= 2000,
        in_range(addr, count),
    ensures
        ({
            let answer = reply(img, read_pdu(code, addr, count));
            let bits = bits_from(
                if code == fc::READ_COILS {
                    img.coils
                } else {
                    img.discrete_inputs
                },
                addr,
                count as nat,
            );
            &&& answer is Ok
            &&& read_values(answer->Ok_0, code, count as nat) == bits.map_values(
                |b: bool|
                    if b {
                        1u16
                    } else {
                        0u16
                    },
            )
        }),
{
    let store = if code == fc::READ_COILS {
        img.coils
    } else {
        img.discrete_inputs
    };
    let read = read_pdu(code, addr, count);
    crate::wire::law_word_roundtrip(addr, 0, 0);
    crate::wire::law_word_roundtrip(count, 0, 0);
    let bits = bits_from(store, addr, count as nat);
    let head = seq![code, bit_bytes(count as int) as u8];
    let answer = reply(img, read)->Ok_0;
    assert(answer == head + packed(bits));
    law_bits_roundtrip(head, bits);
    let got = read_values(answer, code, count as nat);
    let want = bits.map_values(
        |b: bool|
            if b {
                1u16
            } else {
                0u16
            },
    );
    assert forall|i: int| 0 <= i < count implies got[i] == want[i] by {
        assert(unpacked(answer, 2, count as nat)[i] == bits[i]);
        assert(unpacked(answer, 2, (8 * answer[1]) as nat)[i] == bits[i]);
    }
    assert(got =~= want);
}

/// A number up to 255 asks for the function of that number, with or without a plus sign;
/// any other text asks for function three.
pub proof fn law_functions_asked_for(func: Seq<char>, n: nat)
    ensures
        n <= 255 ==> func_code(crate::text::decimal(n)) == n,
        parsed(func, 255) is None ==> func_code(func) == 3,
        parsed(func, 255) matches Some(k) ==> func_code(func) == k,
{
    if n <= 255 {
        crate::text::law_decimal_roundtrip(n, 255);
    }
    crate::text::law_number_texts(func, 255);
}

/// What a master writes as a data point arrives: in the coil family the coil is set where
/// the first value is other than zero; two values or more put the first two into successive
/// holding registers; one value goes into one holding register. No other coil or register
/// changes.
pub proof fn law_written_point_arrives(
    img: ImageModel,
    func: Seq<char>,
    addr: u16,
    values: Seq<u16>,
)
    requires
        values.len() >= 2 ==> addr < 0xFFFF,
    ensures
        ({
            let pdu = point_pdu(func, addr, values);
            let next = after(img, pdu);
            let first: u16 = if values.len() == 0 {
                0
            } else {
                values[0]
            };
            &&& reply(img, pdu) is Ok
            &&& if func_code(func) == 1 {
                next == (ImageModel { coils: img.coils.insert(addr, first != 0), ..img })
            } else if values.len() >= 2 {
                next == (ImageModel {
                    holding_registers: img.holding_registers.insert(addr, first).insert(
                        (addr + 1) as u16,
                        values[1],
                    ),
                    ..img
                })
            } else {
                next == (ImageModel {
                    holding_registers: img.holding_registers.insert(addr, first),
                    ..img
                })
            }
        }),
{
    let pdu = point_pdu(func, addr, values);
    let next = after(img, pdu);
    let first: u16 = if values.len() == 0 {
        0
    } else {
        values[0]
    };
    crate::wire::law_word_layout(addr, 0, 0);
    crate::wire::law_word_layout(first, 0, 0);
    if func_code(func) == 1 {
        crate::slave::law_single_coil_writes(img, pdu);
    } else if values.len() >= 2 {
        crate::wire::law_word_layout(values[1], 0, 0);
        crate::slave::law_register_run_writes(img, pdu);
        let want = img.holding_registers.insert(addr, first).insert((addr + 1) as u16, values[1]);
        assert(256 * pdu[1] + pdu[2] == addr && 256 * pdu[3] + pdu[4] == 2 && pdu[5] == 4);
        assert forall|a: u16| next.holding_registers.contains_key(a) == #[trigger] want.contains_key(
            a,
        ) by {}
        assert forall|a: u16| #[trigger] next.holding_registers.contains_key(a) implies
            next.holding_registers[a] == want[a] by {
            if a == addr {
                assert(next.holding_registers[a] == 256 * pdu[6 + 2 * (a - addr)] + pdu[7 + 2 * (a
                    - addr)]);
            } else if a == addr + 1 {
                assert(next.holding_registers[a] == 256 * pdu[6 + 2 * (a - addr)] + pdu[7 + 2 * (a
                    - addr)]);
            }
        }
        assert(next.holding_registers =~= want);
    } else {
        crate::slave::law_short_request_layout(0x06, addr, first);
        crate::slave::law_single_register_writes(img, pdu);
    }
}

/// A response is taken where it carries the function that was asked for and all bytes that
/// it announces. Words are spelled by pairs of those bytes, the high one first; bits stand
/// eight to a byte, the first one least significant, and no more count than were asked for.
pub proof fn law_responses_are_read(resp: Seq<u8>, func: u8, count: nat, i: int)
    ensures
        resp.len() < 2 || resp[0] != func || resp.len() < 2 + resp[1] ==> read_values(
            resp,
            func,
            count,
        ).len() == 0,
        resp.len() >= 2 && resp[0] == func && resp.len() >= 2 + resp[1] ==> ({
            let v = read_values(resp, func, count);
            if func == 1 || func == 2 {
                &&& v.len() == (if count < 8 * resp[1] {
                    count as int
                } else {
                    8 * resp[1]
                })
                &&& 0 <= i < v.len() ==> v[i] == (if bit_of(resp[2 + i / 8], i % 8) {
                    1u16
                } else {
                    0
                })
            } else {
                &&& v.len() == resp[1] as int / 2
                &&& 0 <= i < v.len() ==> v[i] == 256 * resp[2 + 2 * i] + resp[3 + 2 * i]
            }
        }),
{
}

/// A response to a read of holding registers over a serial line or UDP is refused where it
/// is none, and where it lacks bytes; else pairs of bytes spell the registers.
pub proof fn law_register_responses_are_read(resp: Seq<u8>, i: int)
    ensures
        resp.len() < 2 || resp[0] != 3 ==> register_values(resp) == Err::<Seq<u16>, Seq<char>>(
            "unexpected response"@,
        ),
        resp.len() >= 2 && resp[0] == 3 && resp.len() < 2 + resp[1] ==> register_values(resp)
            == Err::<Seq<u16>, Seq<char>>("truncated response"@),
        resp.len() >= 2 && resp[0] == 3 && resp.len() >= 2 + resp[1] ==> {
            &&& register_values(resp) is Ok
            &&& register_values(resp)->Ok_0.len() == resp[1] as int / 2
            &&& 0 <= i < resp[1] as int / 2 ==> register_values(resp)->Ok_0[i] == 256 * resp[2 + 2
                * i] + resp[3 + 2 * i]
        },
{
}

/// A read that a master sends for one to 125 registers, or one to 2000 bits, within the
/// address space brings it what the slave's image holds there, in order: 0xFFFF and zero
/// for what was never written.
pub proof fn law_points_are_read(img: ImageModel, code: u8, addr: u16, count: u16, i: int)
    requires
        1 <= code <= 4,
        1 <= count,
        count <= (if code <= 2 {
            2000int
        } else {
            125
        }),
        addr + count <= 0x10000,
        0 <= i < count,
    ensures
        ({
            let answer = reply(img, read_pdu(code, addr, count));
            let v = read_values(answer->Ok_0, code, count as nat);
            let a = (addr + i) as u16;
            &&& answer is Ok
            &&& v.len() == count
            &&& code == 1 ==> v[i] == (if img.coils.contains_key(a) && img.coils[a] {
                1u16
            } else {
                0
            })
            &&& code == 2 ==> v[i] == (if img.discrete_inputs.contains_key(a)
                && img.discrete_inputs[a] {
                1u16
            } else {
                0
            })
            &&& code == 3 ==> v[i] == (if img.holding_registers.contains_key(a) {
                img.holding_registers[a]
            } else {
                0xFFFF
            })
            &&& code == 4 ==> v[i] == (if img.input_registers.contains_key(a) {
                img.input_registers[a]
            } else {
                0xFFFF
            })
        }),
{
    let pdu = read_pdu(code, addr, count);
    crate::slave::law_short_request_layout(code, addr, count);
    let answer = reply(img, pdu)->Ok_0;
    if code <= 2 {
        crate::slave::law_bit_reads(img, pdu);
        law_responses_are_read(answer, code, count as nat, i);
        assert(i < 8 * ((count + 7) / 8));
        let b = bit_of(answer[2 + i / 8], i % 8);
    } else {
        crate::slave::law_register_reads(img, pdu);
        law_responses_are_read(answer, code, count as nat, i);
        let hi = answer[2 + 2 * i];
    }
}

/// The four states of a connection have their own names.
pub proof fn law_connection_names(conn: u8)
    ensures
        conn == 1 ==> conn_text(conn) == "tcp"@,
        conn == 2 ==> conn_text(conn) == "rtu"@,
        conn == 3 ==> conn_text(conn) == "udp"@,
        conn == 0 || conn > 3 ==> conn_text(conn) == "none"@,
{
}

/// An error about a busy port keeps its text and gets a hint behind it; any other error is
/// shown as it is.
pub proof fn law_serial_errors(msg: Seq<char>)
    ensures
        serial_error_text(msg).len() >= msg.len(),
        serial_error_text(msg).take(msg.len() as int) == msg,
        serial_error_text(msg) != msg <==> occurs_in("Resource busy"@, msg) || occurs_in(
            "os error 16"@,
            msg,
        ),
{
    reveal_strlit(
        "\n\n提示：串口已被其他程序独占用，请先关闭占用该串口的程序，或重启该串口设备后重试。",
    );
    assert(serial_error_text(msg).take(msg.len() as int) =~= msg);
}

/// A port is shown unless its name has "/dev/tty." in it and there is a port whose name has
/// not.
pub proof fn law_shown_ports(ports: Seq<String>, i: int)
    requires
        0 <= i < ports.len(),
    ensures
        !occurs_in("/dev/tty."@, ports[i]@) ==> shown_ports(ports).contains(ports[i]),
        (forall|j: int| 0 <= j < ports.len() ==> occurs_in("/dev/tty."@, (#[trigger] ports[j])@))
            ==> shown_ports(ports) == ports,
        !occurs_in("/dev/tty."@, ports[i]@) ==> (forall|j: int|
            0 <= j < shown_ports(ports).len() ==> !occurs_in(
                "/dev/tty."@,
                (#[trigger] shown_ports(ports)[j])@,
            )),
{
    let p = |p: String| !occurs_in("/dev/tty."@, p@);
    let calling = ports.filter(p);
    if p(ports[i]) {
        ports.lemma_filter_contains(p, i);
        assert forall|j: int| 0 <= j < calling.len() implies !occurs_in(
            "/dev/tty."@,
            (#[trigger] calling[j])@,
        ) by {
            ports.lemma_filter_pred(p, j);
        }
    }
    if forall|j: int| 0 <= j < ports.len() ==> occurs_in("/dev/tty."@, (#[trigger] ports[j])@) {
        assert forall|j: int| 0 <= j < ports.len() implies !p(#[trigger] ports[j]) by {}
        ports.lemma_all_neg_filter_empty(p);
    }
}

/// Each port is shown as often as it is there, as long as the kind of port that is shown
/// stays the same.
pub proof fn law_ports_are_shown_one_by_one(ports: Seq<String>, p: String)
    ensures
        (exists|i: int|
            0 <= i < ports.len() && !occurs_in("/dev/tty."@, (#[trigger] ports[i])@)) ==> shown_ports(
            ports.push(p),
        ) == (if occurs_in("/dev/tty."@, p@) {
            shown_ports(ports)
        } else {
            shown_ports(ports).push(p)
        }),
        (forall|i: int| 0 <= i < ports.len() ==> occurs_in("/dev/tty."@, (#[trigger] ports[i])@))
            ==> shown_ports(ports.push(p)) == (if occurs_in("/dev/tty."@, p@) {
            ports.push(p)
        } else {
            seq![p]
        }),
{
    let f = |p: String| !occurs_in("/dev/tty."@, p@);
    reveal(Seq::filter);
    assert(ports.push(p).drop_last() =~= ports);
    if exists|i: int| 0 <= i < ports.len() && !occurs_in("/dev/tty."@, (#[trigger] ports[i])@) {
        let i = choose|i: int|
            0 <= i < ports.len() && !occurs_in("/dev/tty."@, (#[trigger] ports[i])@);
        ports.lemma_filter_contains(f, i);
    } else {
        ports.lemma_all_neg_filter_empty(f);
        assert(ports.filter(f) =~= Seq::empty());
        assert(Seq::<String>::empty().push(p) =~= seq![p]);
    }
}

/// The request that writes a data point: in the coil family a single coil, all ones or all
/// zeros in its high byte; for two values or more two registers; else a single register.
pub proof fn law_point_layout(func: Seq<char>, addr: u16, values: Seq<u16>)
    ensures
        ({
            let pdu = point_pdu(func, addr, values);
            let first: u16 = if values.len() == 0 {
                0
            } else {
                values[0]
            };
            &&& 256 * pdu[1] + pdu[2] == addr
            &&& if func_code(func) == 1 {
                &&& pdu.len() == 5 && pdu[0] == 5
                &&& pdu[3] == (if first != 0 {
                    255u8
                } else {
                    0
                }) && pdu[4] == 0
            } else if values.len() >= 2 {
                &&& pdu.len() == 10 && pdu[0] == 16
                &&& pdu[3] == 0 && pdu[4] == 2 && pdu[5] == 4
                &&& 256 * pdu[6] + pdu[7] == values[0]
                &&& 256 * pdu[8] + pdu[9] == values[1]
            } else {
                &&& pdu.len() == 5 && pdu[0] == 6
                &&& 256 * pdu[3] + pdu[4] == first
            }
        }),
{
}

} // verus!
