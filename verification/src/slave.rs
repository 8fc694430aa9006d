//! The data image of a slave and its request handler. The same image backs a TCP,
//! a UDP or a serial slave.
//!
//! The tables are sparse: they start empty and grow only when an address is
//! written. An address that was never written reads as 0xFFFF in the register
//! areas and as off in the bit areas.

use std::collections::HashMap;
use vstd::prelude::*;
use crate::error::exception;
use crate::function_code as fc;
use crate::number::Number;
use crate::text::same;
use crate::wire::{be_bytes, be_words, bit_bytes, bit_of, copy_range, high, law_bits_roundtrip, law_bytes_roundtrip, law_word_roundtrip, low, low16, make_word, pack_bits, packed, push_bytes, push_word, test_bit, unpacked, word_at};

verus! {

/// The data image of one unit.
#[derive(Debug, Clone)]
pub struct DataImage {
    pub coils: HashMap<u16, bool>,
    pub discrete_inputs: HashMap<u16, bool>,
    pub input_registers: HashMap<u16, u16>,
    pub holding_registers: HashMap<u16, u16>,
}

/// What a data image holds.
#[verifier::ext_equal]
pub struct ImageModel {
    pub coils: Map<u16, bool>,
    pub discrete_inputs: Map<u16, bool>,
    pub input_registers: Map<u16, u16>,
    pub holding_registers: Map<u16, u16>,
}

impl View for DataImage {
    type V = ImageModel;

    open spec fn view(&self) -> ImageModel {
        ImageModel {
            coils: self.coils@,
            discrete_inputs: self.discrete_inputs@,
            input_registers: self.input_registers@,
            holding_registers: self.holding_registers@,
        }
    }
}

/// The image in which nothing was ever written.
pub open spec fn empty_image() -> ImageModel {
    ImageModel {
        coils: Map::empty(),
        discrete_inputs: Map::empty(),
        input_registers: Map::empty(),
        holding_registers: Map::empty(),
    }
}

/// The value that a register area reads at an address.
pub open spec fn register_at(m: Map<u16, u16>, a: u16) -> u16 {
    if m.contains_key(a) {
        m[a]
    } else {
        0xFFFF
    }
}

/// The value that a bit area reads at an address.
pub open spec fn bit_at(m: Map<u16, bool>, a: u16) -> bool {
    m.contains_key(a) && m[a]
}

/// The `n` registers from `addr` on.
pub open spec fn registers_from(m: Map<u16, u16>, addr: u16, n: nat) -> Seq<u16> {
    Seq::new(n, |i: int| register_at(m, (addr + i) as u16))
}

/// The `n` bits from `addr` on.
pub open spec fn bits_from(m: Map<u16, bool>, addr: u16, n: nat) -> Seq<bool> {
    Seq::new(n, |i: int| bit_at(m, (addr + i) as u16))
}

/// `m` with `values` written from `addr` on.
pub open spec fn written<V>(m: Map<u16, V>, addr: u16, values: Seq<V>) -> Map<u16, V> {
    Map::new(
        |a: u16| m.contains_key(a) || addr <= a < addr + values.len(),
        |a: u16|
            if addr <= a < addr + values.len() {
                values[a - addr]
            } else {
                m[a]
            },
    )
}

/// Whether `count` addresses from `addr` on lie within the 16-bit address space.
pub open spec fn in_range(addr: u16, count: u16) -> bool {
    addr + count <= 0x10000
}

/// The address field of a request.
pub open spec fn pdu_addr(pdu: Seq<u8>) -> u16 {
    word_at(pdu, 1)
}

/// The quantity or value field of a request.
pub open spec fn pdu_count(pdu: Seq<u8>) -> u16 {
    word_at(pdu, 3)
}

/// The answer to a request to read registers out of `store`.
pub open spec fn read_registers_reply(store: Map<u16, u16>, pdu: Seq<u8>) -> Result<Seq<u8>, u8> {
    if pdu.len() < 5 || pdu_count(pdu) == 0 || pdu_count(pdu) > 125 {
        Err(exception::ILLEGAL_DATA_VALUE)
    } else if !in_range(pdu_addr(pdu), pdu_count(pdu)) {
        Err(exception::ILLEGAL_DATA_ADDRESS)
    } else {
        Ok(
            seq![pdu[0], (2 * pdu_count(pdu)) as u8] + be_bytes(
                registers_from(store, pdu_addr(pdu), pdu_count(pdu) as nat),
            ),
        )
    }
}

/// The answer to a request to read bits out of `store`.
pub open spec fn read_bits_reply(store: Map<u16, bool>, pdu: Seq<u8>) -> Result<Seq<u8>, u8> {
    if pdu.len() < 5 || pdu_count(pdu) == 0 || pdu_count(pdu) > 2000 {
        Err(exception::ILLEGAL_DATA_VALUE)
    } else if !in_range(pdu_addr(pdu), pdu_count(pdu)) {
        Err(exception::ILLEGAL_DATA_ADDRESS)
    } else {
        Ok(
            seq![pdu[0], bit_bytes(pdu_count(pdu) as int) as u8] + packed(
                bits_from(store, pdu_addr(pdu), pdu_count(pdu) as nat),
            ),
        )
    }
}

/// The answer to a request to write one coil.
pub open spec fn write_coil_reply(pdu: Seq<u8>) -> Result<Seq<u8>, u8> {
    if pdu.len() < 5 || (word_at(pdu, 3) != 0xFF00 && word_at(pdu, 3) != 0) {
        Err(exception::ILLEGAL_DATA_VALUE)
    } else {
        Ok(pdu)
    }
}

/// The answer to a request to write one register.
pub open spec fn write_register_reply(pdu: Seq<u8>) -> Result<Seq<u8>, u8> {
    if pdu.len() < 5 {
        Err(exception::ILLEGAL_DATA_VALUE)
    } else {
        Ok(pdu)
    }
}

/// The answer to a request to write up to `max` values that take `bytes` bytes.
pub open spec fn write_many_reply(pdu: Seq<u8>, max: int, bytes: int) -> Result<Seq<u8>, u8> {
    if pdu.len() < 6 || pdu_count(pdu) == 0 || pdu_count(pdu) > max {
        Err(exception::ILLEGAL_DATA_VALUE)
    } else if !in_range(pdu_addr(pdu), pdu_count(pdu)) {
        Err(exception::ILLEGAL_DATA_ADDRESS)
    } else if pdu[5] != bytes || pdu.len() < 6 + bytes {
        Err(exception::ILLEGAL_DATA_VALUE)
    } else {
        Ok(pdu.take(5))
    }
}

/// The answer to a request to write several coils.
pub open spec fn write_coils_reply(pdu: Seq<u8>) -> Result<Seq<u8>, u8> {
    write_many_reply(pdu, 1968, bit_bytes(pdu_count(pdu) as int))
}

/// The answer to a request to write several registers.
pub open spec fn write_registers_reply(pdu: Seq<u8>) -> Result<Seq<u8>, u8> {
    write_many_reply(pdu, 123, 2 * pdu_count(pdu))
}

/// The answer of an image to a request: a response PDU or an exception code.
pub open spec fn reply(img: ImageModel, pdu: Seq<u8>) -> Result<Seq<u8>, u8> {
    if pdu.len() == 0 {
        Err(exception::ILLEGAL_FUNCTION)
    } else if pdu[0] == fc::READ_COILS {
        read_bits_reply(img.coils, pdu)
    } else if pdu[0] == fc::READ_DISCRETE_INPUTS {
        read_bits_reply(img.discrete_inputs, pdu)
    } else if pdu[0] == fc::READ_HOLDING_REGISTERS {
        read_registers_reply(img.holding_registers, pdu)
    } else if pdu[0] == fc::READ_INPUT_REGISTERS {
        read_registers_reply(img.input_registers, pdu)
    } else if pdu[0] == fc::WRITE_SINGLE_COIL {
        write_coil_reply(pdu)
    } else if pdu[0] == fc::WRITE_SINGLE_REGISTER {
        write_register_reply(pdu)
    } else if pdu[0] == fc::WRITE_MULTIPLE_COILS {
        write_coils_reply(pdu)
    } else if pdu[0] == fc::WRITE_MULTIPLE_REGISTERS {
        write_registers_reply(pdu)
    } else {
        Err(exception::ILLEGAL_FUNCTION)
    }
}

/// The coils after a request.
pub open spec fn coils_after(img: ImageModel, pdu: Seq<u8>) -> Map<u16, bool> {
    if reply(img, pdu) is Err {
        img.coils
    } else if pdu[0] == fc::WRITE_SINGLE_COIL {
        img.coils.insert(pdu_addr(pdu), word_at(pdu, 3) == 0xFF00)
    } else if pdu[0] == fc::WRITE_MULTIPLE_COILS {
        written(img.coils, pdu_addr(pdu), unpacked(pdu, 6, pdu_count(pdu) as nat))
    } else {
        img.coils
    }
}

/// The holding registers after a request.
pub open spec fn holdings_after(img: ImageModel, pdu: Seq<u8>) -> Map<u16, u16> {
    if reply(img, pdu) is Err {
        img.holding_registers
    } else if pdu[0] == fc::WRITE_SINGLE_REGISTER {
        img.holding_registers.insert(pdu_addr(pdu), word_at(pdu, 3))
    } else if pdu[0] == fc::WRITE_MULTIPLE_REGISTERS {
        written(img.holding_registers, pdu_addr(pdu), be_words(pdu, 6, pdu_count(pdu) as nat))
    } else {
        img.holding_registers
    }
}

/// The image after a request.
pub open spec fn after(img: ImageModel, pdu: Seq<u8>) -> ImageModel {
    ImageModel {
        coils: coils_after(img, pdu),
        holding_registers: holdings_after(img, pdu),
        ..img
    }
}

/// Whether an executed answer is the answer `want`.
pub open spec fn answers(r: Result<Vec<u8>, u8>, want: Result<Seq<u8>, u8>) -> bool {
    match r {
        Ok(v) => want == Ok::<Seq<u8>, u8>(v@),
        Err(e) => want == Err::<Seq<u8>, u8>(e),
    }
}

/// The image after a number was put into the slot `addr` of the area called `area`.
pub open spec fn slot_written(img: ImageModel, area: Seq<char>, addr: u16, v: Number) -> ImageModel {
    if area == "holding"@ {
        ImageModel { holding_registers: img.holding_registers.insert(addr, v.register()), ..img }
    } else if area == "input"@ {
        ImageModel { input_registers: img.input_registers.insert(addr, v.register()), ..img }
    } else if area == "coil"@ {
        ImageModel { coils: img.coils.insert(addr, v.nonzero()), ..img }
    } else if area == "discrete"@ {
        ImageModel { discrete_inputs: img.discrete_inputs.insert(addr, v.nonzero()), ..img }
    } else {
        img
    }
}

/// The image after the slot `addr` of the area called `area` was given up.
pub open spec fn slot_cleared(img: ImageModel, area: Seq<char>, addr: u16) -> ImageModel {
    if area == "holding"@ {
        ImageModel { holding_registers: img.holding_registers.remove(addr), ..img }
    } else if area == "input"@ {
        ImageModel { input_registers: img.input_registers.remove(addr), ..img }
    } else if area == "coil"@ {
        ImageModel { coils: img.coils.remove(addr), ..img }
    } else if area == "discrete"@ {
        ImageModel { discrete_inputs: img.discrete_inputs.remove(addr), ..img }
    } else {
        img
    }
}

fn addr_low(addr: usize) -> (r: u16)
    ensures
        r == low16(addr as int),
{
    (addr % 65536) as u16
}

impl Default for DataImage {
    fn default() -> (r: Self)
        ensures
            r@ == empty_image(),
    {
        DataImage {
            coils: HashMap::new(),
            discrete_inputs: HashMap::new(),
            input_registers: HashMap::new(),
            holding_registers: HashMap::new(),
        }
    }
}

impl DataImage {
    /// Creates an empty image. The sizes are accepted and ignored: nothing is
    /// allocated in advance.
    pub fn new(_coils: usize, _discrete: usize, _inputs: usize, _holdings: usize) -> (r: Self)
        ensures
            r@ == empty_image(),
    {
        DataImage::default()
    }

    /// Forgets everything that was written.
    pub fn reset(&mut self)
        ensures
            final(self)@ == empty_image(),
    {
        self.coils.clear();
        self.discrete_inputs.clear();
        self.input_registers.clear();
        self.holding_registers.clear();
    }

    /// Handles a request PDU and returns a response PDU, or `Err(exception_code)`.
    /// Writes change the image (FC05, FC06, FC15, FC16).
    pub fn handle_request(&mut self, pdu: &[u8]) -> (r: Result<Vec<u8>, u8>)
        ensures
            answers(r, reply(old(self)@, pdu@)),
            final(self)@ == after(old(self)@, pdu@),
    {
        if pdu.len() == 0 {
            return Err(exception::ILLEGAL_FUNCTION);
        }
        let code: u8 = pdu[0];
        if code == fc::READ_HOLDING_REGISTERS || code == fc::READ_INPUT_REGISTERS {
            self.read_registers(code, pdu)
        } else if code == fc::READ_COILS || code == fc::READ_DISCRETE_INPUTS {
            self.read_bits(code, pdu)
        } else if code == fc::WRITE_SINGLE_COIL {
            self.write_single_coil(pdu)
        } else if code == fc::WRITE_SINGLE_REGISTER {
            self.write_single_register(pdu)
        } else if code == fc::WRITE_MULTIPLE_COILS {
            self.write_multiple_coils(pdu)
        } else if code == fc::WRITE_MULTIPLE_REGISTERS {
            self.write_multiple_registers(pdu)
        } else {
            Err(exception::ILLEGAL_FUNCTION)
        }
    }

    fn read_registers(&self, code: u8, pdu: &[u8]) -> (r: Result<Vec<u8>, u8>)
        requires
            pdu@.len() > 0,
            pdu@[0] == code,
        ensures
            answers(
                r,
                read_registers_reply(
                    if code == fc::READ_HOLDING_REGISTERS {
                        self@.holding_registers
                    } else {
                        self@.input_registers
                    },
                    pdu@,
                ),
            ),
    {
        if pdu.len() < 5 {
            return Err(exception::ILLEGAL_DATA_VALUE);
        }
        let addr: u16 = make_word(pdu[1], pdu[2]);
        let count: u16 = make_word(pdu[3], pdu[4]);
        if count == 0 || count > 125 {
            return Err(exception::ILLEGAL_DATA_VALUE);
        }
        if addr as u32 + count as u32 > 0x10000 {
            return Err(exception::ILLEGAL_DATA_ADDRESS);
        }
        let store: &HashMap<u16, u16> = if code == fc::READ_HOLDING_REGISTERS {
            &self.holding_registers
        } else {
            &self.input_registers
        };
        let mut resp: Vec<u8> = Vec::new();
        resp.push(code);
        resp.push((count * 2) as u8);
        let mut i: u16 = 0;
        let ghost head = seq![code, (2 * count) as u8];
        assert(resp@ =~= head + be_bytes(registers_from(store@, addr, 0)));
        while i < count
            invariant
                i <= count <= 125,
                addr + count <= 0x10000,
                resp@ == head + be_bytes(registers_from(store@, addr, i as nat)),
            decreases count - i,
        {
            let v: u16 = match store.get(&(addr + i)) {
                Some(v) => *v,
                None => 0xFFFF,
            };
            push_word(&mut resp, v);
            assert(resp@ =~= head + be_bytes(registers_from(store@, addr, (i + 1) as nat)));
            i += 1;
        }
        Ok(resp)
    }

    fn read_bits(&self, code: u8, pdu: &[u8]) -> (r: Result<Vec<u8>, u8>)
        requires
            pdu@.len() > 0,
            pdu@[0] == code,
        ensures
            answers(
                r,
                read_bits_reply(
                    if code == fc::READ_COILS {
                        self@.coils
                    } else {
                        self@.discrete_inputs
                    },
                    pdu@,
                ),
            ),
    {
        if pdu.len() < 5 {
            return Err(exception::ILLEGAL_DATA_VALUE);
        }
        let addr: u16 = make_word(pdu[1], pdu[2]);
        let count: u16 = make_word(pdu[3], pdu[4]);
        if count == 0 || count > 2000 {
            return Err(exception::ILLEGAL_DATA_VALUE);
        }
        if addr as u32 + count as u32 > 0x10000 {
            return Err(exception::ILLEGAL_DATA_ADDRESS);
        }
        let store: &HashMap<u16, bool> = if code == fc::READ_COILS {
            &self.coils
        } else {
            &self.discrete_inputs
        };
        let mut bits: Vec<bool> = Vec::new();
        let mut i: u16 = 0;
        while i < count
            invariant
                i <= count <= 2000,
                addr + count <= 0x10000,
                bits@ == bits_from(store@, addr, i as nat),
            decreases count - i,
        {
            let on: bool = match store.get(&(addr + i)) {
                Some(v) => *v,
                None => false,
            };
            bits.push(on);
            assert(bits@ =~= bits_from(store@, addr, (i + 1) as nat));
            i += 1;
        }
        let mut resp: Vec<u8> = Vec::new();
        resp.push(code);
        resp.push(((count + 7) / 8) as u8);
        push_bytes(&mut resp, pack_bits(&bits).as_slice());
        assert(resp@ =~= seq![code, bit_bytes(count as int) as u8] + packed(bits@));
        Ok(resp)
    }

    fn write_single_coil(&mut self, pdu: &[u8]) -> (r: Result<Vec<u8>, u8>)
        requires
            pdu@.len() > 0,
            pdu@[0] == fc::WRITE_SINGLE_COIL,
        ensures
            answers(r, reply(old(self)@, pdu@)),
            final(self)@ == after(old(self)@, pdu@),
    {
        if pdu.len() < 5 {
            return Err(exception::ILLEGAL_DATA_VALUE);
        }
        let addr: u16 = make_word(pdu[1], pdu[2]);
        let raw: u16 = make_word(pdu[3], pdu[4]);
        if raw != 0xFF00 && raw != 0 {
            return Err(exception::ILLEGAL_DATA_VALUE);
        }
        self.coils.insert(addr, raw == 0xFF00);
        let echo = copy_range(pdu, 0, pdu.len());
        assert(echo@ =~= pdu@);
        Ok(echo)
    }

    fn write_single_register(&mut self, pdu: &[u8]) -> (r: Result<Vec<u8>, u8>)
        requires
            pdu@.len() > 0,
            pdu@[0] == fc::WRITE_SINGLE_REGISTER,
        ensures
            answers(r, reply(old(self)@, pdu@)),
            final(self)@ == after(old(self)@, pdu@),
    {
        if pdu.len() < 5 {
            return Err(exception::ILLEGAL_DATA_VALUE);
        }
        let addr: u16 = make_word(pdu[1], pdu[2]);
        let val: u16 = make_word(pdu[3], pdu[4]);
        self.holding_registers.insert(addr, val);
        let echo = copy_range(pdu, 0, pdu.len());
        assert(echo@ =~= pdu@);
        Ok(echo)
    }

    fn write_multiple_coils(&mut self, pdu: &[u8]) -> (r: Result<Vec<u8>, u8>)
        requires
            pdu@.len() > 0,
            pdu@[0] == fc::WRITE_MULTIPLE_COILS,
        ensures
            answers(r, reply(old(self)@, pdu@)),
            final(self)@ == after(old(self)@, pdu@),
    {
        if pdu.len() < 6 {
            return Err(exception::ILLEGAL_DATA_VALUE);
        }
        let addr: u16 = make_word(pdu[1], pdu[2]);
        let count: u16 = make_word(pdu[3], pdu[4]);
        if count == 0 || count > 1968 {
            return Err(exception::ILLEGAL_DATA_VALUE);
        }
        let byte_count: usize = pdu[5] as usize;
        if addr as u32 + count as u32 > 0x10000 {
            return Err(exception::ILLEGAL_DATA_ADDRESS);
        }
        if byte_count != (count as usize + 7) / 8 || pdu.len() < 6 + byte_count {
            return Err(exception::ILLEGAL_DATA_VALUE);
        }
        let mut i: u16 = 0;
        let ghost start = self.coils@;
        let ghost bits = unpacked(pdu@, 6, count as nat);
        assert(start =~= written(start, addr, bits.take(0)));
        while i < count
            invariant
                i <= count <= 1968,
                addr + count <= 0x10000,
                byte_count == bit_bytes(count as int),
                pdu@.len() >= 6 + byte_count,
                bits == unpacked(pdu@, 6, count as nat),
                self.coils@ == written(start, addr, bits.take(i as int)),
                self.discrete_inputs@ == old(self).discrete_inputs@,
                self.input_registers@ == old(self).input_registers@,
                self.holding_registers@ == old(self).holding_registers@,
            decreases count - i,
        {
            let bit: bool = test_bit(pdu[6 + (i / 8) as usize], (i % 8) as usize);
            self.coils.insert(addr + i, bit);
            assert(self.coils@ =~= written(start, addr, bits.take(i + 1)));
            i += 1;
        }
        assert(bits.take(i as int) =~= bits);
        let head = copy_range(pdu, 0, 5);
        assert(head@ =~= pdu@.take(5));
        Ok(head)
    }

    fn write_multiple_registers(&mut self, pdu: &[u8]) -> (r: Result<Vec<u8>, u8>)
        requires
            pdu@.len() > 0,
            pdu@[0] == fc::WRITE_MULTIPLE_REGISTERS,
        ensures
            answers(r, reply(old(self)@, pdu@)),
            final(self)@ == after(old(self)@, pdu@),
    {
        if pdu.len() < 6 {
            return Err(exception::ILLEGAL_DATA_VALUE);
        }
        let addr: u16 = make_word(pdu[1], pdu[2]);
        let count: u16 = make_word(pdu[3], pdu[4]);
        if count == 0 || count > 123 {
            return Err(exception::ILLEGAL_DATA_VALUE);
        }
        let byte_count: usize = pdu[5] as usize;
        if addr as u32 + count as u32 > 0x10000 {
            return Err(exception::ILLEGAL_DATA_ADDRESS);
        }
        if byte_count != count as usize * 2 || pdu.len() < 6 + byte_count {
            return Err(exception::ILLEGAL_DATA_VALUE);
        }
        let mut i: u16 = 0;
        let ghost start = self.holding_registers@;
        let ghost words = be_words(pdu@, 6, count as nat);
        assert(start =~= written(start, addr, words.take(0)));
        while i < count
            invariant
                i <= count <= 123,
                addr + count <= 0x10000,
                byte_count == 2 * count,
                pdu@.len() >= 6 + byte_count,
                words == be_words(pdu@, 6, count as nat),
                self.holding_registers@ == written(start, addr, words.take(i as int)),
                self.coils@ == old(self).coils@,
                self.discrete_inputs@ == old(self).discrete_inputs@,
                self.input_registers@ == old(self).input_registers@,
            decreases count - i,
        {
            let at: usize = 6 + 2 * (i as usize);
            let v: u16 = make_word(pdu[at], pdu[at + 1]);
            self.holding_registers.insert(addr + i, v);
            assert(self.holding_registers@ =~= written(start, addr, words.take(i + 1)));
            i += 1;
        }
        assert(words.take(i as int) =~= words);
        let head = copy_range(pdu, 0, 5);
        assert(head@ =~= pdu@.take(5));
        Ok(head)
    }

    /// Sets a single holding register; only the low sixteen bits of `addr` count.
    pub fn set_holding(&mut self, addr: usize, val: u16)
        ensures
            final(self)@ == (ImageModel {
                holding_registers: old(self)@.holding_registers.insert(low16(addr as int), val),
                ..old(self)@
            }),
    {
        self.holding_registers.insert(addr_low(addr), val);
    }

    /// Sets a single coil; only the low sixteen bits of `addr` count.
    pub fn set_coil(&mut self, addr: usize, on: bool)
        ensures
            final(self)@ == (ImageModel {
                coils: old(self)@.coils.insert(low16(addr as int), on),
                ..old(self)@
            }),
    {
        self.coils.insert(addr_low(addr), on);
    }

    /// Sets a single input register, so that a master can read realistic data;
    /// only the low sixteen bits of `addr` count.
    pub fn set_input(&mut self, addr: usize, val: u16)
        ensures
            final(self)@ == (ImageModel {
                input_registers: old(self)@.input_registers.insert(low16(addr as int), val),
                ..old(self)@
            }),
    {
        self.input_registers.insert(addr_low(addr), val);
    }

    /// Sets a single discrete input; only the low sixteen bits of `addr` count.
    pub fn set_discrete(&mut self, addr: usize, on: bool)
        ensures
            final(self)@ == (ImageModel {
                discrete_inputs: old(self)@.discrete_inputs.insert(low16(addr as int), on),
                ..old(self)@
            }),
    {
        self.discrete_inputs.insert(addr_low(addr), on);
    }

    /// Writes a number into a slot of the area called `area` ("holding", "input",
    /// "coil" or "discrete"); any other name changes nothing.
    pub fn write_slot(&mut self, area: &str, addr: u16, value: Number)
        ensures
            final(self)@ == slot_written(old(self)@, area@, addr, value),
    {
        if same(area, "holding") {
            self.holding_registers.insert(addr, value.clamp_u16());
        } else if same(area, "input") {
            self.input_registers.insert(addr, value.clamp_u16());
        } else if same(area, "coil") {
            self.coils.insert(addr, value.is_nonzero());
        } else if same(area, "discrete") {
            self.discrete_inputs.insert(addr, value.is_nonzero());
        }
    }

    /// Removes a slot from the area called `area`. Reading it afterwards gives what
    /// an address gives that was never written.
    pub fn clear_slot(&mut self, area: &str, addr: u16)
        ensures
            final(self)@ == slot_cleared(old(self)@, area@, addr),
    {
        if same(area, "holding") {
            self.holding_registers.remove(&addr);
        } else if same(area, "input") {
            self.input_registers.remove(&addr);
        } else if same(area, "coil") {
            self.coils.remove(&addr);
        } else if same(area, "discrete") {
            self.discrete_inputs.remove(&addr);
        }
    }
}

/// The read request for `count` values from `addr` on.
pub open spec fn read_pdu(code: u8, addr: u16, count: u16) -> Seq<u8> {
    seq![code, high(addr), low(addr), high(count), low(count)]
}

/// A refused request leaves the image as it was.
pub proof fn law_refusal_changes_nothing(img: ImageModel, pdu: Seq<u8>)
    requires
        reply(img, pdu) is Err,
    ensures
        after(img, pdu) == img,
{
}

/// A read leaves the image as it was.
pub proof fn law_read_changes_nothing(img: ImageModel, pdu: Seq<u8>)
    requires
        pdu.len() > 0,
        0x01 <= pdu[0] <= 0x04,
    ensures
        after(img, pdu) == img,
{
}

/// No request of a master changes the discrete inputs or the input registers.
pub proof fn law_input_areas_are_read_only(img: ImageModel, pdu: Seq<u8>)
    ensures
        after(img, pdu).discrete_inputs == img.discrete_inputs,
        after(img, pdu).input_registers == img.input_registers,
{
}

/// A request changes at most the addresses that it names: `count` of them for the
/// multiple writes, one for the single writes.
pub proof fn law_writes_stay_in_range(img: ImageModel, pdu: Seq<u8>, a: u16)
    requires
        pdu.len() >= 5,
        pdu[0] == fc::WRITE_MULTIPLE_COILS || pdu[0] == fc::WRITE_MULTIPLE_REGISTERS ==> !(pdu_addr(
            pdu,
        ) <= a < pdu_addr(pdu) + pdu_count(pdu)),
        pdu[0] == fc::WRITE_SINGLE_COIL || pdu[0] == fc::WRITE_SINGLE_REGISTER ==> a != pdu_addr(
            pdu,
        ),
    ensures
        after(img, pdu).coils.contains_key(a) == img.coils.contains_key(a),
        bit_at(after(img, pdu).coils, a) == bit_at(img.coils, a),
        after(img, pdu).holding_registers.contains_key(a) == img.holding_registers.contains_key(a),
        register_at(after(img, pdu).holding_registers, a) == register_at(img.holding_registers, a),
{
}

/// Refusals carry one of three exception codes: illegal function, illegal data
/// address, illegal data value.
pub proof fn law_refusal_codes(img: ImageModel, pdu: Seq<u8>, code: u8)
    requires
        reply(img, pdu) == Err::<Seq<u8>, u8>(code),
    ensures
        1 <= code <= 3,
        code == exception::ILLEGAL_FUNCTION <==> (pdu.len() == 0 || !(1 <= pdu[0] <= 6 || pdu[0]
            == 0x0F || pdu[0] == 0x10)),
{
}

/// An accepted request is answered under its own function code.
pub proof fn law_reply_keeps_function(img: ImageModel, pdu: Seq<u8>)
    requires
        reply(img, pdu) is Ok,
    ensures
        reply(img, pdu)->Ok_0.len() > 0,
        reply(img, pdu)->Ok_0[0] == pdu[0],
{
}

proof fn lemma_read_pdu(code: u8, addr: u16, count: u16)
    ensures
        pdu_addr(read_pdu(code, addr, count)) == addr,
        pdu_count(read_pdu(code, addr, count)) == count,
{
    law_word_roundtrip(addr, 0, 0);
    law_word_roundtrip(count, 0, 0);
}

/// A register that was written by itself (FC06) reads back as written (FC03).
pub proof fn law_written_register_reads_back(img: ImageModel, pdu: Seq<u8>)
    requires
        pdu.len() >= 5,
        pdu[0] == fc::WRITE_SINGLE_REGISTER,
    ensures
        reply(img, pdu) == Ok::<Seq<u8>, u8>(pdu),
        reply(after(img, pdu), read_pdu(fc::READ_HOLDING_REGISTERS, pdu_addr(pdu), 1)) == Ok::<
            Seq<u8>,
            u8,
        >(seq![fc::READ_HOLDING_REGISTERS, 2, pdu[3], pdu[4]]),
{
    let a = pdu_addr(pdu);
    lemma_read_pdu(fc::READ_HOLDING_REGISTERS, a, 1);
    let img2 = after(img, pdu);
    let rs = registers_from(img2.holding_registers, a, 1);
    law_word_roundtrip(0, pdu[3], pdu[4]);
    assert(rs[0] == word_at(pdu, 3));
    assert(seq![fc::READ_HOLDING_REGISTERS, 2u8] + be_bytes(rs) =~= seq![
        fc::READ_HOLDING_REGISTERS,
        2,
        pdu[3],
        pdu[4],
    ]);
}

/// Registers that were written together (FC16) read back as written (FC03).
pub proof fn law_written_registers_read_back(img: ImageModel, pdu: Seq<u8>)
    requires
        pdu.len() > 0,
        pdu[0] == fc::WRITE_MULTIPLE_REGISTERS,
        reply(img, pdu) is Ok,
    ensures
        reply(
            after(img, pdu),
            read_pdu(fc::READ_HOLDING_REGISTERS, pdu_addr(pdu), pdu_count(pdu)),
        ) == Ok::<Seq<u8>, u8>(
            seq![fc::READ_HOLDING_REGISTERS, pdu[5]] + pdu.subrange(6, 6 + pdu[5]),
        ),
{
    let a = pdu_addr(pdu);
    let n = pdu_count(pdu);
    lemma_read_pdu(fc::READ_HOLDING_REGISTERS, a, n);
    let ws = be_words(pdu, 6, n as nat);
    let img2 = after(img, pdu);
    assert(registers_from(img2.holding_registers, a, n as nat) =~= ws);
    law_bytes_roundtrip(pdu, 6, n as nat);
}

/// A coil that was written by itself (FC05) reads back as written (FC01).
pub proof fn law_written_coil_reads_back(img: ImageModel, pdu: Seq<u8>)
    requires
        pdu.len() >= 5,
        pdu[0] == fc::WRITE_SINGLE_COIL,
        word_at(pdu, 3) == 0xFF00 || word_at(pdu, 3) == 0,
    ensures
        reply(img, pdu) == Ok::<Seq<u8>, u8>(pdu),
        reply(after(img, pdu), read_pdu(fc::READ_COILS, pdu_addr(pdu), 1)) == Ok::<Seq<u8>, u8>(
            seq![
                fc::READ_COILS,
                1,
                if word_at(pdu, 3) == 0xFF00 {
                    1
                } else {
                    0
                },
            ],
        ),
{
    let a = pdu_addr(pdu);
    lemma_read_pdu(fc::READ_COILS, a, 1);
    let img2 = after(img, pdu);
    let bs = bits_from(img2.coils, a, 1);
    assert(bs[0] == (word_at(pdu, 3) == 0xFF00));
    assert(seq![fc::READ_COILS, 1u8] + packed(bs) =~= seq![
        fc::READ_COILS,
        1,
        if word_at(pdu, 3) == 0xFF00 {
            1
        } else {
            0
        },
    ]);
}

proof fn lemma_written_bits(m: Map<u16, bool>, addr: u16, bits: Seq<bool>)
    requires
        addr + bits.len() <= 0x10000,
    ensures
        bits_from(written(m, addr, bits), addr, bits.len()) == bits,
{
    assert(bits_from(written(m, addr, bits), addr, bits.len()) =~= bits);
}

/// Coils that were written together (FC15) read back as written (FC01), the unused
/// bits of the last byte clear.
#[verifier::spinoff_prover]
pub proof fn law_written_coils_read_back(img: ImageModel, pdu: Seq<u8>)
    requires
        pdu.len() > 0,
        pdu[0] == fc::WRITE_MULTIPLE_COILS,
        reply(img, pdu) is Ok,
    ensures
        ({
            let r = reply(
                after(img, pdu),
                read_pdu(fc::READ_COILS, pdu_addr(pdu), pdu_count(pdu)),
            );
            let bits = unpacked(pdu, 6, pdu_count(pdu) as nat);
            &&& r == Ok::<Seq<u8>, u8>(seq![fc::READ_COILS, pdu[5]] + packed(bits))
            &&& unpacked(r->Ok_0, 2, pdu_count(pdu) as nat) == bits
        }),
{
    let a = pdu_addr(pdu);
    let n = pdu_count(pdu);
    let read = read_pdu(fc::READ_COILS, a, n);
    lemma_read_pdu(fc::READ_COILS, a, n);
    let bits = unpacked(pdu, 6, n as nat);
    let head = seq![fc::READ_COILS, pdu[5]];
    let coils = after(img, pdu).coils;
    assert(coils == written(img.coils, a, bits));
    lemma_written_bits(img.coils, a, bits);
    law_bits_roundtrip(head, bits);
    assert(reply(after(img, pdu), read) == read_bits_reply(coils, read));
    assert(bit_bytes(n as int) as u8 == pdu[5]);
}

/// An image in which nothing was written answers every register read with 0xFFFF
/// and every bit read with clear bits.
pub proof fn law_unwritten_reads(addr: u16, count: u16, i: int)
    requires
        1 <= count,
        in_range(addr, count),
    ensures
        count <= 125 && 2 <= i < 2 + 2 * count ==> reply(
            empty_image(),
            read_pdu(fc::READ_HOLDING_REGISTERS, addr, count),
        )->Ok_0[i] == 0xFF && reply(
            empty_image(),
            read_pdu(fc::READ_INPUT_REGISTERS, addr, count),
        )->Ok_0[i] == 0xFF,
        count <= 2000 && 2 <= i < 2 + bit_bytes(count as int) ==> reply(
            empty_image(),
            read_pdu(fc::READ_COILS, addr, count),
        )->Ok_0[i] == 0 && reply(
            empty_image(),
            read_pdu(fc::READ_DISCRETE_INPUTS, addr, count),
        )->Ok_0[i] == 0,
{
    lemma_read_pdu(fc::READ_HOLDING_REGISTERS, addr, count);
    lemma_read_pdu(fc::READ_INPUT_REGISTERS, addr, count);
    lemma_read_pdu(fc::READ_COILS, addr, count);
    lemma_read_pdu(fc::READ_DISCRETE_INPUTS, addr, count);
}

/// A slot that was cleared reads as one that was never written, and no other slot
/// of any area changes.
pub proof fn law_cleared_slot(img: ImageModel, area: Seq<char>, addr: u16, other: u16)
    ensures
        area == "holding"@ ==> register_at(slot_cleared(img, area, addr).holding_registers, addr)
            == 0xFFFF,
        area == "input"@ ==> register_at(slot_cleared(img, area, addr).input_registers, addr)
            == 0xFFFF,
        area == "coil"@ ==> !bit_at(slot_cleared(img, area, addr).coils, addr),
        area == "discrete"@ ==> !bit_at(slot_cleared(img, area, addr).discrete_inputs, addr),
        other != addr ==> register_at(slot_cleared(img, area, addr).holding_registers, other)
            == register_at(img.holding_registers, other) && register_at(
            slot_cleared(img, area, addr).input_registers,
            other,
        ) == register_at(img.input_registers, other) && bit_at(
            slot_cleared(img, area, addr).coils,
            other,
        ) == bit_at(img.coils, other) && bit_at(
            slot_cleared(img, area, addr).discrete_inputs,
            other,
        ) == bit_at(img.discrete_inputs, other),
{
    lemma_area_names();
}

/// The four area names are different texts.
pub proof fn lemma_area_names()
    ensures
        "holding"@ != "input"@,
        "holding"@ != "coil"@,
        "holding"@ != "discrete"@,
        "input"@ != "coil"@,
        "input"@ != "discrete"@,
        "coil"@ != "discrete"@,
{
    reveal_strlit("holding");
    reveal_strlit("input");
    reveal_strlit("coil");
    reveal_strlit("discrete");
    assert("holding"@.len() == 7 && "input"@.len() == 5 && "coil"@.len() == 4 && "discrete"@.len()
        == 8);
}

/// A read of holding registers (FC03) or input registers (FC04) is answered for one to 125
/// registers within the address space: with twice their number, and each register in
/// turn, the high byte first; a register that was never written reads 0xFFFF. Any other
/// number is an illegal value, and a run that leaves the address space an illegal address.
pub proof fn law_register_reads(img: ImageModel, pdu: Seq<u8>)
    requires
        pdu.len() > 0,
        pdu[0] == 0x03 || pdu[0] == 0x04,
    ensures
        pdu.len() < 5 ==> reply(img, pdu) == Err::<Seq<u8>, u8>(3),
        pdu.len() >= 5 ==> ({
            let addr = 256 * pdu[1] + pdu[2];
            let n = 256 * pdu[3] + pdu[4];
            let area = if pdu[0] == 0x03 {
                img.holding_registers
            } else {
                img.input_registers
            };
            if n == 0 || n > 125 {
                reply(img, pdu) == Err::<Seq<u8>, u8>(3)
            } else if addr + n > 0x10000 {
                reply(img, pdu) == Err::<Seq<u8>, u8>(2)
            } else {
                &&& reply(img, pdu) is Ok
                &&& ({
                    let r = reply(img, pdu)->Ok_0;
                    &&& r.len() == 2 + 2 * n
                    &&& r[0] == pdu[0]
                    &&& r[1] == 2 * n
                    &&& forall|i: int|
                        0 <= i < n ==> 256 * #[trigger] r[2 + 2 * i] + r[3 + 2 * i] == (
                        if area.contains_key((addr + i) as u16) {
                            area[(addr + i) as u16] as int
                        } else {
                            0xFFFF
                        })
                })
            }
        }),
{
    if pdu.len() >= 5 {
        let addr = 256 * pdu[1] + pdu[2];
        let n = 256 * pdu[3] + pdu[4];
        let area = if pdu[0] == 0x03 {
            img.holding_registers
        } else {
            img.input_registers
        };
        if 0 < n <= 125 && addr + n <= 0x10000 {
            let r = reply(img, pdu)->Ok_0;
            let ws = registers_from(area, addr as u16, n as nat);
            assert forall|i: int| 0 <= i < n implies 256 * #[trigger] r[2 + 2 * i] + r[3 + 2 * i]
                == (if area.contains_key((addr + i) as u16) {
                area[(addr + i) as u16] as int
            } else {
                0xFFFF
            }) by {
                crate::wire::law_bytes_of_words(ws, i);
                assert(r[2 + 2 * i] == be_bytes(ws)[2 * i]);
                assert(r[3 + 2 * i] == be_bytes(ws)[2 * i + 1]);
            }
        }
    }
}

/// A read of coils (FC01) or discrete inputs (FC02) is answered for one to 2000 bits
/// within the address space: with the number of bytes, and each bit in turn, eight to a
/// byte, the first one least significant; a bit that was never written reads clear, and so
/// does what is left over of the last byte. Any other number is an illegal value, and a
/// run that leaves the address space an illegal address.
pub proof fn law_bit_reads(img: ImageModel, pdu: Seq<u8>)
    requires
        pdu.len() > 0,
        pdu[0] == 0x01 || pdu[0] == 0x02,
    ensures
        pdu.len() < 5 ==> reply(img, pdu) == Err::<Seq<u8>, u8>(3),
        pdu.len() >= 5 ==> ({
            let addr = 256 * pdu[1] + pdu[2];
            let n = 256 * pdu[3] + pdu[4];
            let area = if pdu[0] == 0x01 {
                img.coils
            } else {
                img.discrete_inputs
            };
            if n == 0 || n > 2000 {
                reply(img, pdu) == Err::<Seq<u8>, u8>(3)
            } else if addr + n > 0x10000 {
                reply(img, pdu) == Err::<Seq<u8>, u8>(2)
            } else {
                &&& reply(img, pdu) is Ok
                &&& ({
                    let r = reply(img, pdu)->Ok_0;
                    &&& r.len() == 2 + (n + 7) / 8
                    &&& r[0] == pdu[0]
                    &&& r[1] == (n + 7) / 8
                    &&& forall|i: int|
                        0 <= i < 8 * ((n + 7) / 8) ==> #[trigger] bit_of(r[2 + i / 8], i % 8) == (i
                            < n && area.contains_key((addr + i) as u16) && area[(addr + i) as u16])
                })
            }
        }),
{
    if pdu.len() >= 5 {
        let addr = 256 * pdu[1] + pdu[2];
        let n = 256 * pdu[3] + pdu[4];
        let area = if pdu[0] == 0x01 {
            img.coils
        } else {
            img.discrete_inputs
        };
        if 0 < n <= 2000 && addr + n <= 0x10000 {
            let r = reply(img, pdu)->Ok_0;
            let bs = bits_from(area, addr as u16, n as nat);
            assert(r == seq![pdu[0], bit_bytes(n) as u8] + packed(bs));
            assert forall|i: int| 0 <= i < 8 * ((n + 7) / 8) implies #[trigger] bit_of(
                r[2 + i / 8],
                i % 8,
            ) == (i < n && area.contains_key((addr + i) as u16) && area[(addr + i) as u16]) by {
                crate::wire::law_packed_places(bs, i);
                assert(r[2 + i / 8] == packed(bs)[i / 8]);
            }
        }
    }
}

/// A write of one coil (FC05) with the value 0xFF00 or zero is answered with the request
/// itself, and sets or clears that coil and nothing else; any other value is illegal.
pub proof fn law_single_coil_writes(img: ImageModel, pdu: Seq<u8>)
    requires
        pdu.len() > 0,
        pdu[0] == 0x05,
    ensures
        ({
            let addr = (256 * pdu[1] + pdu[2]) as u16;
            let v = 256 * pdu[3] + pdu[4];
            if pdu.len() >= 5 && (v == 0xFF00 || v == 0) {
                &&& reply(img, pdu) == Ok::<Seq<u8>, u8>(pdu)
                &&& after(img, pdu) == (ImageModel {
                    coils: img.coils.insert(addr, v == 0xFF00),
                    ..img
                })
            } else {
                reply(img, pdu) == Err::<Seq<u8>, u8>(3) && after(img, pdu) == img
            }
        }),
{
}

/// A write of one register (FC06) is answered with the request itself, and puts the value
/// into that holding register and nowhere else.
pub proof fn law_single_register_writes(img: ImageModel, pdu: Seq<u8>)
    requires
        pdu.len() > 0,
        pdu[0] == 0x06,
    ensures
        ({
            let addr = (256 * pdu[1] + pdu[2]) as u16;
            let v = (256 * pdu[3] + pdu[4]) as u16;
            if pdu.len() >= 5 {
                &&& reply(img, pdu) == Ok::<Seq<u8>, u8>(pdu)
                &&& after(img, pdu) == (ImageModel {
                    holding_registers: img.holding_registers.insert(addr, v),
                    ..img
                })
            } else {
                reply(img, pdu) == Err::<Seq<u8>, u8>(3) && after(img, pdu) == img
            }
        }),
{
}

/// A write of several coils (FC15) is carried out for one to 1968 coils within the address
/// space, where the byte count is the number of bytes that they take and that many follow,
/// whatever the image holds: the reply is the first five bytes of the request, each coil of
/// the run gets its bit, and all else stays. Any other request is refused, for its address
/// where only the run leaves the address space, else for its value.
pub proof fn law_coil_run_writes(img: ImageModel, pdu: Seq<u8>)
    requires
        pdu.len() > 0,
        pdu[0] == 0x0F,
    ensures
        ({
            let addr = 256 * pdu[1] + pdu[2];
            let n = 256 * pdu[3] + pdu[4];
            if pdu.len() < 6 || n == 0 || n > 1968 {
                reply(img, pdu) == Err::<Seq<u8>, u8>(3) && after(img, pdu) == img
            } else if addr + n > 0x10000 {
                reply(img, pdu) == Err::<Seq<u8>, u8>(2) && after(img, pdu) == img
            } else if pdu[5] != (n + 7) / 8 || pdu.len() < 6 + (n + 7) / 8 {
                reply(img, pdu) == Err::<Seq<u8>, u8>(3) && after(img, pdu) == img
            } else {
                let next = after(img, pdu);
                &&& reply(img, pdu) == Ok::<Seq<u8>, u8>(
                    seq![pdu[0], pdu[1], pdu[2], pdu[3], pdu[4]],
                )
                &&& next.holding_registers == img.holding_registers
                &&& next.input_registers == img.input_registers
                &&& next.discrete_inputs == img.discrete_inputs
                &&& forall|a: u16|
                    #![trigger next.coils.contains_key(a)]
                    #![trigger next.coils[a]]
                    if addr <= a < addr + n {
                        next.coils.contains_key(a) && next.coils[a] == bit_of(
                            pdu[6 + (a - addr) / 8],
                            (a - addr) % 8,
                        )
                    } else {
                        next.coils.contains_key(a) == img.coils.contains_key(a) && (
                        img.coils.contains_key(a) ==> next.coils[a] == img.coils[a])
                    }
            }
        }),
{
    if reply(img, pdu) is Ok {
        assert(pdu.take(5) =~= seq![pdu[0], pdu[1], pdu[2], pdu[3], pdu[4]]);
    }
}

/// A write of several registers (FC16) is carried out for one to 123 registers within the
/// address space, where the byte count is twice their number and that many bytes follow,
/// whatever the image holds: the reply is the first five bytes of the request, each
/// register of the run gets its two bytes, and all else stays. Any other request is
/// refused, for its address where only the run leaves the address space, else for its
/// value.
pub proof fn law_register_run_writes(img: ImageModel, pdu: Seq<u8>)
    requires
        pdu.len() > 0,
        pdu[0] == 0x10,
    ensures
        ({
            let addr = 256 * pdu[1] + pdu[2];
            let n = 256 * pdu[3] + pdu[4];
            if pdu.len() < 6 || n == 0 || n > 123 {
                reply(img, pdu) == Err::<Seq<u8>, u8>(3) && after(img, pdu) == img
            } else if addr + n > 0x10000 {
                reply(img, pdu) == Err::<Seq<u8>, u8>(2) && after(img, pdu) == img
            } else if pdu[5] != 2 * n || pdu.len() < 6 + 2 * n {
                reply(img, pdu) == Err::<Seq<u8>, u8>(3) && after(img, pdu) == img
            } else {
                let next = after(img, pdu);
                &&& reply(img, pdu) == Ok::<Seq<u8>, u8>(
                    seq![pdu[0], pdu[1], pdu[2], pdu[3], pdu[4]],
                )
                &&& next.coils == img.coils
                &&& next.input_registers == img.input_registers
                &&& next.discrete_inputs == img.discrete_inputs
                &&& forall|a: u16|
                    #![trigger next.holding_registers.contains_key(a)]
                    #![trigger next.holding_registers[a]]
                    if addr <= a < addr + n {
                        next.holding_registers.contains_key(a) && next.holding_registers[a] == 256
                            * pdu[6 + 2 * (a - addr)] + pdu[7 + 2 * (a - addr)]
                    } else {
                        next.holding_registers.contains_key(a)
                            == img.holding_registers.contains_key(a) && (
                        img.holding_registers.contains_key(a) ==> next.holding_registers[a]
                            == img.holding_registers[a])
                    }
            }
        }),
{
    if reply(img, pdu) is Ok {
        assert(pdu.take(5) =~= seq![pdu[0], pdu[1], pdu[2], pdu[3], pdu[4]]);
        let addr = 256 * pdu[1] + pdu[2];
        let n = 256 * pdu[3] + pdu[4];
        assert forall|i: int| 0 <= i < n implies #[trigger] be_words(pdu, 6, n as nat)[i] == 256
            * pdu[6 + 2 * i] + pdu[7 + 2 * i] by {
            crate::wire::law_words_of_bytes(pdu, 6, n as nat, i);
        }
    }
}

/// A function other than FC01 to FC06, FC15 and FC16, and a request without a function,
/// are refused as illegal functions, and change nothing.
pub proof fn law_other_functions(img: ImageModel, pdu: Seq<u8>)
    requires
        pdu.len() == 0 || !(1 <= pdu[0] <= 6 || pdu[0] == 15 || pdu[0] == 16),
    ensures
        reply(img, pdu) == Err::<Seq<u8>, u8>(1),
        after(img, pdu) == img,
{
}

/// A request of five bytes is the function, the address and a number, each with its high
/// byte first.
pub proof fn law_short_request_layout(code: u8, addr: u16, field: u16)
    ensures
        read_pdu(code, addr, field).len() == 5,
        read_pdu(code, addr, field)[0] == code,
        256 * read_pdu(code, addr, field)[1] + read_pdu(code, addr, field)[2] == addr,
        256 * read_pdu(code, addr, field)[3] + read_pdu(code, addr, field)[4] == field,
{
}

/// A number that is put into a slot stands in that slot of that area, in a register as
/// the nearest whole number and in a bit area as whether it is other than zero; no other
/// slot of any area changes, and an area that is not one of the four changes nothing.
pub proof fn law_written_slot(img: ImageModel, area: Seq<char>, addr: u16, v: Number)
    ensures
        ({
            let next = slot_written(img, area, addr, v);
            &&& next.holding_registers == (if area == "holding"@ {
                img.holding_registers.insert(addr, v.register())
            } else {
                img.holding_registers
            })
            &&& next.input_registers == (if area == "input"@ {
                img.input_registers.insert(addr, v.register())
            } else {
                img.input_registers
            })
            &&& next.coils == (if area == "coil"@ {
                img.coils.insert(addr, v.nonzero())
            } else {
                img.coils
            })
            &&& next.discrete_inputs == (if area == "discrete"@ {
                img.discrete_inputs.insert(addr, v.nonzero())
            } else {
                img.discrete_inputs
            })
        }),
{
    lemma_area_names();
}

/// A slot that is given up is no longer there, and nothing else changes.
pub proof fn law_slot_given_up(img: ImageModel, area: Seq<char>, addr: u16)
    ensures
        ({
            let next = slot_cleared(img, area, addr);
            &&& next.holding_registers == (if area == "holding"@ {
                img.holding_registers.remove(addr)
            } else {
                img.holding_registers
            })
            &&& next.input_registers == (if area == "input"@ {
                img.input_registers.remove(addr)
            } else {
                img.input_registers
            })
            &&& next.coils == (if area == "coil"@ {
                img.coils.remove(addr)
            } else {
                img.coils
            })
            &&& next.discrete_inputs == (if area == "discrete"@ {
                img.discrete_inputs.remove(addr)
            } else {
                img.discrete_inputs
            })
        }),
{
    lemma_area_names();
}

/// Whether a slot holds a number: in a register area the nearest whole number, in a bit
/// area whether it is other than zero. A text that names no area has no slots.
pub open spec fn slot_holds(img: ImageModel, area: Seq<char>, addr: u16, v: Number) -> bool {
    &&& area == "holding"@ ==> img.holding_registers.contains_pair(addr, v.register())
    &&& area == "input"@ ==> img.input_registers.contains_pair(addr, v.register())
    &&& area == "coil"@ ==> img.coils.contains_pair(addr, v.nonzero())
    &&& area == "discrete"@ ==> img.discrete_inputs.contains_pair(addr, v.nonzero())
}

/// Whether a slot holds the same in two images, or is absent in both.
pub open spec fn slot_agrees(a: ImageModel, b: ImageModel, area: Seq<char>, addr: u16) -> bool {
    &&& area == "holding"@ ==> same_entry(a.holding_registers, b.holding_registers, addr)
    &&& area == "input"@ ==> same_entry(a.input_registers, b.input_registers, addr)
    &&& area == "coil"@ ==> same_entry(a.coils, b.coils, addr)
    &&& area == "discrete"@ ==> same_entry(a.discrete_inputs, b.discrete_inputs, addr)
}

/// Whether two maps have the same at a key, or both nothing.
pub open spec fn same_entry<V>(a: Map<u16, V>, b: Map<u16, V>, k: u16) -> bool {
    a.contains_key(k) == b.contains_key(k) && (a.contains_key(k) ==> a[k] == b[k])
}

/// Whether a slot is absent from an image.
pub open spec fn slot_absent(img: ImageModel, area: Seq<char>, addr: u16) -> bool {
    &&& area == "holding"@ ==> !img.holding_registers.contains_key(addr)
    &&& area == "input"@ ==> !img.input_registers.contains_key(addr)
    &&& area == "coil"@ ==> !img.coils.contains_key(addr)
    &&& area == "discrete"@ ==> !img.discrete_inputs.contains_key(addr)
}

/// A slot that is written holds the number; one that is given up is absent; and every
/// other slot stays as it was.
pub proof fn law_slots_are_separate(
    img: ImageModel,
    area: Seq<char>,
    addr: u16,
    v: Number,
    other_area: Seq<char>,
    other: u16,
)
    ensures
        slot_holds(slot_written(img, area, addr, v), area, addr, v),
        slot_absent(slot_cleared(img, area, addr), area, addr),
        other_area != area || other != addr ==> slot_agrees(
            slot_written(img, area, addr, v),
            img,
            other_area,
            other,
        ) && slot_agrees(slot_cleared(img, area, addr), img, other_area, other),
{
    lemma_area_names();
}

/// An executed answer stands for the answer that is wanted exactly where both accept with
/// the same bytes, or both refuse with the same code.
pub proof fn law_answers(r: Result<Vec<u8>, u8>, want: Result<Seq<u8>, u8>)
    ensures
        answers(r, want) <==> match (r, want) {
            (Ok(v), Ok(s)) => v@ == s,
            (Err(e), Err(f)) => e == f,
            _ => false,
        },
{
}

/// What an image holds is what its four tables hold.
pub proof fn law_image_in_full(d: DataImage)
    ensures
        d@.coils == d.coils@,
        d@.discrete_inputs == d.discrete_inputs@,
        d@.input_registers == d.input_registers@,
        d@.holding_registers == d.holding_registers@,
{
}

} // verus!
