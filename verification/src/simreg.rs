//! Register definitions of the simulator: the configuration layer over a data image.
//! The values themselves live in the image.

use std::collections::hash_map::DefaultHasher;
use std::hash::{Hash, Hasher};
use std::time::{Duration, SystemTime, UNIX_EPOCH};
use vstd::prelude::*;
use vstd::string::*;
use crate::number::Number;
use crate::server::ImageSnapshot;
use crate::slave::{law_slots_are_separate, slot_agrees, slot_holds, slot_written, DataImage, ImageModel};
use crate::text::{decimal, fixed_digits, hex_room, law_fixed_hex_tells_apart, push_decimal, push_fixed, same};

verus! {

/// A point in time of `std::time::SystemTime`; nothing is known of its inside.
#[verifier::external_type_specification]
#[verifier::external_body]
pub struct ExSystemTime(std::time::SystemTime);

/// `SystemTime::now` of std. Nothing is claimed: the result is the time of the call.
#[verifier::external_body]
fn system_now() -> (r: SystemTime) {
    SystemTime::now()
}

/// `SystemTime::duration_since` of std, since the Unix epoch; `None` for a clock that
/// stands before it. The result rests on the argument alone; nothing is claimed of it,
/// for nothing is known of the argument.
#[verifier::external_body]
fn since_epoch(t: SystemTime) -> (r: Option<Duration>) {
    t.duration_since(UNIX_EPOCH).ok()
}

/// `Duration::as_nanos` of std. The result rests on the argument alone; nothing is
/// claimed of it, for nothing is known of the argument.
#[verifier::external_body]
fn whole_nanos(d: &Duration) -> (r: u128) {
    d.as_nanos()
}

/// `Duration::as_millis` of std. The result rests on the argument alone; nothing is
/// claimed of it, for nothing is known of the argument.
#[verifier::external_body]
fn whole_millis(d: &Duration) -> (r: u128) {
    d.as_millis()
}

/// `Hash::hash` of std for a `u128`. Nothing is claimed of the hasher afterwards: the
/// bytes that it takes in are in the byte order of the machine.
#[verifier::external_body]
fn feed(h: &mut DefaultHasher, n: u128) {
    n.hash(h)
}

/// An id as it is generated: sixteen hexadecimal digits.
pub open spec fn id_text(h: u64) -> Seq<char> {
    fixed_digits(h as nat, 16, 16, false)
}

/// Whether a text is an id that could have been generated.
pub open spec fn is_generated(id: Seq<char>) -> bool {
    exists|h: u64| id == #[trigger] id_text(h)
}

/// The id of a hash value.
pub fn id_from_hash(h: u64) -> (r: String)
    ensures
        r@ == id_text(h),
{
    let mut out = String::new();
    push_fixed(&mut out, h, 16, 16, false);
    assert(out@ =~= id_text(h));
    out
}

/// Different hash values have different ids.
pub proof fn law_hashes_have_own_ids(a: u64, b: u64)
    requires
        a != b,
    ensures
        id_text(a) != id_text(b),
{
    if id_text(a) == id_text(b) {
        reveal_with_fuel(hex_room, 17);
        law_fixed_hex_tells_apart(a as nat, b as nat, 16, false);
    }
}

/// A hash of the time in nanoseconds. Nothing is stated of it: it rests on the time.
pub(crate) fn clock_hash() -> (r: u64) {
    let nanos: u128 = match since_epoch(system_now()) {
        Some(d) => whole_nanos(&d),
        None => 0,
    };
    let mut h = DefaultHasher::new();
    feed(&mut h, nanos);
    h.finish()
}

/// Generates an id out of the time in nanoseconds. Which one is left open.
pub fn gen_id() -> (r: String)
    ensures
        is_generated(r@),
{
    id_from_hash(clock_hash())
}

/// The low 64 bits of a count of milliseconds, zero where there is none.
pub fn ms_or_zero(ms: Option<u128>) -> (r: u64)
    ensures
        r == (match ms {
            Some(n) => n % 0x1_0000_0000_0000_0000,
            None => 0,
        }),
{
    match ms {
        Some(n) => (n % 0x1_0000_0000_0000_0000) as u64,
        None => 0,
    }
}

/// The current Unix time in milliseconds. Nothing is stated of it: it is the time.
pub fn now_ms() -> (r: u64) {
    let ms = match since_epoch(system_now()) {
        Some(d) => Some(whole_millis(&d)),
        None => None,
    };
    ms_or_zero(ms)
}

/// One register definition. The value is not part of it.
#[derive(Debug)]
pub struct RegisterDef {
    pub id: String,
    /// `holding`, `input`, `coil` or `discrete`.
    pub area: String,
    pub addr: u16,
    pub name: String,
    /// `u16`, `i16`, `u32`, `i32`, `f32` or `bit`.
    pub dtype: String,
    /// `rw` or `ro`.
    pub access: String,
    /// How this register varies by itself: `off`, `sine`, `random` or `increment`.
    pub vary: String,
    pub created_at_ms: u64,
}

/// What a register definition says.
pub struct DefModel {
    pub id: Seq<char>,
    pub area: Seq<char>,
    pub addr: u16,
    pub name: Seq<char>,
    pub dtype: Seq<char>,
    pub access: Seq<char>,
    pub vary: Seq<char>,
    pub created_at_ms: u64,
}

impl View for RegisterDef {
    type V = DefModel;

    open spec fn view(&self) -> DefModel {
        DefModel {
            id: self.id@,
            area: self.area@,
            addr: self.addr,
            name: self.name@,
            dtype: self.dtype@,
            access: self.access@,
            vary: self.vary@,
            created_at_ms: self.created_at_ms,
        }
    }
}

impl Clone for RegisterDef {
    fn clone(&self) -> (r: Self)
        ensures
            r@ == self@,
    {
        RegisterDef {
            id: self.id.clone(),
            area: self.area.clone(),
            addr: self.addr,
            name: self.name.clone(),
            dtype: self.dtype.clone(),
            access: self.access.clone(),
            vary: self.vary.clone(),
            created_at_ms: self.created_at_ms,
        }
    }
}

/// What a list of register definitions says.
pub open spec fn def_models(defs: Seq<RegisterDef>) -> Seq<DefModel> {
    Seq::new(defs.len(), |i: int| defs[i]@)
}

/// A copy of a list of register definitions.
pub fn copy_defs(defs: &Vec<RegisterDef>) -> (r: Vec<RegisterDef>)
    ensures
        def_models(r@) == def_models(defs@),
{
    let mut out: Vec<RegisterDef> = Vec::new();
    let mut i: usize = 0;
    while i < defs.len()
        invariant
            i <= defs@.len(),
            out@.len() == i,
            forall|k: int| 0 <= k < i ==> (#[trigger] out@[k])@ == defs@[k]@,
        decreases defs@.len() - i,
    {
        out.push(defs[i].clone());
        i += 1;
    }
    assert(def_models(out@) =~= def_models(defs@));
    out
}

/// What an editor submits to add or change a register.
#[derive(Debug, Clone)]
pub struct RegInput {
    pub area: String,
    pub addr: u16,
    pub name: String,
    pub dtype: String,
    pub access: String,
    pub vary: String,
    /// The value to put into the slot: set or clear in a bit area, clamped to the
    /// register range in a register area.
    pub value: Number,
}

/// Register definitions of a unit with a snapshot of its values.
#[derive(Debug, Clone)]
pub struct RegListResp {
    pub unit_id: u8,
    pub defs: Vec<RegisterDef>,
    pub snapshot: ImageSnapshot,
}

/// A sample register: a definition and an initial value.
#[derive(Debug)]
pub struct RegSample {
    pub def: RegisterDef,
    pub value: Number,
}

/// The name of an area, as shown to the user.
pub open spec fn area_label_text(area: Seq<char>) -> Seq<char> {
    if area == "holding"@ {
        "保持寄存器"@
    } else if area == "input"@ {
        "输入寄存器"@
    } else if area == "coil"@ {
        "线圈"@
    } else if area == "discrete"@ {
        "离散输入"@
    } else {
        "未知区域"@
    }
}

/// The name of an area, as shown to the user.
pub fn area_label(area: &str) -> (r: &'static str)
    ensures
        r@ == area_label_text(area@),
{
    if same(area, "holding") {
        "保持寄存器"
    } else if same(area, "input") {
        "输入寄存器"
    } else if same(area, "coil") {
        "线圈"
    } else if same(area, "discrete") {
        "离散输入"
    } else {
        "未知区域"
    }
}

/// The definition of a sample register.
pub open spec fn sample_def(
    k: nat,
    area: Seq<char>,
    addr: u16,
    name: Seq<char>,
    dtype: Seq<char>,
    access: Seq<char>,
    vary: Seq<char>,
) -> DefModel {
    DefModel {
        id: "seed_"@ + decimal(k),
        area,
        addr,
        name,
        dtype,
        access,
        vary,
        created_at_ms: 0,
    }
}

/// The definitions of the sample registers.
pub open spec fn sample_defs() -> Seq<DefModel> {
    seq![
        sample_def(1, "holding"@, 0, "电压"@, "u16"@, "rw"@, "sine"@),
        sample_def(2, "holding"@, 1, "电流"@, "u16"@, "rw"@, "increment"@),
        sample_def(3, "holding"@, 2, "功率"@, "i16"@, "rw"@, "off"@),
        sample_def(4, "input"@, 0, "温度"@, "i16"@, "ro"@, "off"@),
        sample_def(5, "input"@, 1, "湿度"@, "u16"@, "ro"@, "off"@),
        sample_def(6, "coil"@, 0, "主继电器"@, "bit"@, "rw"@, "off"@),
        sample_def(7, "coil"@, 1, "备用继电器"@, "bit"@, "rw"@, "off"@),
        sample_def(8, "discrete"@, 0, "运行状态"@, "bit"@, "ro"@, "off"@),
    ]
}

/// The initial values of the sample registers: 220, 10, 0, 25, 55, 0, 0 and 1.
pub open spec fn sample_values() -> Seq<Number> {
    seq![
        Number { bits: 0x406B_8000_0000_0000 },
        Number { bits: 0x4024_0000_0000_0000 },
        Number { bits: 0 },
        Number { bits: 0x4039_0000_0000_0000 },
        Number { bits: 0x404B_8000_0000_0000 },
        Number { bits: 0 },
        Number { bits: 0 },
        Number { bits: 0x3FF0_0000_0000_0000 },
    ]
}

/// An image after values were put into the slots of definitions, in order.
pub open spec fn slots_written(img: ImageModel, defs: Seq<DefModel>, values: Seq<Number>) -> ImageModel
    decreases defs.len(),
{
    if defs.len() == 0 {
        img
    } else {
        let n = defs.len() - 1;
        slot_written(
            slots_written(img, defs.drop_last(), values),
            defs[n].area,
            defs[n].addr,
            values[n],
        )
    }
}

fn sample(
    k: u64,
    area: &str,
    addr: u16,
    name: &str,
    dtype: &str,
    access: &str,
    vary: &str,
    bits: u64,
) -> (r: RegSample)
    ensures
        r.def@ == sample_def(k as nat, area@, addr, name@, dtype@, access@, vary@),
        r.value == (Number { bits }),
{
    let mut id = "seed_".to_owned();
    push_decimal(&mut id, k);
    RegSample {
        def: RegisterDef {
            id,
            area: area.to_owned(),
            addr,
            name: name.to_owned(),
            dtype: dtype.to_owned(),
            access: access.to_owned(),
            vary: vary.to_owned(),
            created_at_ms: 0,
        },
        value: Number { bits },
    }
}

/// The sample registers that a fresh unit starts with. The voltage follows a sine and
/// the current counts up, so that one sees registers vary independently.
pub fn default_reg_samples() -> (r: Vec<RegSample>)
    ensures
        r@.len() == sample_defs().len(),
        forall|i: int| 0 <= i < r@.len() ==> (#[trigger] r@[i]).def@ == sample_defs()[i],
        forall|i: int| 0 <= i < r@.len() ==> (#[trigger] r@[i]).value == sample_values()[i],
{
    let mut out: Vec<RegSample> = Vec::new();
    out.push(sample(1, "holding", 0, "电压", "u16", "rw", "sine", 0x406B_8000_0000_0000));
    out.push(sample(2, "holding", 1, "电流", "u16", "rw", "increment", 0x4024_0000_0000_0000));
    out.push(sample(3, "holding", 2, "功率", "i16", "rw", "off", 0));
    out.push(sample(4, "input", 0, "温度", "i16", "ro", "off", 0x4039_0000_0000_0000));
    out.push(sample(5, "input", 1, "湿度", "u16", "ro", "off", 0x404B_8000_0000_0000));
    out.push(sample(6, "coil", 0, "主继电器", "bit", "rw", "off", 0));
    out.push(sample(7, "coil", 1, "备用继电器", "bit", "rw", "off", 0));
    out.push(sample(8, "discrete", 0, "运行状态", "bit", "ro", "off", 0x3FF0_0000_0000_0000));
    out
}

/// Puts the sample values into an image and returns the sample definitions.
pub fn seed(img: &mut DataImage) -> (r: Vec<RegisterDef>)
    ensures
        def_models(r@) == sample_defs(),
        final(img)@ == slots_written(old(img)@, sample_defs(), sample_values()),
{
    let samples = default_reg_samples();
    let mut defs: Vec<RegisterDef> = Vec::new();
    let mut i: usize = 0;
    let ghost start = img@;
    assert(sample_defs().take(0) =~= Seq::<DefModel>::empty());
    while i < samples.len()
        invariant
            i <= samples@.len() == sample_defs().len(),
            forall|k: int|
                0 <= k < samples@.len() ==> (#[trigger] samples@[k]).def@ == sample_defs()[k],
            forall|k: int|
                0 <= k < samples@.len() ==> (#[trigger] samples@[k]).value == sample_values()[k],
            def_models(defs@) == sample_defs().take(i as int),
            img@ == slots_written(start, sample_defs().take(i as int), sample_values()),
        decreases samples@.len() - i,
    {
        let def: RegisterDef = samples[i].def.clone();
        img.write_slot(def.area.as_str(), def.addr, samples[i].value);
        defs.push(def);
        proof {
            let next = sample_defs().take(i + 1);
            assert(next.drop_last() =~= sample_defs().take(i as int));
            assert(next[i as int] == sample_defs()[i as int]);
            assert(def_models(defs@) =~= next);
        }
        i += 1;
    }
    assert(sample_defs().take(i as int) =~= sample_defs());
    defs
}

/// A generated id is sixteen small hexadecimal digits, the most significant first.
pub proof fn law_id_digits(h: u64, i: int)
    requires
        0 <= i < 16,
    ensures
        id_text(h).len() == 16,
        id_text(h)[i] == crate::text::digit_char(
            (h as int / vstd::arithmetic::power::pow(16, (15 - i) as nat)) % 16,
            false,
        ),
{
    crate::text::law_fixed_places(h as nat, 16, 16, false, i);
}

/// What a list of definitions says, it says in order, of each one all of its fields.
pub proof fn law_definitions_in_full(defs: Seq<RegisterDef>, i: int)
    requires
        0 <= i < defs.len(),
    ensures
        def_models(defs).len() == defs.len(),
        ({
            let m = def_models(defs)[i];
            let d = defs[i];
            &&& m == d@
            &&& m.id == d.id@ && m.area == d.area@ && m.addr == d.addr && m.name == d.name@
            &&& m.dtype == d.dtype@ && m.access == d.access@ && m.vary == d.vary@
            &&& m.created_at_ms == d.created_at_ms
        }),
{
}

/// Each area has a name of its own, and any other text the name of an unknown area.
pub proof fn law_area_labels(area: Seq<char>)
    ensures
        area == "holding"@ <==> area_label_text(area) == "保持寄存器"@,
        area == "input"@ <==> area_label_text(area) == "输入寄存器"@,
        area == "coil"@ <==> area_label_text(area) == "线圈"@,
        area == "discrete"@ <==> area_label_text(area) == "离散输入"@,
        area != "holding"@ && area != "input"@ && area != "coil"@ && area != "discrete"@
            ==> area_label_text(area) == "未知区域"@,
{
    crate::slave::lemma_area_names();
    reveal_strlit("保持寄存器");
    reveal_strlit("输入寄存器");
    reveal_strlit("线圈");
    reveal_strlit("离散输入");
    reveal_strlit("未知区域");
    assert("保持寄存器"@[0] == '保' && "输入寄存器"@[0] == '输' && "线圈"@[0] == '线'
        && "离散输入"@[0] == '离' && "未知区域"@[0] == '未');
}

/// Values that are put into the slots of definitions stand in them, each in its own, and
/// no other slot changes.
pub proof fn law_seeded_slots(
    img: ImageModel,
    defs: Seq<DefModel>,
    values: Seq<Number>,
    area: Seq<char>,
    addr: u16,
)
    requires
        forall|a: int, b: int|
            0 <= a < b < defs.len() ==> (#[trigger] defs[a]).area != (#[trigger] defs[b]).area
                || defs[a].addr != defs[b].addr,
    ensures
        forall|j: int|
            0 <= j < defs.len() && (#[trigger] defs[j]).area == area && defs[j].addr == addr
                ==> slot_holds(slots_written(img, defs, values), area, addr, values[j]),
        (forall|j: int|
            0 <= j < defs.len() ==> (#[trigger] defs[j]).area != area || defs[j].addr != addr)
            ==> slot_agrees(slots_written(img, defs, values), img, area, addr),
    decreases defs.len(),
{
    if defs.len() > 0 {
        let front = defs.drop_last();
        let n = defs.len() - 1;
        let mid = slots_written(img, front, values);
        assert forall|a: int, b: int| 0 <= a < b < front.len() implies (#[trigger] front[a]).area
            != (#[trigger] front[b]).area || front[a].addr != front[b].addr by {
            assert(front[a] == defs[a] && front[b] == defs[b]);
        }
        law_seeded_slots(img, front, values, area, addr);
        law_slots_are_separate(mid, defs[n].area, defs[n].addr, values[n], area, addr);
        let end = slots_written(img, defs, values);
        assert forall|j: int|
            0 <= j < defs.len() && (#[trigger] defs[j]).area == area && defs[j].addr
                == addr implies slot_holds(end, area, addr, values[j]) by {
            if j < n {
                assert(front[j] == defs[j]);
                assert(defs[j].area != defs[n].area || defs[j].addr != defs[n].addr);
                assert(slot_agrees(end, mid, area, addr));
                assert(slot_holds(mid, area, addr, values[j]));
            }
        }
        if forall|j: int|
            0 <= j < defs.len() ==> (#[trigger] defs[j]).area != area || defs[j].addr != addr {
            assert forall|j: int| 0 <= j < front.len() implies (#[trigger] front[j]).area != area
                || front[j].addr != addr by {
                assert(front[j] == defs[j]);
            }
            assert(defs[n].area != area || defs[n].addr != addr);
        }
    }
}

} // verus!
