//! The state of the simulator: the units that are simulated, each with a data image and
//! a register registry of its own.

use std::collections::HashMap;
use vstd::prelude::*;
use vstd::string::*;
use crate::number::Number;
use crate::registry::{areas_ruled, batch_defs, batch_image, changed, def_of, first_id, free_id, id_known, ids_distinct, image_changed, import_rows, import_rows_model, in_order, is_slot, is_stamped, keyword_of, law_add_keeps_ids_distinct, law_add_keeps_slots_distinct, law_delete_keeps_slots_distinct, law_samples_are_in_order, law_update_keeps_slots_distinct, lemma_first_id_exists, list_defs, listed, names_ruled, occupied_text, reg_add, reg_add_batch, reg_delete, reg_seed, reg_update, row_texts, slot_taken, slot_taken_by_other, slots_distinct, taken_text, BatchInput, ImportModel};
use crate::server::{models, new_shared_image, snapshot_from, units_after, ImageSnapshot, SharedImage, UnitImages};
use crate::simreg::{clock_hash, copy_defs, def_models, law_seeded_slots, is_generated, now_ms, sample_defs, sample_values, seed, slots_written, DefModel, RegInput, RegListResp, RegisterDef};
use crate::simulator::{is_unchanged, sampled, varied_all, Simulator, VaryMode};
use crate::slave::{after, empty_image, slot_absent, slot_agrees, slot_cleared, slot_holds, slot_written, DataImage, ImageModel};
use crate::text::{ascii_rule, decimal, push_decimal, same, trimmed};
use crate::wire::low16;

verus! {

/// No connection.
pub const CONN_NONE: u8 = 0;

/// Connected over TCP.
pub const CONN_TCP: u8 = 1;

/// Connected over a serial line.
pub const CONN_RTU: u8 = 2;

/// Connected over UDP.
pub const CONN_UDP: u8 = 3;

/// No running mode of the slave.
pub const SLAVE_NONE: u8 = 0;

/// Modbus TCP: MBAP frames on a TCP port.
pub const SLAVE_TCP: u8 = 1;

/// Modbus UDP: MBAP frames in datagrams.
pub const SLAVE_UDP: u8 = 2;

/// Modbus RTU on a serial line.
pub const SLAVE_RTU: u8 = 4;

/// RTU frames over a TCP stream.
pub const SLAVE_RTU_TCP: u8 = 8;

/// RTU frames in datagrams.
pub const SLAVE_RTU_UDP: u8 = 16;

/// A simulated unit: its id and its register registry. Its data image stands in the
/// table that the servers read.
#[derive(Debug)]
pub struct SimUnit {
    pub unit_id: u8,
    pub regs: Vec<RegisterDef>,
}

/// What a simulated unit holds.
pub struct UnitModel {
    pub unit_id: u8,
    pub regs: Seq<DefModel>,
    pub image: ImageModel,
}

/// A unit as it is created: with the sample registers and their values.
pub open spec fn fresh_unit(unit_id: u8) -> UnitModel {
    UnitModel {
        unit_id,
        regs: sample_defs(),
        image: slots_written(empty_image(), sample_defs(), sample_values()),
    }
}

/// Creates a unit with the sample registers, and its data image.
pub fn new_sim_unit(unit_id: u8) -> (r: (SimUnit, SharedImage))
    ensures
        r.0.unit_id == unit_id,
        def_models(r.0.regs@) == fresh_unit(unit_id).regs,
        r.1@ == fresh_unit(unit_id).image,
{
    let mut image = new_shared_image();
    let regs = seed(&mut image);
    (SimUnit { unit_id, regs }, image)
}

/// The units that are simulated, in the order in which they were added, and the table
/// of their data images.
#[derive(Debug)]
pub struct SimUnits {
    pub units: Vec<SimUnit>,
    pub images: UnitImages,
}

impl View for SimUnits {
    type V = Seq<UnitModel>;

    open spec fn view(&self) -> Seq<UnitModel> {
        Seq::new(
            self.units@.len(),
            |i: int|
                UnitModel {
                    unit_id: self.units@[i].unit_id,
                    regs: def_models(self.units@[i].regs@),
                    image: self.images@[self.units@[i].unit_id]@,
                },
        )
    }
}

/// Whether a unit is configured.
pub open spec fn configured(units: Seq<UnitModel>, unit_id: u8) -> bool {
    exists|i: int| 0 <= i < units.len() && (#[trigger] units[i]).unit_id == unit_id
}

/// Where a unit stands.
pub open spec fn place_of(units: Seq<UnitModel>, unit_id: u8) -> int {
    choose|i: int| 0 <= i < units.len() && (#[trigger] units[i]).unit_id == unit_id
}

/// What is said of a unit that is not configured.
pub open spec fn missing_text(unit_id: u8) -> Seq<char> {
    "Unit ID "@ + decimal(unit_id as nat) + " 未配置"@
}

/// The unit that a command is for: unit 1 unless another is named.
pub open spec fn target(unit_id: Option<u8>) -> u8 {
    match unit_id {
        Some(n) => n,
        None => 1,
    }
}

/// The unit that a command is for: unit 1 unless another is named.
pub fn target_of(unit_id: Option<u8>) -> (r: u8)
    ensures
        r == target(unit_id),
{
    match unit_id {
        Some(n) => n,
        None => 1,
    }
}

/// The units after the image of one of them became `image`.
pub open spec fn with_image(units: Seq<UnitModel>, unit_id: u8, image: ImageModel) -> Seq<UnitModel> {
    let k = place_of(units, unit_id);
    units.update(k, UnitModel { image, ..units[k] })
}

/// The units after the registers and the image of one of them became others.
pub open spec fn with_regs(
    units: Seq<UnitModel>,
    unit_id: u8,
    regs: Seq<DefModel>,
    image: ImageModel,
) -> Seq<UnitModel> {
    let k = place_of(units, unit_id);
    units.update(k, UnitModel { regs, image, ..units[k] })
}

/// The registers of an area whose vary text is other than "off", with the modes that the
/// texts stand for.
pub open spec fn vary_list(defs: Seq<DefModel>, area: Seq<char>) -> Seq<(u16, VaryMode)>
    decreases defs.len(),
{
    if defs.len() == 0 {
        Seq::empty()
    } else {
        let d = defs.last();
        let front = vary_list(defs.drop_last(), area);
        if d.vary != "off"@ && d.area == area {
            front.push((d.addr, VaryMode::named(d.vary)))
        } else {
            front
        }
    }
}

/// Whether a unit takes a tick in a round: the vary text of some register of it is other
/// than "off".
pub open spec fn takes_tick(u: UnitModel) -> bool {
    vary_list(u.regs, "holding"@).len() > 0 || vary_list(u.regs, "input"@).len() > 0
}

/// The image of a unit after its registers have varied at a tick.
pub open spec fn varied_image(u: UnitModel, tick: u64, sine: Map<u16, u16>) -> ImageModel {
    ImageModel {
        holding_registers: varied_all(
            u.image.holding_registers,
            tick,
            vary_list(u.regs, "holding"@),
            sine,
        ),
        input_registers: varied_all(
            u.image.input_registers,
            tick,
            vary_list(u.regs, "input"@),
            sine,
        ),
        ..u.image
    }
}

/// The holding registers and the input registers whose vary text is other than "off",
/// with the modes that the texts stand for.
pub fn vary_lists(regs: &Vec<RegisterDef>) -> (r: (Vec<(u16, VaryMode)>, Vec<(u16, VaryMode)>))
    ensures
        r.0@ == vary_list(def_models(regs@), "holding"@),
        r.1@ == vary_list(def_models(regs@), "input"@),
{
    let mut holding: Vec<(u16, VaryMode)> = Vec::new();
    let mut input: Vec<(u16, VaryMode)> = Vec::new();
    let ghost m = def_models(regs@);
    let mut i: usize = 0;
    proof {
        crate::slave::lemma_area_names();
        assert(m.take(0) =~= Seq::empty());
    }
    while i < regs.len()
        invariant
            i <= regs@.len(),
            m == def_models(regs@),
            "holding"@ != "input"@,
            holding@ == vary_list(m.take(i as int), "holding"@),
            input@ == vary_list(m.take(i as int), "input"@),
        decreases regs@.len() - i,
    {
        proof {
            let next = m.take(i + 1);
            assert(next.drop_last() =~= m.take(i as int));
            assert(next.last() == regs@[i as int]@);
        }
        if !same(regs[i].vary.as_str(), "off") {
            let mode = VaryMode::parse(regs[i].vary.as_str());
            if same(regs[i].area.as_str(), "holding") {
                holding.push((regs[i].addr, mode));
            } else if same(regs[i].area.as_str(), "input") {
                input.push((regs[i].addr, mode));
            }
        }
        i += 1;
    }
    assert(m.take(i as int) =~= m);
    (holding, input)
}

impl SimUnits {
    /// Unit ids are from 1 to 247 and each stands once, there is at least one unit, the
    /// image table has exactly the units, and the registry of each unit is in order.
    pub open spec fn wf(&self) -> bool {
        &&& self.units@.len() > 0
        &&& forall|i: int| 0 <= i < self.units@.len() ==> 1 <= (#[trigger] self.units@[i]).unit_id <= 247
        &&& forall|i: int, j: int|
            0 <= i < j < self.units@.len() ==> (#[trigger] self.units@[i]).unit_id != (
            #[trigger] self.units@[j]).unit_id
        &&& forall|id: u8| #[trigger]
            self.images@.contains_key(id) <==> exists|i: int|
                0 <= i < self.units@.len() && (#[trigger] self.units@[i]).unit_id == id
        &&& forall|i: int|
            0 <= i < self.units@.len() ==> in_order(def_models((#[trigger] self.units@[i]).regs@))
    }

    proof fn lemma_in_order(&self, k: int)
        requires
            self.wf(),
            0 <= k < self.units@.len(),
        ensures
            in_order(def_models(self.units@[k].regs@)),
    {
    }

    proof fn lemma_place(&self, unit_id: u8, k: int)
        requires
            self.wf(),
            0 <= k < self.units@.len(),
            self.units@[k].unit_id == unit_id,
        ensures
            configured(self@, unit_id),
            place_of(self@, unit_id) == k,
            self.images@.contains_key(unit_id),
    {
        assert(self@[k].unit_id == unit_id);
        let p = place_of(self@, unit_id);
        assert(self@[p].unit_id == unit_id);
        assert(self.units@[p].unit_id == unit_id);
    }

    proof fn lemma_replaced(&self, before: &SimUnits, unit_id: u8, k: int, img: DataImage)
        requires
            before.wf(),
            0 <= k < before.units@.len(),
            before.units@[k].unit_id == unit_id,
            self.units@.len() == before.units@.len(),
            self.units@[k].unit_id == unit_id,
            forall|i: int|
                0 <= i < self.units@.len() && i != k ==> #[trigger] self.units@[i]
                    == before.units@[i],
            self.images@ == before.images@.insert(unit_id, img),
            in_order(def_models(self.units@[k].regs@)),
        ensures
            self.wf(),
            self@ == before@.update(
                k,
                UnitModel { unit_id, regs: def_models(self.units@[k].regs@), image: img@ },
            ),
    {
        before.lemma_place(unit_id, k);
        assert forall|i: int| 0 <= i < self.units@.len() implies (#[trigger] self.units@[i]).unit_id
            == before.units@[i].unit_id by {}
        assert forall|id: u8| #[trigger]
            self.images@.contains_key(id) <==> exists|i: int|
                0 <= i < self.units@.len() && (#[trigger] self.units@[i]).unit_id == id by {
            assert(self.images@.contains_key(id) == before.images@.contains_key(id));
            if before.images@.contains_key(id) {
                let i = choose|i: int|
                    0 <= i < before.units@.len() && (#[trigger] before.units@[i]).unit_id == id;
                assert(self.units@[i].unit_id == id);
            }
            if exists|i: int| 0 <= i < self.units@.len() && (#[trigger] self.units@[i]).unit_id == id {
                let i = choose|i: int|
                    0 <= i < self.units@.len() && (#[trigger] self.units@[i]).unit_id == id;
                assert(before.units@[i].unit_id == id);
            }
        }
        let want = before@.update(
            k,
            UnitModel { unit_id, regs: def_models(self.units@[k].regs@), image: img@ },
        );
        assert forall|i: int| 0 <= i < self@.len() implies self@[i] == want[i] by {
            if i != k {
                assert(before.units@[i].unit_id != unit_id) by {
                    if i < k {
                        assert(before.units@[i].unit_id != before.units@[k].unit_id);
                    } else {
                        assert(before.units@[k].unit_id != before.units@[i].unit_id);
                    }
                }
            }
        }
        assert(self@ =~= want);
    }

    /// One unit, with the id 1.
    pub fn new() -> (r: Self)
        ensures
            r.wf(),
            r@ == seq![fresh_unit(1)],
    {
        let (unit, image) = new_sim_unit(1);
        let mut units: Vec<SimUnit> = Vec::new();
        units.push(unit);
        let mut images: UnitImages = HashMap::new();
        images.insert(1, image);
        let r = SimUnits { units, images };
        proof {
            law_samples_are_in_order();
        }
        assert(r.units@[0].unit_id == 1);
        assert(r@ =~= seq![fresh_unit(1)]);
        r
    }

    fn find(&self, unit_id: u8) -> (r: Result<usize, String>)
        requires
            self.wf(),
        ensures
            match r {
                Ok(k) => {
                    &&& k < self.units@.len()
                    &&& self.units@[k as int].unit_id == unit_id
                    &&& configured(self@, unit_id)
                    &&& place_of(self@, unit_id) == k
                    &&& self.images@.contains_key(unit_id)
                },
                Err(m) => !configured(self@, unit_id) && m@ == missing_text(unit_id),
            },
    {
        let mut i: usize = 0;
        while i < self.units.len()
            invariant
                i <= self.units@.len(),
                self.wf(),
                forall|j: int| 0 <= j < i ==> (#[trigger] self.units@[j]).unit_id != unit_id,
            decreases self.units@.len() - i,
        {
            if self.units[i].unit_id == unit_id {
                proof {
                    self.lemma_place(unit_id, i as int);
                }
                return Ok(i);
            }
            i += 1;
        }
        proof {
            if configured(self@, unit_id) {
                let p = place_of(self@, unit_id);
                assert(self@[p].unit_id == unit_id);
                assert(self.units@[p].unit_id == unit_id);
            }
        }
        let mut m = "Unit ID ".to_owned();
        push_decimal(&mut m, unit_id as u64);
        m.append(" 未配置");
        Err(m)
    }

    fn take_image(&mut self, unit_id: u8) -> (r: DataImage)
        requires
            old(self).images@.contains_key(unit_id),
        ensures
            final(self).units@ == old(self).units@,
            final(self).images@ == old(self).images@.remove(unit_id),
            r == old(self).images@[unit_id],
    {
        match self.images.remove(&unit_id) {
            Some(img) => img,
            None => DataImage::default(),
        }
    }

    fn put_image(&mut self, Ghost(before): Ghost<SimUnits>, k: usize, img: DataImage)
        requires
            before.wf(),
            k < before.units@.len(),
            old(self).units@.len() == before.units@.len(),
            old(self).units@[k as int].unit_id == before.units@[k as int].unit_id,
            forall|i: int|
                0 <= i < before.units@.len() && i != k ==> #[trigger] old(self).units@[i]
                    == before.units@[i],
            old(self).images@ == before.images@.remove(before.units@[k as int].unit_id),
            in_order(def_models(old(self).units@[k as int].regs@)),
        ensures
            final(self).wf(),
            final(self)@ == before@.update(
                k as int,
                UnitModel {
                    unit_id: before.units@[k as int].unit_id,
                    regs: def_models(old(self).units@[k as int].regs@),
                    image: img@,
                },
            ),
    {
        let unit_id: u8 = self.units[k].unit_id;
        let ghost seen = img;
        self.images.insert(unit_id, img);
        proof {
            assert(self.images@ =~= before.images@.insert(unit_id, seen));
            self.lemma_replaced(&before, unit_id, k as int, seen);
        }
    }

    /// The units with the number of their registers.
    pub fn unit_list(&self) -> (r: Vec<(u8, usize)>)
        requires
            self.wf(),
        ensures
            r@ == Seq::new(
                self@.len(),
                |i: int| (self@[i].unit_id, self@[i].regs.len() as usize),
            ),
    {
        let mut out: Vec<(u8, usize)> = Vec::new();
        let mut i: usize = 0;
        while i < self.units.len()
            invariant
                i <= self.units@.len(),
                out@.len() == i,
                forall|j: int|
                    0 <= j < i ==> #[trigger] out@[j] == (
                        self@[j].unit_id,
                        self@[j].regs.len() as usize,
                    ),
            decreases self.units@.len() - i,
        {
            let n: usize = self.units[i].regs.len();
            out.push((self.units[i].unit_id, n));
            i += 1;
        }
        assert(out@ =~= Seq::new(
            self@.len(),
            |i: int| (self@[i].unit_id, self@[i].regs.len() as usize),
        ));
        out
    }

    /// Adds a unit with the sample registers. Refused for an id outside 1..=247 and for
    /// one that is there.
    pub fn unit_add(&mut self, unit_id: u8) -> (r: Result<(), String>)
        requires
            old(self).wf(),
        ensures
            final(self).wf(),
            match r {
                Ok(_) => {
                    &&& 1 <= unit_id <= 247
                    &&& !configured(old(self)@, unit_id)
                    &&& final(self)@ == old(self)@.push(fresh_unit(unit_id))
                },
                Err(m) => {
                    &&& !(1 <= unit_id <= 247) || configured(old(self)@, unit_id)
                    &&& m@ == (if 1 <= unit_id <= 247 {
                        "Unit ID "@ + decimal(unit_id as nat) + " 已存在"@
                    } else {
                        "Unit ID 须在 1 ~ 247"@
                    })
                    &&& final(self)@ == old(self)@
                },
            },
    {
        if unit_id == 0 || unit_id > 247 {
            return Err("Unit ID 须在 1 ~ 247".to_owned());
        }
        match self.find(unit_id) {
            Ok(_) => {
                let mut m = "Unit ID ".to_owned();
                push_decimal(&mut m, unit_id as u64);
                m.append(" 已存在");
                Err(m)
            },
            Err(_) => {
                let ghost before = *self;
                let (unit, image) = new_sim_unit(unit_id);
                let ghost seen = unit;
                self.units.push(unit);
                self.images.insert(unit_id, image);
                proof {
                    assert forall|i: int| 0 <= i < before.units@.len() implies (
                    #[trigger] before.units@[i]).unit_id != unit_id by {
                        assert(before@[i].unit_id == before.units@[i].unit_id);
                    }
                    assert(self.units@[before.units@.len() as int] == seen);
                    law_samples_are_in_order();
                    assert forall|i: int| 0 <= i < self.units@.len() implies in_order(
                        def_models((#[trigger] self.units@[i]).regs@),
                    ) by {
                        if i < before.units@.len() {
                            before.lemma_in_order(i);
                        }
                    }
                    assert forall|id: u8| #[trigger]
                        self.images@.contains_key(id) <==> exists|i: int|
                            0 <= i < self.units@.len() && (#[trigger] self.units@[i]).unit_id == id by {
                        if id != unit_id && before.images@.contains_key(id) {
                            let i = choose|i: int|
                                0 <= i < before.units@.len() && (
                                #[trigger] before.units@[i]).unit_id == id;
                            assert(self.units@[i].unit_id == id);
                        }
                        if exists|i: int|
                            0 <= i < self.units@.len() && (#[trigger] self.units@[i]).unit_id == id {
                            let i = choose|i: int|
                                0 <= i < self.units@.len() && (#[trigger] self.units@[i]).unit_id
                                    == id;
                            if i < before.units@.len() {
                                assert(before.units@[i].unit_id == id);
                            }
                        }
                    }
                    let want = before@.push(fresh_unit(unit_id));
                    assert forall|i: int| 0 <= i < want.len() implies self@[i] == want[i] by {
                        if i < before.units@.len() {
                            assert(before.units@[i].unit_id != unit_id);
                        }
                    }
                    assert(self@ =~= want);
                }
                Ok(())
            },
        }
    }

    /// Removes a unit. Refused where it is the last one, and where it is not there.
    pub fn unit_remove(&mut self, unit_id: u8) -> (r: Result<(), String>)
        requires
            old(self).wf(),
        ensures
            final(self).wf(),
            match r {
                Ok(_) => {
                    &&& old(self)@.len() > 1
                    &&& configured(old(self)@, unit_id)
                    &&& final(self)@ == old(self)@.remove(place_of(old(self)@, unit_id))
                },
                Err(m) => {
                    &&& old(self)@.len() <= 1 || !configured(old(self)@, unit_id)
                    &&& m@ == (if old(self)@.len() <= 1 {
                        "至少保留一个 Unit ID"@
                    } else {
                        "Unit ID "@ + decimal(unit_id as nat) + " 不存在"@
                    })
                    &&& final(self)@ == old(self)@
                },
            },
    {
        if self.units.len() <= 1 {
            return Err("至少保留一个 Unit ID".to_owned());
        }
        match self.find(unit_id) {
            Err(_) => {
                let mut m = "Unit ID ".to_owned();
                push_decimal(&mut m, unit_id as u64);
                m.append(" 不存在");
                Err(m)
            },
            Ok(k) => {
                let ghost before = *self;
                self.units.remove(k);
                self.images.remove(&unit_id);
                proof {
                    assert forall|i: int| 0 <= i < self.units@.len() implies #[trigger] self.units@[i]
                        == before.units@[if i < k { i } else { i + 1 }] && self.units@[i].unit_id
                        != unit_id by {
                        let i0 = if i < k { i } else { i + 1 };
                        if i0 < k {
                            assert(before.units@[i0].unit_id != before.units@[k as int].unit_id);
                        } else {
                            assert(before.units@[k as int].unit_id != before.units@[i0].unit_id);
                        }
                    }
                    assert forall|i: int, j: int| 0 <= i < j < self.units@.len() implies (
                    #[trigger] self.units@[i]).unit_id != (#[trigger] self.units@[j]).unit_id by {
                        let i0 = if i < k { i } else { i + 1 };
                        let j0 = if j < k { j } else { j + 1 };
                        assert(before.units@[i0].unit_id != before.units@[j0].unit_id);
                    }
                    assert forall|id: u8| #[trigger]
                        self.images@.contains_key(id) <==> exists|i: int|
                            0 <= i < self.units@.len() && (#[trigger] self.units@[i]).unit_id == id by {
                        if self.images@.contains_key(id) {
                            assert(before.images@.contains_key(id));
                            let i = choose|i: int|
                                0 <= i < before.units@.len() && (
                                #[trigger] before.units@[i]).unit_id == id;
                            assert(i != k);
                            let i1 = if i < k { i } else { i - 1 };
                            assert(self.units@[i1].unit_id == id);
                        }
                        if exists|i: int|
                            0 <= i < self.units@.len() && (#[trigger] self.units@[i]).unit_id == id {
                            let i = choose|i: int|
                                0 <= i < self.units@.len() && (#[trigger] self.units@[i]).unit_id
                                    == id;
                            let i0 = if i < k { i } else { i + 1 };
                            assert(before.units@[i0].unit_id == id);
                            assert(before.images@.contains_key(id));
                        }
                    }
                    assert forall|i: int| 0 <= i < self.units@.len() implies in_order(
                        def_models((#[trigger] self.units@[i]).regs@),
                    ) by {
                        before.lemma_in_order(if i < k { i } else { i + 1 });
                    }
                    let want = before@.remove(k as int);
                    assert forall|i: int| 0 <= i < want.len() implies self@[i] == want[i] by {
                        assert(self.units@[i].unit_id != unit_id);
                    }
                    assert(self@ =~= want);
                }
                Ok(())
            },
        }
    }
}

/// Whether an edit of the image of a unit ended as it should: the image became `image`,
/// or nothing changed and the unit is not configured.
pub open spec fn edited_image(
    before: Seq<UnitModel>,
    now: Seq<UnitModel>,
    unit_id: u8,
    r: Result<(), String>,
    image: ImageModel,
) -> bool {
    match r {
        Ok(_) => configured(before, unit_id) && now == with_image(before, unit_id, image),
        Err(m) => !configured(before, unit_id) && m@ == missing_text(unit_id) && now == before,
    }
}

/// The unit that a command is for, as it stands.
pub open spec fn unit_of(units: Seq<UnitModel>, unit_id: Option<u8>) -> UnitModel {
    units[place_of(units, target(unit_id))]
}

impl SimUnits {
    /// Sets a holding register of a unit.
    pub fn sim_set_register(&mut self, addr: usize, value: u16, unit_id: Option<u8>) -> (r: Result<
        (),
        String,
    >)
        requires
            old(self).wf(),
        ensures
            final(self).wf(),
            ({
                let image = unit_of(old(self)@, unit_id).image;
                edited_image(
                    old(self)@,
                    final(self)@,
                    target(unit_id),
                    r,
                    ImageModel {
                        holding_registers: image.holding_registers.insert(
                            low16(addr as int),
                            value,
                        ),
                        ..image
                    },
                )
            }),
    {
        let uid: u8 = target_of(unit_id);
        match self.find(uid) {
            Err(m) => Err(m),
            Ok(k) => {
                let ghost before = *self;
                let mut img = self.take_image(uid);
                img.set_holding(addr, value);
                proof {
                    before.lemma_in_order(k as int);
                }
                self.put_image(Ghost(before), k, img);
                Ok(())
            },
        }
    }

    /// Sets an input register of a unit.
    pub fn sim_set_input(&mut self, addr: usize, value: u16, unit_id: Option<u8>) -> (r: Result<
        (),
        String,
    >)
        requires
            old(self).wf(),
        ensures
            final(self).wf(),
            ({
                let image = unit_of(old(self)@, unit_id).image;
                edited_image(
                    old(self)@,
                    final(self)@,
                    target(unit_id),
                    r,
                    ImageModel {
                        input_registers: image.input_registers.insert(low16(addr as int), value),
                        ..image
                    },
                )
            }),
    {
        let uid: u8 = target_of(unit_id);
        match self.find(uid) {
            Err(m) => Err(m),
            Ok(k) => {
                let ghost before = *self;
                let mut img = self.take_image(uid);
                img.set_input(addr, value);
                proof {
                    before.lemma_in_order(k as int);
                }
                self.put_image(Ghost(before), k, img);
                Ok(())
            },
        }
    }

    /// Sets a coil of a unit.
    pub fn sim_set_coil(&mut self, addr: usize, on: bool, unit_id: Option<u8>) -> (r: Result<
        (),
        String,
    >)
        requires
            old(self).wf(),
        ensures
            final(self).wf(),
            ({
                let image = unit_of(old(self)@, unit_id).image;
                edited_image(
                    old(self)@,
                    final(self)@,
                    target(unit_id),
                    r,
                    ImageModel { coils: image.coils.insert(low16(addr as int), on), ..image },
                )
            }),
    {
        let uid: u8 = target_of(unit_id);
        match self.find(uid) {
            Err(m) => Err(m),
            Ok(k) => {
                let ghost before = *self;
                let mut img = self.take_image(uid);
                img.set_coil(addr, on);
                proof {
                    before.lemma_in_order(k as int);
                }
                self.put_image(Ghost(before), k, img);
                Ok(())
            },
        }
    }

    /// Sets a discrete input of a unit.
    pub fn sim_set_discrete(&mut self, addr: usize, on: bool, unit_id: Option<u8>) -> (r: Result<
        (),
        String,
    >)
        requires
            old(self).wf(),
        ensures
            final(self).wf(),
            ({
                let image = unit_of(old(self)@, unit_id).image;
                edited_image(
                    old(self)@,
                    final(self)@,
                    target(unit_id),
                    r,
                    ImageModel {
                        discrete_inputs: image.discrete_inputs.insert(low16(addr as int), on),
                        ..image
                    },
                )
            }),
    {
        let uid: u8 = target_of(unit_id);
        match self.find(uid) {
            Err(m) => Err(m),
            Ok(k) => {
                let ghost before = *self;
                let mut img = self.take_image(uid);
                img.set_discrete(addr, on);
                proof {
                    before.lemma_in_order(k as int);
                }
                self.put_image(Ghost(before), k, img);
                Ok(())
            },
        }
    }

    /// Forgets all values of a unit. Its register definitions stay.
    pub fn sim_reset(&mut self, unit_id: Option<u8>) -> (r: Result<(), String>)
        requires
            old(self).wf(),
        ensures
            final(self).wf(),
            edited_image(old(self)@, final(self)@, target(unit_id), r, empty_image()),
    {
        let uid: u8 = target_of(unit_id);
        match self.find(uid) {
            Err(m) => Err(m),
            Ok(k) => {
                let ghost before = *self;
                let mut img = self.take_image(uid);
                img.reset();
                proof {
                    before.lemma_in_order(k as int);
                }
                self.put_image(Ghost(before), k, img);
                Ok(())
            },
        }
    }

    fn snapshot_at(&self, k: usize) -> (r: ImageSnapshot)
        requires
            self.wf(),
            k < self.units@.len(),
        ensures
            r@ == self@[k as int].image,
    {
        let id: u8 = self.units[k].unit_id;
        proof {
            self.lemma_place(id, k as int);
        }
        match self.images.get(&id) {
            Some(img) => snapshot_from(img),
            None => ImageSnapshot::default(),
        }
    }

    /// A snapshot of the values of a unit.
    pub fn sim_snapshot(&self, unit_id: Option<u8>) -> (r: Result<ImageSnapshot, String>)
        requires
            self.wf(),
        ensures
            match r {
                Ok(s) => configured(self@, target(unit_id)) && s@ == unit_of(self@, unit_id).image,
                Err(m) => !configured(self@, target(unit_id)) && m@ == missing_text(
                    target(unit_id),
                ),
            },
    {
        match self.find(target_of(unit_id)) {
            Err(m) => Err(m),
            Ok(k) => Ok(self.snapshot_at(k)),
        }
    }

    /// All registers of a unit with a snapshot of its values.
    pub fn unit_regs(&self, unit_id: u8) -> (r: Result<RegListResp, String>)
        requires
            self.wf(),
        ensures
            match r {
                Ok(p) => {
                    let u = self@[place_of(self@, unit_id)];
                    &&& configured(self@, unit_id)
                    &&& p.unit_id == unit_id
                    &&& def_models(p.defs@) == u.regs
                    &&& p.snapshot@ == u.image
                },
                Err(m) => !configured(self@, unit_id) && m@ == missing_text(unit_id),
            },
    {
        match self.find(unit_id) {
            Err(m) => Err(m),
            Ok(k) => Ok(
                RegListResp {
                    unit_id,
                    defs: copy_defs(&self.units[k].regs),
                    snapshot: self.snapshot_at(k),
                },
            ),
        }
    }

    /// The registers of a unit that a search text finds, all where there is none, with a
    /// snapshot of its values.
    pub fn sim_reg_list(&self, keyword: Option<&str>, unit_id: Option<u8>) -> (r: Result<
        RegListResp,
        String,
    >)
        requires
            self.wf(),
        ensures
            match r {
                Ok(p) => {
                    let u = unit_of(self@, unit_id);
                    let text = match keyword {
                        Some(t) => t@,
                        None => Seq::empty(),
                    };
                    &&& configured(self@, target(unit_id))
                    &&& p.unit_id == target(unit_id)
                    &&& def_models(p.defs@) == listed(u.regs, keyword_of(text))
                    &&& ascii_rule(trimmed(text))
                    &&& keyword_of(text).len() > 0 ==> names_ruled(u.regs)
                    &&& trimmed(text).len() == 0 ==> def_models(p.defs@) == u.regs
                    &&& keyword is None ==> def_models(p.defs@) == u.regs
                    &&& p.snapshot@ == u.image
                },
                Err(m) => !configured(self@, target(unit_id)) && m@ == missing_text(
                    target(unit_id),
                ),
            },
    {
        let uid: u8 = target_of(unit_id);
        match self.find(uid) {
            Err(m) => Err(m),
            Ok(k) => {
                let text: &str = match keyword {
                    Some(t) => t,
                    None => "",
                };
                proof {
                    reveal_strlit("");
                    assert(""@ =~= Seq::empty());
                }
                Ok(
                    RegListResp {
                        unit_id: uid,
                        defs: list_defs(&self.units[k].regs, text),
                        snapshot: self.snapshot_at(k),
                    },
                )
            },
        }
    }

    /// Adds a register to a unit, under an id that no other register of it has. Which id
    /// and which time of creation are left open.
    pub fn sim_reg_add(&mut self, input: &RegInput, unit_id: Option<u8>) -> (r: Result<
        RegisterDef,
        String,
    >)
        requires
            old(self).wf(),
        ensures
            final(self).wf(),
            ({
                let uid = target(unit_id);
                let u = unit_of(old(self)@, unit_id);
                match r {
                    Ok(d) => {
                        &&& configured(old(self)@, uid)
                        &&& !slot_taken(u.regs, input.area@, input.addr)
                        &&& d@ == def_of(*input, d.id@, d.created_at_ms)
                        &&& is_generated(d.id@)
                        &&& !id_known(u.regs, d.id@)
                        &&& final(self)@ == with_regs(
                            old(self)@,
                            uid,
                            u.regs.push(d@),
                            slot_written(u.image, input.area@, input.addr, input.value),
                        )
                    },
                    Err(m) => {
                        &&& final(self)@ == old(self)@
                        &&& if configured(old(self)@, uid) {
                            slot_taken(u.regs, input.area@, input.addr) && m@ == taken_text(
                                input.area@,
                                input.addr,
                            )
                        } else {
                            m@ == missing_text(uid)
                        }
                    },
                }
            }),
    {
        let uid: u8 = target_of(unit_id);
        match self.find(uid) {
            Err(m) => Err(m),
            Ok(k) => {
                let ghost before = *self;
                let mut img = self.take_image(uid);
                let id = free_id(&self.units[k].regs, clock_hash());
                let r = reg_add(&mut self.units[k].regs, &mut img, input, id, now_ms());
                proof {
                    before.lemma_in_order(k as int);
                    if r is Ok {
                        let regs = def_models(before.units@[k as int].regs@);
                        law_add_keeps_slots_distinct(regs, r->Ok_0@);
                        law_add_keeps_ids_distinct(regs, r->Ok_0@);
                    }
                }
                self.put_image(Ghost(before), k, img);
                proof {
                    if r is Err {
                        assert(self@ =~= before@);
                    }
                }
                r
            },
        }
    }

    /// Changes a register of a unit.
    pub fn sim_reg_update(&mut self, id: &str, input: &RegInput, unit_id: Option<u8>) -> (r: Result<
        (),
        String,
    >)
        requires
            old(self).wf(),
        ensures
            final(self).wf(),
            ({
                let uid = target(unit_id);
                let u = unit_of(old(self)@, unit_id);
                let other = slot_taken_by_other(u.regs, id@, input.area@, input.addr);
                match r {
                    Ok(_) => {
                        let k = first_id(u.regs, id@);
                        &&& configured(old(self)@, uid)
                        &&& !other
                        &&& id_known(u.regs, id@)
                        &&& final(self)@ == with_regs(
                            old(self)@,
                            uid,
                            u.regs.update(k, changed(u.regs[k], *input)),
                            image_changed(u.image, u.regs[k], *input),
                        )
                    },
                    Err(m) => {
                        &&& final(self)@ == old(self)@
                        &&& if !configured(old(self)@, uid) {
                            m@ == missing_text(uid)
                        } else if other {
                            m@ == occupied_text(input.area@, input.addr)
                        } else {
                            !id_known(u.regs, id@) && m@ == "寄存器不存在"@
                        }
                    },
                }
            }),
    {
        let uid: u8 = target_of(unit_id);
        match self.find(uid) {
            Err(m) => Err(m),
            Ok(k) => {
                let ghost before = *self;
                let mut img = self.take_image(uid);
                let r = reg_update(&mut self.units[k].regs, &mut img, id, input);
                proof {
                    before.lemma_in_order(k as int);
                    if r is Ok {
                        let regs = def_models(before.units@[k as int].regs@);
                        lemma_first_id_exists(regs, id@);
                        law_update_keeps_slots_distinct(regs, id@, first_id(regs, id@), *input);
                    }
                }
                self.put_image(Ghost(before), k, img);
                proof {
                    if r is Err {
                        assert(self@ =~= before@);
                    }
                }
                r
            },
        }
    }

    /// Removes a register of a unit.
    pub fn sim_reg_delete(&mut self, id: &str, unit_id: Option<u8>) -> (r: Result<(), String>)
        requires
            old(self).wf(),
        ensures
            final(self).wf(),
            ({
                let uid = target(unit_id);
                let u = unit_of(old(self)@, unit_id);
                match r {
                    Ok(_) => {
                        let k = first_id(u.regs, id@);
                        &&& configured(old(self)@, uid)
                        &&& id_known(u.regs, id@)
                        &&& final(self)@ == with_regs(
                            old(self)@,
                            uid,
                            u.regs.remove(k),
                            slot_cleared(u.image, u.regs[k].area, u.regs[k].addr),
                        )
                    },
                    Err(m) => {
                        &&& final(self)@ == old(self)@
                        &&& if configured(old(self)@, uid) {
                            !id_known(u.regs, id@) && m@ == "寄存器不存在"@
                        } else {
                            m@ == missing_text(uid)
                        }
                    },
                }
            }),
    {
        let uid: u8 = target_of(unit_id);
        match self.find(uid) {
            Err(m) => Err(m),
            Ok(k) => {
                let ghost before = *self;
                let mut img = self.take_image(uid);
                let r = reg_delete(&mut self.units[k].regs, &mut img, id);
                proof {
                    before.lemma_in_order(k as int);
                    if r is Ok {
                        let regs = def_models(before.units@[k as int].regs@);
                        lemma_first_id_exists(regs, id@);
                        law_delete_keeps_slots_distinct(regs, first_id(regs, id@));
                    }
                }
                self.put_image(Ghost(before), k, img);
                proof {
                    if r is Err {
                        assert(self@ =~= before@);
                    }
                }
                r
            },
        }
    }

    /// Takes a unit back to the sample registers and their values.
    pub fn sim_reg_seed(&mut self, unit_id: Option<u8>) -> (r: Result<(), String>)
        requires
            old(self).wf(),
        ensures
            final(self).wf(),
            ({
                let uid = target(unit_id);
                match r {
                    Ok(_) => {
                        &&& configured(old(self)@, uid)
                        &&& final(self)@ == old(self)@.update(
                            place_of(old(self)@, uid),
                            fresh_unit(uid),
                        )
                    },
                    Err(m) => {
                        &&& !configured(old(self)@, uid)
                        &&& m@ == missing_text(uid)
                        &&& final(self)@ == old(self)@
                    },
                }
            }),
    {
        let uid: u8 = target_of(unit_id);
        match self.find(uid) {
            Err(m) => Err(m),
            Ok(k) => {
                let ghost before = *self;
                let mut img = self.take_image(uid);
                reg_seed(&mut self.units[k].regs, &mut img);
                proof {
                    law_samples_are_in_order();
                }
                self.put_image(Ghost(before), k, img);
                Ok(())
            },
        }
    }

    /// Adds registers of the same kind at successive addresses of a unit. Returns how
    /// many were added. Each has an id of its own; which ids and times of creation are
    /// left open.
    pub fn sim_reg_add_batch(&mut self, b: &BatchInput, unit_id: Option<u8>) -> (r: Result<u16, String>)
        requires
            old(self).wf(),
        ensures
            final(self).wf(),
            ({
                let uid = target(unit_id);
                let u = unit_of(old(self)@, unit_id);
                let p = place_of(old(self)@, uid);
                match r {
                    Ok(n) => {
                        let regs = final(self)@[p].regs;
                        let plan = batch_defs(u.regs, *b, b.count as nat);
                        &&& configured(old(self)@, uid)
                        &&& n == plan.len() - u.regs.len()
                        &&& is_stamped(regs, plan, u.regs.len() as int)
                        &&& in_order(regs)
                        &&& final(self)@ == with_regs(
                            old(self)@,
                            uid,
                            regs,
                            batch_image(u.regs, u.image, *b, b.count as nat),
                        )
                    },
                    Err(m) => {
                        &&& !configured(old(self)@, uid)
                        &&& m@ == missing_text(uid)
                        &&& final(self)@ == old(self)@
                    },
                }
            }),
    {
        let uid: u8 = target_of(unit_id);
        match self.find(uid) {
            Err(m) => Err(m),
            Ok(k) => {
                let ghost before = *self;
                let mut img = self.take_image(uid);
                let n: u16 = reg_add_batch(&mut self.units[k].regs, &mut img, b);
                proof {
                    before.lemma_in_order(k as int);
                }
                self.put_image(Ghost(before), k, img);
                Ok(n)
            },
        }
    }

    /// Imports rows of a sheet into the registers of a unit; `values` gives the value of
    /// each row. Returns how many rows were imported and how many skipped. A new
    /// register has an id of its own; which one, and its time of creation, are left open.
    pub fn sim_reg_import(
        &mut self,
        rows: &Vec<Vec<String>>,
        values: &Vec<Number>,
        replace: bool,
        unit_id: Option<u8>,
    ) -> (r: Result<(u32, u32), String>)
        requires
            old(self).wf(),
            values@.len() == rows@.len(),
            rows@.len() <= u32::MAX,
        ensures
            final(self).wf(),
            ({
                let uid = target(unit_id);
                let u = unit_of(old(self)@, unit_id);
                let p = place_of(old(self)@, uid);
                match r {
                    Ok(n) => {
                        let start = ImportModel {
                            defs: u.regs,
                            image: u.image,
                            imported: 0,
                            skipped: 0,
                        };
                        let end = import_rows_model(start, row_texts(rows@), values@, replace);
                        let regs = final(self)@[p].regs;
                        &&& configured(old(self)@, uid)
                        &&& n.0 == end.imported
                        &&& n.1 == end.skipped
                        &&& areas_ruled(row_texts(rows@))
                        &&& is_stamped(regs, end.defs, u.regs.len() as int)
                        &&& in_order(regs)
                        &&& final(self)@ == with_regs(old(self)@, uid, regs, end.image)
                    },
                    Err(m) => {
                        &&& !configured(old(self)@, uid)
                        &&& m@ == missing_text(uid)
                        &&& final(self)@ == old(self)@
                    },
                }
            }),
    {
        let uid: u8 = target_of(unit_id);
        match self.find(uid) {
            Err(m) => Err(m),
            Ok(k) => {
                let ghost before = *self;
                let mut img = self.take_image(uid);
                let n: (u32, u32) = import_rows(
                    &mut self.units[k].regs,
                    &mut img,
                    rows,
                    values,
                    replace,
                );
                proof {
                    before.lemma_in_order(k as int);
                }
                self.put_image(Ghost(before), k, img);
                Ok(n)
            },
        }
    }

    /// One step of the registers of the unit at place `k`, at a tick of its own where some
    /// vary text is other than "off". Returns a snapshot to show where the step changed a
    /// register. `sine` has the samples of the wave at the next tick.
    pub fn vary_unit(&mut self, k: usize, sim: &mut Simulator, sine: &HashMap<u16, u16>) -> (r: Option<
        ImageSnapshot,
    >)
        requires
            old(self).wf(),
            k < old(self)@.len(),
            sampled(vary_list(old(self)@[k as int].regs, "holding"@), sine@),
            sampled(vary_list(old(self)@[k as int].regs, "input"@), sine@),
        ensures
            final(self).wf(),
            ({
                let u = old(self)@[k as int];
                let image = if takes_tick(u) {
                    varied_image(u, final(sim).tick, sine@)
                } else {
                    u.image
                };
                &&& final(sim).tick == (if takes_tick(u) {
                    old(sim).tick.wrapping_add(1)
                } else {
                    old(sim).tick
                })
                &&& final(self)@ == old(self)@.update(k as int, UnitModel { image, ..u })
                &&& r is Some <==> image != u.image
                &&& r matches Some(s) ==> s@ == image
            }),
    {
        let (holding, input) = vary_lists(&self.units[k].regs);
        let ghost start = self@;
        if holding.len() == 0 && input.len() == 0 {
            assert(start =~= start.update(k as int, start[k as int]));
            return None;
        }
        let uid: u8 = self.units[k].unit_id;
        let ghost before = *self;
        proof {
            self.lemma_place(uid, k as int);
        }
        let mut img = self.take_image(uid);
        let shown = snapshot_from(&img);
        sim.step_on(&mut img, holding.as_slice(), input.as_slice(), sine);
        let still: bool = is_unchanged(
            &shown.holding_registers,
            &img.holding_registers,
            &holding,
            Ghost(sim.tick),
            Ghost(sine@),
        ) && is_unchanged(
            &shown.input_registers,
            &img.input_registers,
            &input,
            Ghost(sim.tick),
            Ghost(sine@),
        );
        let snap = snapshot_from(&img);
        proof {
            before.lemma_in_order(k as int);
        }
        self.put_image(Ghost(before), k, img);
        if still {
            None
        } else {
            Some(snap)
        }
    }
}

/// What a master does to a unit over a server shows in the editor of that unit, and
/// nowhere else: the servers and the editor work on one image.
pub proof fn law_server_and_editor_share_images(
    before: SimUnits,
    now: SimUnits,
    unit_id: u8,
    pdu: Seq<u8>,
)
    requires
        before.wf(),
        now.units@ == before.units@,
        models(now.images@) == units_after(models(before.images@), unit_id, pdu),
    ensures
        now.wf(),
        configured(before@, unit_id) ==> now@ == with_image(
            before@,
            unit_id,
            after(before@[place_of(before@, unit_id)].image, pdu),
        ),
        !configured(before@, unit_id) ==> now@ == before@,
{
    let a = models(before.images@);
    let b = models(now.images@);
    assert forall|id: u8| now.images@.contains_key(id) == before.images@.contains_key(id) by {
        assert(b.contains_key(id) == a.contains_key(id));
        assert(b.contains_key(id) == now.images@.contains_key(id));
        assert(a.contains_key(id) == before.images@.contains_key(id));
    }
    assert forall|i: int| 0 <= i < before.units@.len() implies before.images@.contains_key(
        (#[trigger] before.units@[i]).unit_id,
    ) by {
        before.lemma_place(before.units@[i].unit_id, i);
    }
    if configured(before@, unit_id) {
        let p = place_of(before@, unit_id);
        assert(before@[p].unit_id == unit_id);
        assert(before.units@[p].unit_id == unit_id);
        let want = with_image(before@, unit_id, after(before@[p].image, pdu));
        assert forall|i: int| 0 <= i < want.len() implies now@[i] == want[i] by {
            let id = before.units@[i].unit_id;
            if i != p {
                if i < p {
                    assert(before.units@[i].unit_id != before.units@[p].unit_id);
                } else {
                    assert(before.units@[p].unit_id != before.units@[i].unit_id);
                }
                assert(b[id] == a[id]);
            } else {
                assert(b[id] == after(a[id], pdu));
            }
            assert(b[id] == now.images@[id]@);
            assert(a[id] == before.images@[id]@);
        }
        assert(now@ =~= want);
    } else {
        assert(!before.images@.contains_key(unit_id)) by {
            if before.images@.contains_key(unit_id) {
                let i = choose|i: int|
                    0 <= i < before.units@.len() && (#[trigger] before.units@[i]).unit_id == unit_id;
                assert(before@[i].unit_id == unit_id);
            }
        }
        assert forall|i: int| 0 <= i < before@.len() implies now@[i] == before@[i] by {
            let id = before.units@[i].unit_id;
            assert(b[id] == now.images@[id]@);
            assert(a[id] == before.images@[id]@);
        }
        assert(now@ =~= before@);
    }
}

/// A unit that is added can be removed again, and the others are as they were.
pub proof fn law_add_then_remove_unit(units: Seq<UnitModel>, unit_id: u8)
    requires
        !configured(units, unit_id),
    ensures
        configured(units.push(fresh_unit(unit_id)), unit_id),
        place_of(units.push(fresh_unit(unit_id)), unit_id) == units.len(),
        units.push(fresh_unit(unit_id)).remove(units.len() as int) == units,
{
    let next = units.push(fresh_unit(unit_id));
    assert(next[units.len() as int].unit_id == unit_id);
    let p = place_of(next, unit_id);
    assert(next[p].unit_id == unit_id);
    if p < units.len() {
        assert(units[p].unit_id == unit_id);
    }
    assert(next.remove(units.len() as int) =~= units);
}

/// The servers answer for exactly the units that are configured.
pub proof fn law_servers_see_configured_units(units: SimUnits, unit_id: u8)
    requires
        units.wf(),
    ensures
        models(units.images@).contains_key(unit_id) <==> configured(units@, unit_id),
        configured(units@, unit_id) ==> models(units.images@)[unit_id] == units@[place_of(
            units@,
            unit_id,
        )].image,
{
    assert(models(units.images@).contains_key(unit_id) == units.images@.contains_key(unit_id));
    if units.images@.contains_key(unit_id) {
        let i = choose|i: int|
            0 <= i < units.units@.len() && (#[trigger] units.units@[i]).unit_id == unit_id;
        units.lemma_place(unit_id, i);
    }
    if configured(units@, unit_id) {
        let p = place_of(units@, unit_id);
        assert(units@[p].unit_id == unit_id);
        assert(units.units@[p].unit_id == unit_id);
        units.lemma_place(unit_id, p);
    }
}

/// In each unit a slot has one definition at most, and so has an id.
pub proof fn law_registries_are_in_order(units: SimUnits, i: int)
    requires
        units.wf(),
        0 <= i < units@.len(),
    ensures
        slots_distinct(units@[i].regs),
        ids_distinct(units@[i].regs),
{
    units.lemma_in_order(i);
}

/// Unit ids are from 1 to 247, no two units share one, and there is always a unit.
pub proof fn law_unit_ids(units: SimUnits, i: int, j: int)
    requires
        units.wf(),
        0 <= i < j < units@.len(),
    ensures
        units@.len() > 0,
        1 <= units@[i].unit_id <= 247,
        units@[i].unit_id != units@[j].unit_id,
{
    assert(units.units@[i].unit_id != units.units@[j].unit_id);
}

/// A command is for the unit that it names, and for unit one where it names none.
pub proof fn law_targets(n: u8)
    ensures
        target(Some(n)) == n,
        target(None) == 1,
{
}

/// A fresh unit has the sample registers, and each of their slots holds its sample value;
/// no other slot was written.
pub proof fn law_fresh_unit(unit_id: u8, area: Seq<char>, addr: u16)
    ensures
        ({
            let u = fresh_unit(unit_id);
            &&& u.unit_id == unit_id
            &&& u.regs == sample_defs()
            &&& forall|j: int|
                0 <= j < u.regs.len() && (#[trigger] u.regs[j]).area == area && u.regs[j].addr
                    == addr ==> slot_holds(u.image, area, addr, sample_values()[j])
            &&& (forall|j: int|
                0 <= j < u.regs.len() ==> (#[trigger] u.regs[j]).area != area || u.regs[j].addr
                    != addr) ==> slot_absent(u.image, area, addr)
        }),
{
    law_samples_are_in_order();
    let defs = sample_defs();
    assert forall|a: int, b: int| 0 <= a < b < defs.len() implies (#[trigger] defs[a]).area != (
    #[trigger] defs[b]).area || defs[a].addr != defs[b].addr by {
        assert(!is_slot(defs[b], defs[a].area, defs[a].addr));
    }
    let values = sample_values();
    let u = fresh_unit(unit_id);
    law_seeded_slots(empty_image(), defs, values, area, addr);
    assert(u.regs == defs);
    assert(u.image == slots_written(empty_image(), defs, values));
    assert forall|j: int|
        0 <= j < u.regs.len() && (#[trigger] u.regs[j]).area == area && u.regs[j].addr
            == addr implies slot_holds(u.image, area, addr, values[j]) by {
        assert(defs[j].area == area);
    }
    if forall|j: int|
        0 <= j < u.regs.len() ==> (#[trigger] u.regs[j]).area != area || u.regs[j].addr != addr {
        assert forall|j: int| 0 <= j < defs.len() implies (#[trigger] defs[j]).area != area
            || defs[j].addr != addr by {
            assert(u.regs[j].area != area || u.regs[j].addr != addr);
        }
        assert(slot_agrees(u.image, empty_image(), area, addr));
    }
}

/// An edit of a unit's registers or image changes what it says it does of that one unit:
/// its id stays, and so does every other unit, in its place.
pub proof fn law_edits_reach_one_unit(
    units: Seq<UnitModel>,
    unit_id: u8,
    regs: Seq<DefModel>,
    image: ImageModel,
    i: int,
)
    requires
        forall|a: int, b: int|
            0 <= a < b < units.len() ==> (#[trigger] units[a]).unit_id != (
            #[trigger] units[b]).unit_id,
        0 <= i < units.len(),
    ensures
        configured(units, unit_id) ==> with_image(units, unit_id, image).len() == units.len()
            && with_regs(units, unit_id, regs, image).len() == units.len(),
        units[i].unit_id != unit_id && configured(units, unit_id) ==> with_image(
            units,
            unit_id,
            image,
        )[i] == units[i] && with_regs(units, unit_id, regs, image)[i] == units[i],
        units[i].unit_id == unit_id ==> {
            &&& configured(units, unit_id)
            &&& place_of(units, unit_id) == i
            &&& with_image(units, unit_id, image)[i] == (UnitModel {
                unit_id,
                regs: units[i].regs,
                image,
            })
            &&& with_regs(units, unit_id, regs, image)[i] == (UnitModel { unit_id, regs, image })
        },
{
    if configured(units, unit_id) {
        let p = place_of(units, unit_id);
        assert(units[p].unit_id == unit_id);
        if units[i].unit_id == unit_id {
            if i < p {
                assert(units[i].unit_id != units[p].unit_id);
            }
            if p < i {
                assert(units[p].unit_id != units[i].unit_id);
            }
        }
    }
    if units[i].unit_id == unit_id {
        assert(configured(units, unit_id));
    }
}

/// An edit of an image succeeds exactly where the unit is configured; else the text names
/// the unit, and nothing changes.
pub proof fn law_edited_images(
    before: Seq<UnitModel>,
    now: Seq<UnitModel>,
    unit_id: u8,
    r: Result<(), String>,
    image: ImageModel,
)
    requires
        edited_image(before, now, unit_id, r, image),
    ensures
        r is Ok <==> exists|i: int|
            0 <= i < before.len() && (#[trigger] before[i]).unit_id == unit_id,
        r is Ok ==> now == with_image(before, unit_id, image),
        r matches Err(m) ==> now == before && m@ == "Unit ID "@ + decimal(unit_id as nat)
            + " 未配置"@,
{
}

/// A unit is what its entry and its image in the table of the servers say.
pub proof fn law_units_in_full(units: SimUnits, i: int)
    requires
        0 <= i < units.units@.len(),
    ensures
        units@.len() == units.units@.len(),
        units@[i].unit_id == units.units@[i].unit_id,
        units@[i].regs == def_models(units.units@[i].regs@),
        units@[i].image == units.images@[units.units@[i].unit_id]@,
{
}

/// The unit that a command is for is the one with the id that it names.
pub proof fn law_named_unit(units: Seq<UnitModel>, n: u8)
    requires
        exists|i: int| 0 <= i < units.len() && (#[trigger] units[i]).unit_id == n,
    ensures
        configured(units, n),
        unit_of(units, Some(n)).unit_id == n,
        units.contains(unit_of(units, Some(n))),
        n == 1 ==> unit_of(units, None) == unit_of(units, Some(1)),
{
    let p = place_of(units, n);
    assert(units[p].unit_id == n);
}

} // verus!
