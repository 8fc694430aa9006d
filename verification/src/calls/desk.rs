//! Calls of the register editor, the simulator and the running modes.

use std::collections::HashMap;
use vstd::prelude::*;
use crate::number::Number;
use crate::poll::{Exchange, Poll, PollFrame, PollTable};
use crate::registry::{batch_addr, batch_def, batch_defs, import_rows_model, in_order, is_slot, law_batch, law_batch_values, law_changed_register_moves, law_definition_fields, law_first_row_counts, law_found_definitions, law_last_row_counts, law_order_of_registries, law_stamped_fields, law_unnamed_slots_stay, row_area, row_def, row_names, row_texts, says_same, slot_says, slot_taken, BatchInput, ImportModel};
use crate::server::ImageSnapshot;
use crate::sheet::{filled, sheet_names, sheet_of, sim_reg_export};
use crate::simreg::{area_label, def_models, default_reg_samples, id_from_hash, sample_defs, sample_values, DefModel, RegInput, RegListResp, RegSample, RegisterDef};
use crate::simulator::{varied_all, Simulator, VaryMode};
use crate::slave::{slot_absent, slot_agrees, slot_holds, DataImage};
use crate::slave_control::{ModeStatus, PlanModel, SlaveModes, SlavePlan, SlaveStartReq};
use crate::state::{configured, fresh_unit, law_edits_reach_one_unit, place_of, target, vary_lists, SimUnits, UnitModel};
use crate::text::{decimal, lowered};
use crate::vary::{law_registers_vary_by_their_texts, law_varying_registers_are_listed, shots, shown_units, stepped, tick_before, vary_round, wave_requests};
use crate::workspace::Workspace;

verus! {

/// A mode is read from its name, small and capital letters alike; any other text means off.
pub proof fn law_mode_calls(s: &str, r: VaryMode)
    requires
        call_ensures(VaryMode::parse, (s,), r),
    ensures
        r is Sine <==> lowered(s@) == "sine"@,
        r is Random <==> lowered(s@) == "random"@,
        r is Increment <==> lowered(s@) == "increment"@,
{
    crate::simulator::law_mode_names(s@);
}

/// Every holding and input register whose vary text is other than "off" is listed for its
/// area, with its address and its mode, whatever its name, type and access.
pub proof fn law_vary_list_calls(
    regs: &Vec<RegisterDef>,
    r: (Vec<(u16, VaryMode)>, Vec<(u16, VaryMode)>),
    j: int,
    text: &str,
    mode: VaryMode,
)
    requires
        call_ensures(vary_lists, (regs,), r),
        call_ensures(VaryMode::parse, (text,), mode),
        0 <= j < regs@.len(),
        text@ == regs@[j].vary@,
        regs@[j].vary@ != "off"@,
    ensures
        regs@[j].area@ == "holding"@ ==> r.0@.contains((regs@[j].addr, mode)),
        regs@[j].area@ == "input"@ ==> r.1@.contains((regs@[j].addr, mode)),
{
    let defs = def_models(regs@);
    assert(defs[j] == regs@[j]@);
    if regs@[j].area@ == "holding"@ {
        let i = law_varying_registers_are_listed(defs, "holding"@, j);
        assert(r.0@[i] == (regs@[j].addr, mode));
    }
    if regs@[j].area@ == "input"@ {
        let i = law_varying_registers_are_listed(defs, "input"@, j);
        assert(r.1@[i] == (regs@[j].addr, mode));
    }
}

/// A step of the generator takes one tick, and steps the listed registers of the two areas
/// at that tick; coils and discrete inputs stay.
pub proof fn law_step_calls(
    fresh: Simulator,
    sim: &mut Simulator,
    img: &mut DataImage,
    h: &[(u16, VaryMode)],
    n: &[(u16, VaryMode)],
    wave: &HashMap<u16, u16>,
    u: (),
)
    requires
        call_ensures(Simulator::new, (), fresh),
        call_ensures(Simulator::step_on, (sim, img, h, n, wave), u),
    ensures
        fresh.tick == 0,
        final(sim).tick == old(sim).tick.wrapping_add(1),
        final(img)@.holding_registers == varied_all(
            old(img)@.holding_registers,
            final(sim).tick,
            h@,
            wave@,
        ),
        final(img)@.input_registers == varied_all(
            old(img)@.input_registers,
            final(sim).tick,
            n@,
            wave@,
        ),
        final(img)@.coils == old(img)@.coils,
        final(img)@.discrete_inputs == old(img)@.discrete_inputs,
{
}

/// While no mode of the slave runs, a round does nothing. Else every holding and input
/// register varies by its text, coils and discrete inputs stay, and so do the definitions.
pub proof fn law_round_calls(
    units: &mut SimUnits,
    modes: &SlaveModes,
    sim: &mut Simulator,
    waves: &Vec<HashMap<u16, u16>>,
    r: Vec<(u8, ImageSnapshot)>,
    k: int,
    j: int,
)
    requires
        call_ensures(vary_round, (units, modes, sim, waves), r),
        old(units).wf(),
        0 <= k < old(units)@.len(),
        0 <= j < old(units)@[k].regs.len(),
    ensures
        modes.bits == 0 ==> r@.len() == 0 && final(units)@ == old(units)@ && final(sim).tick
            == old(sim).tick,
        modes.bits != 0 ==> {
            let before = old(units)@[k];
            let now = final(units)@[k];
            let d = before.regs[j];
            let at = tick_before(old(units)@, old(sim).tick, (k + 1) as nat);
            &&& final(units)@.len() == old(units)@.len()
            &&& now.unit_id == before.unit_id && now.regs == before.regs
            &&& now.image.coils == before.image.coils
            &&& now.image.discrete_inputs == before.image.discrete_inputs
            &&& d.area == "holding"@ ==> stepped(
                before.image.holding_registers,
                now.image.holding_registers,
                d.addr,
                d.vary,
                at,
                waves@[k]@,
            )
            &&& d.area == "input"@ ==> stepped(
                before.image.input_registers,
                now.image.input_registers,
                d.addr,
                d.vary,
                at,
                waves@[k]@,
            )
        },
{
    let us = old(units)@;
    let regs = us[k].regs;
    crate::state::law_registries_are_in_order(*old(units), k);
    assert forall|a: int, b: int| 0 <= a < b < regs.len() implies (#[trigger] regs[a]).area != (
    #[trigger] regs[b]).area || regs[a].addr != regs[b].addr by {
        law_order_of_registries(regs, a, b);
    }
    if modes.bits != 0 {
        law_registers_vary_by_their_texts(us, old(sim).tick, waves@, k, j);
        crate::vary::law_round_touches_registers_only(us, old(sim).tick, waves@, k);
    }
}

/// A round shows a unit, with its values, exactly where it changed a register of it.
pub proof fn law_shown_calls(
    units: &mut SimUnits,
    modes: &SlaveModes,
    sim: &mut Simulator,
    waves: &Vec<HashMap<u16, u16>>,
    r: Vec<(u8, ImageSnapshot)>,
    k: int,
)
    requires
        call_ensures(vary_round, (units, modes, sim, waves), r),
        old(units).wf(),
        0 <= k < old(units)@.len(),
        modes.bits != 0,
    ensures
        (exists|i: int| 0 <= i < r@.len() && (#[trigger] r@[i]).0 == old(units)@[k].unit_id)
            <==> final(units)@[k].image != old(units)@[k].image,
        forall|i: int|
            0 <= i < r@.len() && (#[trigger] r@[i]).0 == old(units)@[k].unit_id ==> r@[i].1@
                == final(units)@[k].image,
{
    let us = old(units)@;
    let t = old(sim).tick;
    let n = us.len();
    let shown = shown_units(us, t, waves@, n);
    crate::vary::law_changed_units_are_shown(us, t, waves@, n);
    assert(final(units)@[k].image == crate::vary::varied_unit(us, t, waves@, k).image);
    assert(shots(r@) == shown);
    if final(units)@[k].image != us[k].image {
        let e = (us[k].unit_id, crate::vary::varied_unit(us, t, waves@, k).image);
        assert(shown.contains(e));
        let i = choose|i: int| 0 <= i < shown.len() && shown[i] == e;
        assert(shots(r@)[i] == e);
        assert(r@[i].0 == us[k].unit_id);
    }
    assert forall|i: int|
        0 <= i < r@.len() && (#[trigger] r@[i]).0 == us[k].unit_id implies final(units)@[k].image
        != us[k].image && r@[i].1@ == final(units)@[k].image by {
        assert(shots(r@)[i] == shown[i]);
        let q = choose|q: int|
            {
                &&& 0 <= q < n
                &&& (#[trigger] crate::vary::varied_unit(us, t, waves@, q)).image != us[q].image
                &&& shown[i] == (
                    us[q].unit_id,
                    crate::vary::varied_unit(us, t, waves@, q).image,
                )
            };
        lemma_ids(*old(units), q, k);
    }
}

proof fn lemma_ids(units: SimUnits, a: int, b: int)
    requires
        units.wf(),
        0 <= a < units@.len(),
        0 <= b < units@.len(),
        units@[a].unit_id == units@[b].unit_id,
    ensures
        a == b,
{
    if a < b {
        crate::state::law_unit_ids(units, a, b);
    }
    if b < a {
        crate::state::law_unit_ids(units, b, a);
    }
}

proof fn lemma_place(units: SimUnits, unit_id: Option<u8>, k: int)
    requires
        units.wf(),
        0 <= k < units@.len(),
        units@[k].unit_id == target(unit_id),
    ensures
        configured(units@, target(unit_id)),
        place_of(units@, target(unit_id)) == k,
        in_order(units@[k].regs),
{
    let us = units@;
    assert forall|a: int, b: int| 0 <= a < b < us.len() implies (#[trigger] us[a]).unit_id != (
    #[trigger] us[b]).unit_id by {
        crate::state::law_unit_ids(units, a, b);
    }
    law_edits_reach_one_unit(us, target(unit_id), us[k].regs, us[k].image, k);
    crate::state::law_registries_are_in_order(units, k);
}

/// Whether units are as they were but for the one at `k`, which keeps its id.
pub open spec fn only_unit_changed(before: Seq<UnitModel>, now: Seq<UnitModel>, k: int) -> bool {
    &&& now.len() == before.len()
    &&& now[k].unit_id == before[k].unit_id
    &&& forall|i: int| 0 <= i < before.len() && i != k ==> #[trigger] now[i] == before[i]
}

/// Whether a register of a list has a slot.
pub open spec fn has_slot(defs: Seq<DefModel>, area: Seq<char>, addr: u16) -> bool {
    exists|j: int| 0 <= j < defs.len() && (#[trigger] defs[j]).area == area && defs[j].addr == addr
}

proof fn lemma_has_slot(defs: Seq<DefModel>, area: Seq<char>, addr: u16)
    ensures
        has_slot(defs, area, addr) == slot_taken(defs, area, addr),
{
    if has_slot(defs, area, addr) {
        let j = choose|j: int|
            0 <= j < defs.len() && (#[trigger] defs[j]).area == area && defs[j].addr == addr;
        assert(is_slot(defs[j], area, addr));
    }
    if slot_taken(defs, area, addr) {
        let j = choose|j: int| 0 <= j < defs.len() && is_slot(#[trigger] defs[j], area, addr);
        assert(defs[j].area == area);
    }
}

/// A register is added where its slot is free: behind the others, with the fields of the
/// input and an id that none of them has, its value in its slot and all other slots as they
/// were. Where the slot is taken nothing changes.
pub proof fn law_add_calls(
    units: &mut SimUnits,
    input: &RegInput,
    unit_id: Option<u8>,
    r: Result<RegisterDef, String>,
    k: int,
    i: int,
    area: Seq<char>,
    addr: u16,
)
    requires
        call_ensures(SimUnits::sim_reg_add, (units, input, unit_id), r),
        old(units).wf(),
        0 <= k < old(units)@.len(),
        old(units)@[k].unit_id == target(unit_id),
    ensures
        r is Err <==> has_slot(old(units)@[k].regs, input.area@, input.addr),
        r is Err ==> final(units)@ == old(units)@,
        r matches Ok(d) ==> {
            let before = old(units)@[k];
            let now = final(units)@[k];
            &&& only_unit_changed(old(units)@, final(units)@, k)
            &&& now.regs == before.regs.push(d@)
            &&& d.area@ == input.area@ && d.addr == input.addr
            &&& d.name@ == input.name@ && d.dtype@ == input.dtype@
            &&& d.access@ == input.access@ && d.vary@ == input.vary@
            &&& d.id@.len() == 16
            &&& 0 <= i < before.regs.len() ==> before.regs[i].id != d.id@
            &&& slot_holds(now.image, input.area@, input.addr, input.value)
            &&& area != input.area@ || addr != input.addr ==> slot_agrees(
                now.image,
                before.image,
                area,
                addr,
            )
        },
{
    lemma_place(*old(units), unit_id, k);
    let before = old(units)@[k];
    lemma_has_slot(before.regs, input.area@, input.addr);
    crate::slave::law_slots_are_separate(
        before.image,
        input.area@,
        input.addr,
        input.value,
        area,
        addr,
    );
    if r is Ok {
        let d = r->Ok_0;
        crate::registry::law_generated_ids(d.id@, 0);
        law_definition_fields(*input, d.id@, d.created_at_ms, d@);
        if 0 <= i < before.regs.len() && before.regs[i].id == d.id@ {
            crate::registry::law_taken_slots(before.regs, d.id@, area, addr, i);
        }
    }
}

/// A register is changed where it exists and its new slot is free or its own: it keeps its
/// place, id and time, has the fields of the input, its value stands in its new slot, and an
/// old slot that it leaves is given up. Else nothing changes.
pub proof fn law_update_calls(
    units: &mut SimUnits,
    id: &str,
    input: &RegInput,
    unit_id: Option<u8>,
    r: Result<(), String>,
    k: int,
    j: int,
    area: Seq<char>,
    addr: u16,
)
    requires
        call_ensures(SimUnits::sim_reg_update, (units, id, input, unit_id), r),
        old(units).wf(),
        0 <= k < old(units)@.len(),
        old(units)@[k].unit_id == target(unit_id),
        0 <= j < old(units)@[k].regs.len(),
        old(units)@[k].regs[j].id == id@,
    ensures
        ({
            let before = old(units)@[k];
            let now = final(units)@[k];
            let old_def = before.regs[j];
            let other = exists|i: int|
                0 <= i < before.regs.len() && i != j && (#[trigger] before.regs[i]).area
                    == input.area@ && before.regs[i].addr == input.addr;
            &&& r is Err <==> other
            &&& r is Err ==> final(units)@ == old(units)@
            &&& r is Ok ==> {
                let d = now.regs[j];
                &&& only_unit_changed(old(units)@, final(units)@, k)
                &&& now.regs == before.regs.update(j, d)
                &&& d.id == old_def.id && d.created_at_ms == old_def.created_at_ms
                &&& d.area == input.area@ && d.addr == input.addr
                &&& d.name == input.name@ && d.dtype == input.dtype@
                &&& d.access == input.access@ && d.vary == input.vary@
                &&& slot_holds(now.image, input.area@, input.addr, input.value)
                &&& old_def.area != input.area@ || old_def.addr != input.addr ==> slot_absent(
                    now.image,
                    old_def.area,
                    old_def.addr,
                )
                &&& (area != input.area@ || addr != input.addr) && (area != old_def.area || addr
                    != old_def.addr) ==> slot_agrees(now.image, before.image, area, addr)
            }
        }),
{
    lemma_place(*old(units), unit_id, k);
    let before = old(units)@[k];
    let regs = before.regs;
    law_found_definitions(regs, id@, area, addr);
    lemma_id_place(regs, id@, j);
    crate::registry::law_taken_slots(regs, id@, input.area@, input.addr, j);
    assert forall|i: int| 0 <= i < regs.len() && i != j implies (#[trigger] regs[i]).id != id@ by {
        if i < j {
            law_order_of_registries(regs, i, j);
        } else {
            law_order_of_registries(regs, j, i);
        }
    }
    if exists|i: int|
        0 <= i < regs.len() && i != j && (#[trigger] regs[i]).area == input.area@ && regs[i].addr
            == input.addr {
        let i = choose|i: int|
            0 <= i < regs.len() && i != j && (#[trigger] regs[i]).area == input.area@
                && regs[i].addr == input.addr;
        crate::registry::law_taken_slots(regs, id@, input.area@, input.addr, i);
    }
    law_changed_register_moves(before.image, regs[j], *input, area, addr);
    law_definition_fields(*input, id@, 0, regs[j]);
}

proof fn lemma_id_place(regs: Seq<DefModel>, id: Seq<char>, j: int)
    requires
        in_order(regs),
        0 <= j < regs.len(),
        regs[j].id == id,
    ensures
        crate::registry::first_id(regs, id) == j,
        crate::registry::id_known(regs, id),
{
    law_found_definitions(regs, id, Seq::empty(), 0);
    let f = crate::registry::first_id(regs, id);
    if f < j {
        law_order_of_registries(regs, f, j);
    }
}

/// A register is removed where it exists: the others stay in order, its slot is given up,
/// and all other slots stay. A register that does not exist is an error, and changes
/// nothing.
pub proof fn law_delete_calls(
    units: &mut SimUnits,
    id: &str,
    unit_id: Option<u8>,
    r: Result<(), String>,
    k: int,
    j: int,
    area: Seq<char>,
    addr: u16,
)
    requires
        call_ensures(SimUnits::sim_reg_delete, (units, id, unit_id), r),
        old(units).wf(),
        0 <= k < old(units)@.len(),
        old(units)@[k].unit_id == target(unit_id),
    ensures
        (forall|i: int|
            0 <= i < old(units)@[k].regs.len() ==> (#[trigger] old(units)@[k].regs[i]).id != id@)
            ==> r is Err && final(units)@ == old(units)@,
        0 <= j < old(units)@[k].regs.len() && old(units)@[k].regs[j].id == id@ ==> {
            let before = old(units)@[k];
            let now = final(units)@[k];
            let d = before.regs[j];
            &&& r is Ok
            &&& only_unit_changed(old(units)@, final(units)@, k)
            &&& now.regs == before.regs.remove(j)
            &&& slot_absent(now.image, d.area, d.addr)
            &&& area != d.area || addr != d.addr ==> slot_agrees(
                now.image,
                before.image,
                area,
                addr,
            )
        },
{
    lemma_place(*old(units), unit_id, k);
    let before = old(units)@[k];
    if 0 <= j < before.regs.len() && before.regs[j].id == id@ {
        lemma_id_place(before.regs, id@, j);
        let d = before.regs[j];
        crate::slave::law_slots_are_separate(
            before.image,
            d.area,
            d.addr,
            Number { bits: 0 },
            area,
            addr,
        );
    }
}

/// A command for a unit that is not configured is an error that names it, and changes
/// nothing.
pub proof fn law_missing_unit_calls(
    a: &mut SimUnits,
    b: &mut SimUnits,
    c: &mut SimUnits,
    d: &SimUnits,
    input: &RegInput,
    id: &str,
    unit_id: Option<u8>,
    p: Result<RegisterDef, String>,
    q: Result<(), String>,
    s: Result<(), String>,
    t: Result<RegListResp, String>,
)
    requires
        call_ensures(SimUnits::sim_reg_add, (a, input, unit_id), p),
        call_ensures(SimUnits::sim_reg_delete, (b, id, unit_id), q),
        call_ensures(SimUnits::sim_reg_seed, (c, unit_id), s),
        call_ensures(SimUnits::sim_reg_list, (d, None::<&str>, unit_id), t),
        !configured(old(a)@, target(unit_id)),
        !configured(old(b)@, target(unit_id)),
        !configured(old(c)@, target(unit_id)),
        !configured(d@, target(unit_id)),
    ensures
        ({
            let text = "Unit ID "@ + decimal(target(unit_id) as nat) + " 未配置"@;
            &&& p matches Err(m) && m@ == text && final(a)@ == old(a)@
            &&& q matches Err(m) && m@ == text && final(b)@ == old(b)@
            &&& s matches Err(m) && m@ == text && final(c)@ == old(c)@
            &&& t matches Err(m) && m@ == text
        }),
{
}

/// Seeding a unit takes it back to what a fresh one is: the sample registers and their
/// values, and nothing else.
pub proof fn law_seed_calls(
    units: &mut SimUnits,
    unit_id: Option<u8>,
    r: Result<(), String>,
    k: int,
    area: Seq<char>,
    addr: u16,
)
    requires
        call_ensures(SimUnits::sim_reg_seed, (units, unit_id), r),
        old(units).wf(),
        0 <= k < old(units)@.len(),
        old(units)@[k].unit_id == target(unit_id),
    ensures
        r is Ok,
        only_unit_changed(old(units)@, final(units)@, k),
        final(units)@[k].regs == sample_defs(),
        !has_slot(sample_defs(), area, addr) ==> slot_absent(final(units)@[k].image, area, addr),
        forall|j: int|
            0 <= j < sample_defs().len() && (#[trigger] sample_defs()[j]).area == area
                && sample_defs()[j].addr == addr ==> slot_holds(
                final(units)@[k].image,
                area,
                addr,
                sample_values()[j],
            ),
{
    lemma_place(*old(units), unit_id, k);
    crate::state::law_fresh_unit(target(unit_id), area, addr);
    let u = fresh_unit(target(unit_id));
    assert(u.regs == sample_defs());
}

/// A batch adds a register at each of its addresses that is free, in order, with the fields
/// that it gives, and puts its value into the slots that it adds and into no other.
pub proof fn law_batch_calls(
    units: &mut SimUnits,
    b: &BatchInput,
    unit_id: Option<u8>,
    r: Result<u16, String>,
    k: int,
    i: int,
    area: Seq<char>,
    addr: u16,
)
    requires
        call_ensures(SimUnits::sim_reg_add_batch, (units, b, unit_id), r),
        old(units).wf(),
        0 <= k < old(units)@.len(),
        old(units)@[k].unit_id == target(unit_id),
    ensures
        ({
            let before = old(units)@[k];
            let now = final(units)@[k];
            let plan = batch_defs(before.regs, *b, b.count as nat);
            &&& r matches Ok(n) && n == now.regs.len() - before.regs.len()
            &&& only_unit_changed(old(units)@, final(units)@, k)
            &&& now.regs.len() == plan.len()
            &&& 0 <= i < before.regs.len() ==> now.regs[i] == before.regs[i]
            &&& before.regs.len() <= i < now.regs.len() ==> {
                let d = now.regs[i];
                &&& d.area == b.area@ && d.dtype == b.dtype@
                &&& d.access == b.access@ && d.vary == b.vary@
                &&& d.addr == plan[i].addr && d.name == plan[i].name
                &&& b.start_addr <= d.addr < b.start_addr + b.count
                &&& !has_slot(before.regs, b.area@, d.addr)
            }
            &&& 0 <= i < b.count && b.start_addr + i <= 65535 ==> has_slot(
                now.regs,
                b.area@,
                (b.start_addr + i) as u16,
            )
            &&& has_slot(now.regs, area, addr) && !has_slot(before.regs, area, addr) ==> slot_holds(
                now.image,
                area,
                addr,
                b.value,
            )
            &&& !(has_slot(now.regs, area, addr) && !has_slot(before.regs, area, addr))
                ==> slot_agrees(now.image, before.image, area, addr)
        }),
{
    lemma_place(*old(units), unit_id, k);
    let before = old(units)@[k];
    let now = final(units)@[k];
    let n = b.count as nat;
    let plan = batch_defs(before.regs, *b, n);
    let m = before.regs.len() as int;
    law_batch(before.regs, *b, n);
    law_batch_values(before.regs, before.image, *b, n, area, addr);
    lemma_same_slots(now.regs, plan, m, area, addr);
    lemma_has_slot(before.regs, area, addr);
    lemma_has_slot(plan, area, addr);
    if 0 <= i < now.regs.len() {
        law_stamped_fields(now.regs, plan, m, i, 0);
        if i < m {
            assert(plan.take(m)[i] == plan[i]);
        } else {
            crate::registry::law_batch_registers(*b, plan[i].addr, 0);
            assert(plan[i] == batch_def(*b, plan[i].addr));
            lemma_has_slot(before.regs, b.area@, plan[i].addr);
        }
    }
    if 0 <= i < b.count && b.start_addr + i <= 65535 {
        let a = batch_addr(b.start_addr, i);
        assert(slot_taken(plan, b.area@, a));
        lemma_has_slot(plan, b.area@, a);
        lemma_same_slots(now.regs, plan, m, b.area@, a);
    }
}

proof fn lemma_same_slots(
    actual: Seq<DefModel>,
    plan: Seq<DefModel>,
    n: int,
    area: Seq<char>,
    addr: u16,
)
    requires
        crate::registry::is_stamped(actual, plan, n),
    ensures
        has_slot(actual, area, addr) == has_slot(plan, area, addr),
{
    if has_slot(actual, area, addr) {
        let j = choose|j: int|
            0 <= j < actual.len() && (#[trigger] actual[j]).area == area && actual[j].addr == addr;
        law_stamped_fields(actual, plan, n, j, 0);
        assert(plan[j].area == area);
    }
    if has_slot(plan, area, addr) {
        let j = choose|j: int|
            0 <= j < plan.len() && (#[trigger] plan[j]).area == area && plan[j].addr == addr;
        law_stamped_fields(actual, plan, n, j, 0);
        assert(actual[j].area == area);
    }
}

proof fn lemma_says_carries(actual: Seq<DefModel>, plan: Seq<DefModel>, n: int, d: DefModel)
    requires
        crate::registry::is_stamped(actual, plan, n),
        slot_says(plan, d),
    ensures
        slot_says(actual, d),
{
    let k = choose|k: int| 0 <= k < plan.len() && says_same(#[trigger] plan[k], d);
    law_stamped_fields(actual, plan, n, k, 0);
    assert(says_same(actual[k], d));
    assert forall|i: int|
        0 <= i < actual.len() && (#[trigger] actual[i]).area == d.area && actual[i].addr
            == d.addr implies says_same(actual[i], d) by {
        law_stamped_fields(actual, plan, n, i, 0);
        assert(says_same(plan[i], d));
    }
}

/// After an import with replacing, the definition of every slot that a row names says what
/// the last row for it says, field by field, and the slot holds that row's value, whether
/// or not it was taken before. Without replacing this holds of the first row for a slot that
/// was free.
pub proof fn law_import_calls(
    units: &mut SimUnits,
    rows: &Vec<Vec<String>>,
    values: &Vec<Number>,
    replace: bool,
    unit_id: Option<u8>,
    r: Result<(u32, u32), String>,
    k: int,
    q: int,
    d: DefModel,
)
    requires
        call_ensures(SimUnits::sim_reg_import, (units, rows, values, replace, unit_id), r),
        old(units).wf(),
        0 <= k < old(units)@.len(),
        old(units)@[k].unit_id == target(unit_id),
        0 <= q < rows@.len(),
        row_def(row_texts(rows@)[q], row_area(row_texts(rows@)[q])) == Some(d),
        replace ==> forall|p: int|
            q < p < rows@.len() ==> !row_names(#[trigger] row_texts(rows@)[p], d.area, d.addr),
        !replace ==> !slot_taken(old(units)@[k].regs, d.area, d.addr) && forall|p: int|
            0 <= p < q ==> !row_names(#[trigger] row_texts(rows@)[p], d.area, d.addr),
    ensures
        r is Ok,
        only_unit_changed(old(units)@, final(units)@, k),
        slot_says(final(units)@[k].regs, d),
        slot_holds(final(units)@[k].image, d.area, d.addr, values@[q]),
{
    lemma_place(*old(units), unit_id, k);
    let before = old(units)@[k];
    let texts = row_texts(rows@);
    let s = ImportModel { defs: before.regs, image: before.image, imported: 0, skipped: 0 };
    assert forall|a: int, b: int| 0 <= a < b < s.defs.len() implies (#[trigger] s.defs[a]).area != (
    #[trigger] s.defs[b]).area || s.defs[a].addr != s.defs[b].addr by {
        law_order_of_registries(s.defs, a, b);
    }
    if replace {
        law_last_row_counts(s, texts, values@, q, d);
    } else {
        law_first_row_counts(s, texts, values@, q, d);
    }
    lemma_says_carries(
        final(units)@[k].regs,
        import_rows_model(s, texts, values@, replace).defs,
        before.regs.len() as int,
        d,
    );
}

/// An import leaves the slots that no row names as they were, and without replacing those
/// that were taken.
pub proof fn law_import_elsewhere_calls(
    units: &mut SimUnits,
    rows: &Vec<Vec<String>>,
    values: &Vec<Number>,
    replace: bool,
    unit_id: Option<u8>,
    r: Result<(u32, u32), String>,
    k: int,
    d: DefModel,
)
    requires
        call_ensures(SimUnits::sim_reg_import, (units, rows, values, replace, unit_id), r),
        old(units).wf(),
        0 <= k < old(units)@.len(),
        old(units)@[k].unit_id == target(unit_id),
        (forall|q: int|
            0 <= q < rows@.len() ==> !row_names(#[trigger] row_texts(rows@)[q], d.area, d.addr)) || (
        !replace && slot_taken(old(units)@[k].regs, d.area, d.addr)),
    ensures
        r matches Ok(n) && n.0 + n.1 == rows@.len(),
        slot_agrees(final(units)@[k].image, old(units)@[k].image, d.area, d.addr),
        slot_says(old(units)@[k].regs, d) ==> slot_says(final(units)@[k].regs, d),
        has_slot(final(units)@[k].regs, d.area, d.addr) == has_slot(
            old(units)@[k].regs,
            d.area,
            d.addr,
        ),
{
    lemma_place(*old(units), unit_id, k);
    let before = old(units)@[k];
    let texts = row_texts(rows@);
    let s = ImportModel { defs: before.regs, image: before.image, imported: 0, skipped: 0 };
    let end = import_rows_model(s, texts, values@, replace);
    law_unnamed_slots_stay(s, texts, values@, replace, d);
    crate::registry::law_import(s, texts, values@, replace);
    let n = before.regs.len() as int;
    lemma_same_slots(final(units)@[k].regs, end.defs, n, d.area, d.addr);
    lemma_has_slot(before.regs, d.area, d.addr);
    lemma_has_slot(end.defs, d.area, d.addr);
    if slot_says(before.regs, d) {
        lemma_says_carries(final(units)@[k].regs, end.defs, n, d);
    }
}

/// There is one unit at first, with the id one. A unit is added for an id from 1 to 247 that
/// is not there, behind the others and as a fresh one; else nothing changes.
pub proof fn law_unit_add_calls(
    first: SimUnits,
    units: &mut SimUnits,
    unit_id: u8,
    r: Result<(), String>,
    all: &SimUnits,
    list: Vec<(u8, usize)>,
    i: int,
)
    requires
        call_ensures(SimUnits::new, (), first),
        call_ensures(SimUnits::unit_add, (units, unit_id), r),
        call_ensures(SimUnits::unit_list, (all,), list),
        old(units).wf(),
        0 <= i < all@.len(),
    ensures
        first@ == seq![fresh_unit(1)],
        first.wf(),
        final(units).wf(),
        r is Ok <==> unit_id >= 1 && unit_id <= 247 && forall|j: int|
            0 <= j < old(units)@.len() ==> (#[trigger] old(units)@[j]).unit_id != unit_id,
        r is Ok ==> final(units)@ == old(units)@.push(fresh_unit(unit_id)),
        r is Err ==> final(units)@ == old(units)@,
        list@.len() == all@.len(),
        list@[i].0 == all@[i].unit_id,
        list@[i].1 == all@[i].regs.len() as usize,
{
    assert(configured(old(units)@, unit_id) <==> exists|j: int|
        0 <= j < old(units)@.len() && (#[trigger] old(units)@[j]).unit_id == unit_id);
}

/// A unit is removed where it is there and is not the last one; the others stay in order.
pub proof fn law_unit_remove_calls(
    units: &mut SimUnits,
    unit_id: u8,
    r: Result<(), String>,
    k: int,
)
    requires
        call_ensures(SimUnits::unit_remove, (units, unit_id), r),
        old(units).wf(),
    ensures
        final(units).wf(),
        0 <= k < old(units)@.len() && old(units)@[k].unit_id == unit_id && old(units)@.len() > 1
            ==> r is Ok && final(units)@ == old(units)@.remove(k),
        old(units)@.len() == 1 ==> r is Err,
        (forall|j: int|
            0 <= j < old(units)@.len() ==> (#[trigger] old(units)@[j]).unit_id != unit_id) ==> r
            is Err,
        r is Err ==> final(units)@ == old(units)@,
{
    if 0 <= k < old(units)@.len() && old(units)@[k].unit_id == unit_id {
        lemma_place(*old(units), Some(unit_id), k);
    }
}

/// A value that an editor sets in a unit is in its snapshot, at the low sixteen bits of the
/// address, and the other areas and units are as they were.
pub proof fn law_edit_calls(
    units: &mut SimUnits,
    at: usize,
    v: u16,
    unit_id: Option<u8>,
    r: Result<(), String>,
    coils: &mut SimUnits,
    on: bool,
    s: Result<(), String>,
    next: &SimUnits,
    shot: Result<ImageSnapshot, String>,
    k: int,
)
    requires
        call_ensures(SimUnits::sim_set_register, (units, at, v, unit_id), r),
        call_ensures(SimUnits::sim_set_coil, (coils, at, on, unit_id), s),
        call_ensures(SimUnits::sim_snapshot, (next, unit_id), shot),
        old(units).wf(),
        *old(coils) == *final(units),
        *next == *final(coils),
        0 <= k < old(units)@.len(),
        old(units)@[k].unit_id == target(unit_id),
    ensures
        r is Ok && s is Ok,
        only_unit_changed(old(units)@, next@, k),
        next@[k].regs == old(units)@[k].regs,
        shot matches Ok(x) && ({
            let a = (at as int % 65536) as u16;
            &&& x@.holding_registers == old(units)@[k].image.holding_registers.insert(a, v)
            &&& x@.coils == old(units)@[k].image.coils.insert(a, on)
            &&& x@.input_registers == old(units)@[k].image.input_registers
            &&& x@.discrete_inputs == old(units)@[k].image.discrete_inputs
        }),
{
    crate::wire::law_low_bits(at as int);
    lemma_place(*old(units), unit_id, k);
    lemma_place(*old(coils), unit_id, k);
    lemma_place(*next, unit_id, k);
}

/// The same of an input register and a discrete input; and a reset leaves no value, and all
/// definitions.
pub proof fn law_input_edit_calls(
    units: &mut SimUnits,
    at: usize,
    v: u16,
    unit_id: Option<u8>,
    r: Result<(), String>,
    bits: &mut SimUnits,
    on: bool,
    s: Result<(), String>,
    gone: &mut SimUnits,
    t: Result<(), String>,
    k: int,
)
    requires
        call_ensures(SimUnits::sim_set_input, (units, at, v, unit_id), r),
        call_ensures(SimUnits::sim_set_discrete, (bits, at, on, unit_id), s),
        call_ensures(SimUnits::sim_reset, (gone, unit_id), t),
        old(units).wf(),
        *old(bits) == *final(units),
        *old(gone) == *final(bits),
        0 <= k < old(units)@.len(),
        old(units)@[k].unit_id == target(unit_id),
    ensures
        r is Ok && s is Ok && t is Ok,
        ({
            let a = (at as int % 65536) as u16;
            let before = old(units)@[k].image;
            let x = final(bits)@[k].image;
            let z = final(gone)@[k].image;
            &&& x.input_registers == before.input_registers.insert(a, v)
            &&& x.discrete_inputs == before.discrete_inputs.insert(a, on)
            &&& x.holding_registers == before.holding_registers && x.coils == before.coils
            &&& z.coils.dom().is_empty() && z.discrete_inputs.dom().is_empty()
            &&& z.input_registers.dom().is_empty() && z.holding_registers.dom().is_empty()
            &&& final(gone)@[k].regs == old(units)@[k].regs
            &&& only_unit_changed(old(units)@, final(gone)@, k)
        }),
{
    crate::wire::law_low_bits(at as int);
    lemma_place(*old(units), unit_id, k);
    lemma_place(*old(bits), unit_id, k);
    lemma_place(*old(gone), unit_id, k);
}

/// All registers of a unit are listed in order, with its values, where no search text is
/// given.
pub proof fn law_list_calls(
    units: &SimUnits,
    unit_id: Option<u8>,
    r: Result<RegListResp, String>,
    id: u8,
    s: Result<RegListResp, String>,
    k: int,
)
    requires
        call_ensures(SimUnits::sim_reg_list, (units, None::<&str>, unit_id), r),
        call_ensures(SimUnits::unit_regs, (units, id), s),
        units.wf(),
        0 <= k < units@.len(),
        units@[k].unit_id == target(unit_id),
        id == target(unit_id),
    ensures
        r matches Ok(p) && p.unit_id == id && def_models(p.defs@) == units@[k].regs && p.snapshot@
            == units@[k].image,
        s matches Ok(p) && p.unit_id == id && def_models(p.defs@) == units@[k].regs && p.snapshot@
            == units@[k].image,
{
    lemma_place(*units, unit_id, k);
}

/// The workbook of a unit has one sheet, with the registers of that unit and their values.
pub proof fn law_export_calls(
    units: &SimUnits,
    unit_id: Option<u8>,
    r: Result<rust_xlsxwriter::Workbook, String>,
    k: int,
)
    requires
        call_ensures(sim_reg_export, (units, unit_id), r),
        units.wf(),
        0 <= k < units@.len(),
        units@[k].unit_id == target(unit_id),
    ensures
        r matches Ok(wb) && sheet_names(wb) == seq!["寄存器列表"@] && sheet_of(wb) == filled(
            units@[k].regs,
            units@[k].image,
            units@[k].regs.len(),
        ),
{
    lemma_place(*units, unit_id, k);
}

/// A mode that was started runs until it is stopped, by itself or with all others; no other
/// mode is touched.
pub proof fn law_running_mode_calls(
    fresh: SlaveModes,
    a: &mut SlaveModes,
    mode: &str,
    u: (),
    b: &mut SlaveModes,
    c: &mut SlaveModes,
    names: Vec<&'static str>,
    other: Seq<char>,
)
    requires
        call_ensures(SlaveModes::new, (), fresh),
        call_ensures(SlaveModes::started, (a, mode), u),
        call_ensures(SlaveModes::stop, (b, mode), u),
        call_ensures(SlaveModes::stop_all, (c,), names),
        crate::slave_control::mode_bit(mode@) != 0,
        crate::slave_control::mode_bit(other) != 0,
    ensures
        !fresh.runs(other),
        final(a).runs(mode@),
        !final(b).runs(mode@),
        other != mode@ ==> final(a).runs(other) == old(a).runs(other) && final(b).runs(other)
            == old(b).runs(other),
        !final(c).runs(other),
        crate::slave_control::name_texts(names@) == crate::slave_control::running_names(
            old(c).bits,
        ),
{
    crate::slave_control::law_modes_are_independent(old(a).bits, mode@, other);
    crate::slave_control::law_modes_are_independent(old(b).bits, mode@, other);
    crate::slave_control::law_stop_all_stops_all(old(c).bits, other);
    let x = crate::slave_control::mode_bit(other);
    assert(0u8 & x == 0) by (bit_vector);
}

/// The status tells of each mode whether it runs, and some mode runs where any bit is set.
pub proof fn law_status_calls(m: &SlaveModes, s: ModeStatus, any: bool)
    requires
        call_ensures(SlaveModes::status, (m,), s),
        call_ensures(SlaveModes::any, (m,), any),
    ensures
        s.tcp == m.runs("tcp"@),
        s.udp == m.runs("udp"@),
        s.rtu_tcp == m.runs("rtu_tcp"@),
        s.rtu_udp == m.runs("rtu_udp"@),
        s.rtu == m.runs("rtu"@),
        any == (m.bits != 0),
{
    crate::slave_control::law_mode_bits("tcp"@);
    crate::slave_control::law_mode_bits("udp"@);
    crate::slave_control::law_mode_bits("rtu"@);
    crate::slave_control::law_mode_bits("rtu_tcp"@);
    crate::slave_control::law_mode_bits("rtu_udp"@);
}

/// To start a mode is to stop it first, and to set up what the request asks for.
pub proof fn law_start_calls(
    m: &mut SlaveModes,
    req: &SlaveStartReq,
    r: Result<SlavePlan, String>,
    other: Seq<char>,
)
    requires
        call_ensures(SlaveModes::begin_start, (m, req), r),
        crate::slave_control::mode_bit(req.mode@) != 0,
        crate::slave_control::mode_bit(other) != 0,
    ensures
        !final(m).runs(req.mode@),
        other != req.mode@ ==> final(m).runs(other) == old(m).runs(other),
        r is Ok <==> crate::slave_control::plan_for(*req) is Ok,
        r matches Ok(p) ==> crate::slave_control::plan_for(*req) == Ok::<PlanModel, Seq<char>>(p@),
        r matches Err(t) ==> crate::slave_control::plan_for(*req) == Err::<PlanModel, Seq<char>>(
            t@,
        ),
{
    crate::slave_control::law_modes_are_independent(old(m).bits, req.mode@, other);
}

/// A poll runs from its start to its stop, by itself or with all others; one that runs is
/// not started again, and no other poll is touched.
pub proof fn law_poll_table_calls(
    fresh: PollTable,
    a: &mut PollTable,
    id: u32,
    r: Result<(), String>,
    b: &mut PollTable,
    was: bool,
    c: &mut PollTable,
    u: (),
    d: &PollTable,
    any: bool,
    other: u32,
)
    requires
        call_ensures(PollTable::new, (), fresh),
        call_ensures(PollTable::start_poll, (a, id), r),
        call_ensures(PollTable::stop_poll, (b, id), was),
        call_ensures(PollTable::stop_all_polls, (c,), u),
        call_ensures(PollTable::is_running, (d,), any),
    ensures
        !fresh.polls().contains(other),
        r is Ok <==> !old(a).polls().contains(id),
        final(a).polls().contains(id),
        r matches Err(m) ==> m@ == "poll "@ + decimal(id as nat) + " already running"@,
        was == old(b).polls().contains(id),
        !final(b).polls().contains(id),
        other != id ==> final(a).polls().contains(other) == old(a).polls().contains(other),
        other != id ==> final(b).polls().contains(other) == old(b).polls().contains(other),
        !final(c).polls().contains(other),
        d.polls().contains(other) ==> any,
{
}

/// A poll asks for what it was made for, and shows of an exchange the values in the
/// response and both frames, of an error its text, and ends where the connection is gone.
pub proof fn law_poll_calls(
    id: u32,
    name: String,
    func: &str,
    code: u8,
    addr: u16,
    count: u16,
    unit_id: u8,
    p: Poll,
    ask: Vec<u8>,
    x: Exchange,
    values: Vec<u16>,
    resp: &[u8],
    shown: Option<PollFrame>,
    m: String,
    failed: Option<PollFrame>,
    gone: Option<PollFrame>,
)
    requires
        call_ensures(crate::commands::parse_func, (func,), code),
        call_ensures(Poll::new, (id, name, func, addr, count, unit_id), p),
        call_ensures(Poll::request, (&p,), ask),
        call_ensures(crate::commands::decode_read, (resp, code, count as usize), values),
        call_ensures(Poll::on_outcome, (&p, Some(Ok::<Exchange, String>(x))), shown),
        call_ensures(Poll::on_outcome, (&p, Some(Err::<Exchange, String>(m))), failed),
        call_ensures(Poll::on_outcome, (&p, None::<Result<Exchange, String>>), gone),
        resp@ == x.resp@,
    ensures
        p.unit_id == unit_id,
        ask@.len() == 5 && ask@[0] == code,
        256 * ask@[1] + ask@[2] == addr && 256 * ask@[3] + ask@[4] == count,
        shown matches Some(f) && f.poll_id == id && f.poll_name@ == name@ && f.addr == addr && (
        f.regs matches Some(v) && v@ == values@) && f.rtt_ms == Some(x.rtt_ms) && f.error is None
            && f.tx@ == crate::hex::hex_text(x.tx@) && f.rx@ == crate::hex::hex_text(x.rx@),
        failed matches Some(f) && f.poll_id == id && f.addr == addr && f.regs is None && f.error
            == Some(m),
        gone is None,
{
    crate::slave::law_short_request_layout(code, addr, count);
}

/// A fresh workspace is empty and of the first schema; one that was read is taken as it is
/// unless its schema is zero.
pub proof fn law_workspace_calls(fresh: Workspace, w: Workspace, r: Result<Workspace, String>)
    requires
        call_ensures(Workspace::new, (), fresh),
        call_ensures(Workspace::accept, (w,), r),
    ensures
        fresh.schema == 1,
        fresh.connections@.len() == 0 && fresh.polls@.len() == 0,
        fresh.aliases@.dom().is_empty(),
        r is Ok <==> w.schema != 0,
        r matches Ok(x) ==> x == w,
{
}

/// The sample registers have their values, areas have their names, and ids are sixteen
/// digits of a hash value.
pub proof fn law_sample_calls(
    s: Vec<RegSample>,
    i: int,
    area: &str,
    label: &'static str,
    h: u64,
    id: String,
)
    requires
        call_ensures(default_reg_samples, (), s),
        call_ensures(area_label, (area,), label),
        call_ensures(id_from_hash, (h,), id),
        0 <= i < s@.len(),
    ensures
        s@.len() == 8,
        s@[i].def@ == sample_defs()[i],
        s@[i].value == sample_values()[i],
        label@ == "未知区域"@ <==> area@ != "holding"@ && area@ != "input"@ && area@ != "coil"@
            && area@ != "discrete"@,
        id@.len() == 16,
        id@ == crate::text::fixed_digits(h as nat, 16, 16, false),
{
    crate::simreg::law_area_labels(area@);
    crate::simreg::law_id_digits(h, 0);
    reveal_strlit("未知区域");
    reveal_strlit("保持寄存器");
    reveal_strlit("输入寄存器");
    reveal_strlit("线圈");
    reveal_strlit("离散输入");
    assert("未知区域"@[0] == '未' && "保持寄存器"@[0] == '保' && "输入寄存器"@[0] == '输'
        && "线圈"@[0] == '线' && "离散输入"@[0] == '离');
}

/// For each unit the samples of the wave are asked for at its own tick, and at the addresses
/// of its registers that follow the wave.
pub proof fn law_wave_request_calls(
    units: &SimUnits,
    tick: u64,
    r: Vec<(u64, Vec<u16>)>,
    k: int,
    j: int,
)
    requires
        call_ensures(wave_requests, (units, tick), r),
        units.wf(),
        0 <= k < units@.len(),
        0 <= j < units@[k].regs.len(),
        lowered(units@[k].regs[j].vary) == "sine"@,
        units@[k].regs[j].area == "holding"@ || units@[k].regs[j].area == "input"@,
    ensures
        r@.len() == units@.len(),
        r@[k].0 == tick_before(units@, tick, (k + 1) as nat),
        r@[k].1@.contains(units@[k].regs[j].addr),
{
    let d = units@[k].regs[j];
    crate::simulator::law_mode_names(d.vary);
    let i = law_varying_registers_are_listed(units@[k].regs, d.area, j);
    let list = crate::state::vary_list(units@[k].regs, d.area);
    assert(list[i] == (d.addr, VaryMode::Sine));
    crate::vary::law_asked_samples(list, d.addr);
    let h = crate::vary::sine_addrs(crate::state::vary_list(units@[k].regs, "holding"@));
    let n = crate::vary::sine_addrs(crate::state::vary_list(units@[k].regs, "input"@));
    assert(r@[k].1@ == h + n);
    let s = crate::vary::sine_addrs(list);
    let p = choose|p: int| 0 <= p < s.len() && s[p] == d.addr;
    if d.area == "holding"@ {
        assert((h + n)[p] == d.addr);
    } else {
        assert((h + n)[h.len() + p] == d.addr);
    }
}

/// A search lists the registers of a unit that the keyword finds, in order.
pub proof fn law_search_calls(
    units: &SimUnits,
    text: &str,
    unit_id: Option<u8>,
    r: Result<RegListResp, String>,
    k: int,
)
    requires
        call_ensures(SimUnits::sim_reg_list, (units, Some(text), unit_id), r),
        units.wf(),
        0 <= k < units@.len(),
        units@[k].unit_id == target(unit_id),
    ensures
        r matches Ok(p) && p.unit_id == target(unit_id) && p.snapshot@ == units@[k].image
            && def_models(p.defs@) == crate::registry::listed(
            units@[k].regs,
            crate::text::unicode_lowercase(crate::text::trimmed(text@)),
        ),
{
    lemma_place(*units, unit_id, k);
}

/// An import looks at the rows below the first that have at least seven cells.
pub proof fn law_usable_row_calls(rows: Vec<Vec<String>>, r: Vec<Vec<String>>)
    requires
        call_ensures(crate::registry::usable_rows, (rows,), r),
    ensures
        row_texts(r@) == crate::registry::usable(row_texts(rows@)),
        rows@.len() <= 1 ==> r@.len() == 0,
{
    crate::registry::law_usable_rows(row_texts(rows@), Seq::empty());
    assert(row_texts(r@).len() == r@.len());
}

/// The id that is found free is one that no definition has.
pub proof fn law_free_id_calls(defs: &Vec<RegisterDef>, drawn: u64, r: String, i: int)
    requires
        call_ensures(crate::registry::free_id, (defs, drawn), r),
        0 <= i < defs@.len(),
    ensures
        r@ != defs@[i].id@,
        r@.len() == 16,
{
    let m = def_models(defs@);
    assert(m[i] == defs@[i]@);
    crate::registry::law_generated_ids(r@, 0);
    crate::registry::law_taken_slots(m, r@, m[i].area, m[i].addr, i);
}

/// What is exported of a slot, and the name of the file.
pub proof fn law_export_value_calls(
    s: &ImageSnapshot,
    area: &str,
    addr: u16,
    v: u16,
    unit_id: u8,
    name: String,
)
    requires
        call_ensures(crate::sheet::export_value_of, (s, area, addr), v),
        call_ensures(crate::sheet::export_file_name, (unit_id,), name),
    ensures
        area@ == "holding"@ ==> v == (if s.holding_registers@.contains_key(addr) {
            s.holding_registers@[addr]
        } else {
            0
        }),
        area@ == "input"@ ==> v == (if s.input_registers@.contains_key(addr) {
            s.input_registers@[addr]
        } else {
            0
        }),
        area@ == "coil"@ ==> v == (if s.coils@.contains_key(addr) && s.coils@[addr] {
            1u16
        } else {
            0
        }),
        area@ == "discrete"@ ==> v == (if s.discrete_inputs@.contains_key(addr)
            && s.discrete_inputs@[addr] {
            1u16
        } else {
            0
        }),
        name@ == "modbus_unit"@ + decimal(unit_id as nat) + "_regs.xlsx"@,
{
    crate::sheet::law_exported_values(s@, area@, addr);
    crate::slave::lemma_area_names();
}

} // verus!
