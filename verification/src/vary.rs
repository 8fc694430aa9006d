//! One round of the registers that vary by themselves, over all units.

use std::collections::HashMap;
use vstd::prelude::*;
use crate::server::ImageSnapshot;
use crate::simreg::DefModel;
use crate::simulator::{current, law_only_listed_addresses, sampled, varied_all, Simulator, VaryMode};
use crate::slave::{same_entry, ImageModel};
use crate::slave_control::SlaveModes;
use crate::text::lowered;
use crate::state::{takes_tick, varied_image, vary_list, vary_lists, SimUnits, UnitModel};

verus! {

/// The tick at which the registers of the `n`-th unit vary, and the tick count after the
/// first `n` units: a unit whose registers are stepped takes a tick
/// of its own.
pub open spec fn tick_before(units: Seq<UnitModel>, tick: u64, n: nat) -> u64
    decreases n,
{
    if n == 0 {
        tick
    } else {
        let prev = tick_before(units, tick, (n - 1) as nat);
        if takes_tick(units[n - 1]) {
            prev.wrapping_add(1)
        } else {
            prev
        }
    }
}

/// A unit after a round.
pub open spec fn varied_unit(
    units: Seq<UnitModel>,
    tick: u64,
    waves: Seq<HashMap<u16, u16>>,
    k: int,
) -> UnitModel {
    if takes_tick(units[k]) {
        UnitModel {
            image: varied_image(
                units[k],
                tick_before(units, tick, (k + 1) as nat),
                waves[k]@,
            ),
            ..units[k]
        }
    } else {
        units[k]
    }
}

/// The units after the first `n` of them have taken part in a round.
pub open spec fn varied_units(
    units: Seq<UnitModel>,
    tick: u64,
    waves: Seq<HashMap<u16, u16>>,
    n: nat,
) -> Seq<UnitModel> {
    Seq::new(
        units.len(),
        |k: int|
            if k < n {
                varied_unit(units, tick, waves, k)
            } else {
                units[k]
            },
    )
}

/// What is shown of the first `n` units of a round: the id and the values of each in
/// which the round changed a register.
pub open spec fn shown_units(
    units: Seq<UnitModel>,
    tick: u64,
    waves: Seq<HashMap<u16, u16>>,
    n: nat,
) -> Seq<(u8, ImageModel)>
    decreases n,
{
    if n == 0 {
        Seq::empty()
    } else {
        let prev = shown_units(units, tick, waves, (n - 1) as nat);
        if varied_unit(units, tick, waves, n - 1).image != units[n - 1].image {
            prev.push(
                (
                    units[n - 1].unit_id,
                    varied_unit(units, tick, waves, n - 1).image,
                ),
            )
        } else {
            prev
        }
    }
}

/// The ids and values of snapshots.
pub open spec fn shots(v: Seq<(u8, ImageSnapshot)>) -> Seq<(u8, ImageModel)> {
    Seq::new(v.len(), |i: int| (v[i].0, v[i].1@))
}

/// Whether there is a sample of the wave for every register that follows it.
pub open spec fn waves_ready(units: Seq<UnitModel>, waves: Seq<HashMap<u16, u16>>) -> bool {
    &&& waves.len() == units.len()
    &&& forall|k: int|
        0 <= k < units.len() ==> sampled(vary_list((#[trigger] units[k]).regs, "holding"@), waves[k]@)
            && sampled(vary_list(units[k].regs, "input"@), waves[k]@)
}

/// The addresses of a list that follow the wave.
pub open spec fn sine_addrs(list: Seq<(u16, VaryMode)>) -> Seq<u16>
    decreases list.len(),
{
    if list.len() == 0 {
        Seq::empty()
    } else if list.last().1 == VaryMode::Sine {
        sine_addrs(list.drop_last()).push(list.last().0)
    } else {
        sine_addrs(list.drop_last())
    }
}

fn push_sine_addrs(out: &mut Vec<u16>, list: &Vec<(u16, VaryMode)>)
    ensures
        final(out)@ == old(out)@ + sine_addrs(list@),
{
    let ghost start = out@;
    let mut i: usize = 0;
    proof {
        assert(list@.take(0) =~= Seq::empty());
        assert(out@ =~= start + sine_addrs(list@.take(0)));
    }
    while i < list.len()
        invariant
            i <= list@.len(),
            out@ == start + sine_addrs(list@.take(i as int)),
        decreases list@.len() - i,
    {
        proof {
            let next = list@.take(i + 1);
            assert(next.drop_last() =~= list@.take(i as int));
            assert(next.last() == list@[i as int]);
        }
        if list[i].1 == VaryMode::Sine {
            out.push(list[i].0);
        }
        i += 1;
        assert(out@ =~= start + sine_addrs(list@.take(i as int)));
    }
    assert(list@.take(i as int) =~= list@);
}

/// For each unit the tick at which it takes part in the next round, and the addresses
/// whose sample of the wave at that tick the round needs.
pub fn wave_requests(units: &SimUnits, tick: u64) -> (r: Vec<(u64, Vec<u16>)>)
    requires
        units.wf(),
    ensures
        r@.len() == units@.len(),
        forall|k: int|
            0 <= k < r@.len() ==> (#[trigger] r@[k]).0 == tick_before(
                units@,
                tick,
                (k + 1) as nat,
            ) && r@[k].1@ == sine_addrs(vary_list(units@[k].regs, "holding"@)) + sine_addrs(
                vary_list(units@[k].regs, "input"@),
            ),
{
    let mut out: Vec<(u64, Vec<u16>)> = Vec::new();
    let mut now: u64 = tick;
    let mut k: usize = 0;
    while k < units.units.len()
        invariant
            k <= units.units@.len(),
            units@.len() == units.units@.len(),
            out@.len() == k,
            now == tick_before(units@, tick, k as nat),
            forall|j: int|
                0 <= j < k ==> (#[trigger] out@[j]).0 == tick_before(
                    units@,
                    tick,
                    (j + 1) as nat,
                ) && out@[j].1@ == sine_addrs(vary_list(units@[j].regs, "holding"@)) + sine_addrs(
                    vary_list(units@[j].regs, "input"@),
                ),
        decreases units.units@.len() - k,
    {
        let (holding, input) = vary_lists(&units.units[k].regs);
        if holding.len() > 0 || input.len() > 0 {
            now = now.wrapping_add(1);
        }
        let mut addrs: Vec<u16> = Vec::new();
        push_sine_addrs(&mut addrs, &holding);
        push_sine_addrs(&mut addrs, &input);
        assert(addrs@ =~= sine_addrs(holding@) + sine_addrs(input@));
        out.push((now, addrs));
        k += 1;
    }
    out
}

/// One round: while some mode of the slave runs, the registers of all units that vary by
/// themselves take a step. Returns the units in which that changed a register, with
/// their values. `waves` has, for each unit, the samples of the wave that it needs.
pub fn vary_round(
    units: &mut SimUnits,
    modes: &SlaveModes,
    sim: &mut Simulator,
    waves: &Vec<HashMap<u16, u16>>,
) -> (r: Vec<(u8, ImageSnapshot)>)
    requires
        old(units).wf(),
        waves_ready(old(units)@, waves@),
    ensures
        final(units).wf(),
        modes.bits == 0 ==> {
            &&& r@.len() == 0
            &&& final(units)@ == old(units)@
            &&& final(sim).tick == old(sim).tick
        },
        modes.bits != 0 ==> {
            let n = old(units)@.len();
            &&& final(units)@ == varied_units(old(units)@, old(sim).tick, waves@, n)
            &&& final(sim).tick == tick_before(old(units)@, old(sim).tick, n)
            &&& shots(r@) == shown_units(old(units)@, old(sim).tick, waves@, n)
        },
{
    let mut out: Vec<(u8, ImageSnapshot)> = Vec::new();
    if !modes.any() {
        return out;
    }
    let ghost start = units@;
    let ghost tick = sim.tick;
    let n: usize = units.units.len();
    let mut k: usize = 0;
    proof {
        assert(units@ =~= varied_units(start, tick, waves@, 0));
        assert(shots(out@) =~= shown_units(start, tick, waves@, 0));
    }
    while k < n
        invariant
            k <= n,
            n == start.len(),
            units.wf(),
            waves_ready(start, waves@),
            units@ == varied_units(start, tick, waves@, k as nat),
            sim.tick == tick_before(start, tick, k as nat),
            shots(out@) == shown_units(start, tick, waves@, k as nat),
        decreases n - k,
    {
        let ghost u = start[k as int];
        let ghost before = units@;
        let ghost shown = shots(out@);
        proof {
            assert(units@[k as int] == u);
            assert(units@.len() == units.units@.len());
            assert(sampled(vary_list(start[k as int].regs, "holding"@), waves@[k as int]@));
        }
        let unit_id: u8 = units.units[k].unit_id;
        assert(unit_id == u.unit_id);
        match units.vary_unit(k, sim, &waves[k]) {
            None => {
                assert(units@ =~= varied_units(start, tick, waves@, (k + 1) as nat));
            },
            Some(snap) => {
                let ghost image = snap@;
                out.push((unit_id, snap));
                assert(shots(out@) =~= shown.push((unit_id, image)));
                assert(units@ =~= varied_units(start, tick, waves@, (k + 1) as nat));
            },
        }
        k += 1;
    }
    out
}

proof fn lemma_sine_addrs(list: Seq<(u16, VaryMode)>, i: int)
    requires
        0 <= i < list.len(),
        list[i].1 == VaryMode::Sine,
    ensures
        sine_addrs(list).contains(list[i].0),
    decreases list.len(),
{
    let front = list.drop_last();
    if i < front.len() {
        lemma_sine_addrs(front, i);
        let k = choose|k: int| 0 <= k < sine_addrs(front).len() && sine_addrs(front)[k] == front[i].0;
        assert(sine_addrs(list)[k] == list[i].0);
    } else {
        let all = sine_addrs(list);
        assert(all[all.len() - 1] == list[i].0);
    }
}

/// Samples for the addresses that were asked for are all that a round needs.
pub proof fn law_requested_samples_suffice(list: Seq<(u16, VaryMode)>, sine: Map<u16, u16>)
    requires
        forall|j: int|
            0 <= j < sine_addrs(list).len() ==> sine.contains_key(#[trigger] sine_addrs(list)[j]),
    ensures
        sampled(list, sine),
{
    assert forall|i: int| 0 <= i < list.len() && (#[trigger] list[i]).1
        == VaryMode::Sine implies sine.contains_key(list[i].0) by {
        lemma_sine_addrs(list, i);
        let j = choose|j: int|
            0 <= j < sine_addrs(list).len() && sine_addrs(list)[j] == list[i].0;
        assert(sine.contains_key(sine_addrs(list)[j]));
    }
}

/// A round touches no coil and no discrete input, no register definition and no unit
/// whose vary texts are all "off".
pub proof fn law_round_touches_registers_only(
    units: Seq<UnitModel>,
    tick: u64,
    waves: Seq<HashMap<u16, u16>>,
    k: int,
)
    requires
        0 <= k < units.len(),
    ensures
        ({
            let now = varied_units(units, tick, waves, units.len())[k];
            &&& now.unit_id == units[k].unit_id
            &&& now.regs == units[k].regs
            &&& now.image.coils == units[k].image.coils
            &&& now.image.discrete_inputs == units[k].image.discrete_inputs
            &&& !takes_tick(units[k]) ==> now == units[k]
        }),
{
}

proof fn lemma_listed(defs: Seq<DefModel>, area: Seq<char>, i: int)
    requires
        0 <= i < vary_list(defs, area).len(),
    ensures
        exists|j: int|
            0 <= j < defs.len() && (#[trigger] defs[j]).area == area && defs[j].vary != "off"@
                && vary_list(defs, area)[i] == (defs[j].addr, VaryMode::named(defs[j].vary)),
    decreases defs.len(),
{
    let front = defs.drop_last();
    if i < vary_list(front, area).len() {
        lemma_listed(front, area, i);
        let j = choose|j: int|
            0 <= j < front.len() && (#[trigger] front[j]).area == area && front[j].vary != "off"@
                && vary_list(front, area)[i] == (front[j].addr, VaryMode::named(front[j].vary));
        assert(defs[j] == front[j]);
    } else {
        assert(defs[defs.len() - 1] == defs.last());
    }
}

/// A register whose vary text is "off", or stands for no mode, keeps its value in a
/// round, and so does one that no definition names.
pub proof fn law_off_registers_stay(
    defs: Seq<DefModel>,
    area: Seq<char>,
    m: Map<u16, u16>,
    tick: u64,
    sine: Map<u16, u16>,
    addr: u16,
)
    requires
        forall|j: int|
            0 <= j < defs.len() && (#[trigger] defs[j]).area == area && defs[j].addr == addr ==> (
            defs[j].vary == "off"@ || VaryMode::named(defs[j].vary) == VaryMode::Off),
    ensures
        ({
            let now = varied_all(m, tick, vary_list(defs, area), sine);
            &&& now.contains_key(addr) == m.contains_key(addr)
            &&& m.contains_key(addr) ==> now[addr] == m[addr]
        }),
{
    let list = vary_list(defs, area);
    assert forall|i: int| 0 <= i < list.len() implies (#[trigger] list[i]).0 != addr
        || list[i].1 == VaryMode::Off by {
        lemma_listed(defs, area, i);
    }
    law_only_listed_addresses(m, tick, list, sine, addr);
    let now = varied_all(m, tick, list, sine);
    assert(current(now, addr) == current(m, addr));
}

/// A round shows a unit exactly where it changed a register of it, with the values after
/// the round.
pub proof fn law_changed_units_are_shown(
    units: Seq<UnitModel>,
    tick: u64,
    waves: Seq<HashMap<u16, u16>>,
    n: nat,
)
    requires
        n <= units.len(),
    ensures
        forall|k: int|
            0 <= k < n && (#[trigger] varied_unit(units, tick, waves, k)).image != units[k].image
                ==> shown_units(units, tick, waves, n).contains(
                (units[k].unit_id, varied_unit(units, tick, waves, k).image),
            ),
        forall|i: int|
            0 <= i < shown_units(units, tick, waves, n).len() ==> exists|k: int|
                {
                    &&& 0 <= k < n
                    &&& (#[trigger] varied_unit(units, tick, waves, k)).image != units[k].image
                    &&& #[trigger] shown_units(units, tick, waves, n)[i] == (
                        units[k].unit_id,
                        varied_unit(units, tick, waves, k).image,
                    )
                },
    decreases n,
{
    if n > 0 {
        let m = (n - 1) as nat;
        law_changed_units_are_shown(units, tick, waves, m);
        let prev = shown_units(units, tick, waves, m);
        let all = shown_units(units, tick, waves, n);
        assert forall|k: int|
            0 <= k < n && (#[trigger] varied_unit(units, tick, waves, k)).image
                != units[k].image implies all.contains(
            (units[k].unit_id, varied_unit(units, tick, waves, k).image),
        ) by {
            let e = (units[k].unit_id, varied_unit(units, tick, waves, k).image);
            if k < m {
                let i = choose|i: int| 0 <= i < prev.len() && prev[i] == e;
                assert(all[i] == e);
            } else {
                assert(all[all.len() - 1] == e);
            }
        }
        assert forall|i: int| 0 <= i < all.len() implies exists|k: int|
            {
                &&& 0 <= k < n
                &&& (#[trigger] varied_unit(units, tick, waves, k)).image != units[k].image
                &&& #[trigger] all[i] == (
                    units[k].unit_id,
                    varied_unit(units, tick, waves, k).image,
                )
            } by {
            if i < prev.len() {
                assert(all[i] == prev[i]);
                let k = choose|k: int|
                    {
                        &&& 0 <= k < m
                        &&& (#[trigger] varied_unit(units, tick, waves, k)).image != units[k].image
                        &&& prev[i] == (
                            units[k].unit_id,
                            varied_unit(units, tick, waves, k).image,
                        )
                    };
                assert(varied_unit(units, tick, waves, k).image != units[k].image);
            } else {
                let k = n - 1;
                assert(varied_unit(units, tick, waves, k).image != units[k].image);
            }
        }
    }
}

/// Every register of an area whose vary text is other than "off" stands in the list of
/// that area with its address and the mode of its text, whatever its name, type and access.
pub proof fn law_varying_registers_are_listed(defs: Seq<DefModel>, area: Seq<char>, j: int) -> (i:
    int)
    requires
        0 <= j < defs.len(),
        defs[j].area == area,
        defs[j].vary != "off"@,
    ensures
        0 <= i < vary_list(defs, area).len(),
        vary_list(defs, area)[i] == (defs[j].addr, VaryMode::named(defs[j].vary)),
    decreases defs.len(),
{
    let front = defs.drop_last();
    if j < front.len() {
        law_varying_registers_are_listed(front, area, j)
    } else {
        vary_list(front, area).len() as int
    }
}

proof fn lemma_list_distinct(defs: Seq<DefModel>, area: Seq<char>)
    requires
        forall|a: int, b: int|
            0 <= a < b < defs.len() ==> (#[trigger] defs[a]).area != (#[trigger] defs[b]).area
                || defs[a].addr != defs[b].addr,
    ensures
        forall|a: int, b: int|
            0 <= a < b < vary_list(defs, area).len() ==> (#[trigger] vary_list(defs, area)[a]).0 != (
            #[trigger] vary_list(defs, area)[b]).0,
    decreases defs.len(),
{
    if defs.len() > 0 {
        let front = defs.drop_last();
        assert forall|a: int, b: int| 0 <= a < b < front.len() implies (#[trigger] front[a]).area
            != (#[trigger] front[b]).area || front[a].addr != front[b].addr by {
            assert(front[a] == defs[a] && front[b] == defs[b]);
        }
        lemma_list_distinct(front, area);
        let list = vary_list(front, area);
        let all = vary_list(defs, area);
        assert forall|a: int, b: int| 0 <= a < b < all.len() implies (#[trigger] all[a]).0 != (
        #[trigger] all[b]).0 by {
            assert(all[a] == list[a]);
            if b < list.len() {
                assert(all[b] == list[b]);
            } else {
                lemma_listed(front, area, a);
                let j = choose|j: int|
                    0 <= j < front.len() && (#[trigger] front[j]).area == area && front[j].vary
                        != "off"@ && list[a] == (
                        front[j].addr,
                        VaryMode::named(front[j].vary),
                    );
                assert(front[j] == defs[j]);
                assert(defs[j].area != defs[defs.len() - 1].area || defs[j].addr != defs[defs.len()
                    - 1].addr);
            }
        }
    }
}

/// A register as it stands after a step at a tick, by its vary text: "increment" counts
/// up, "sine" follows the wave, "random" scrambles, and any other text leaves it.
#[verifier::opaque]
pub open spec fn stepped(
    before: Map<u16, u16>,
    now: Map<u16, u16>,
    addr: u16,
    vary: Seq<char>,
    tick: u64,
    wave: Map<u16, u16>,
) -> bool {
    let cur: u16 = if before.contains_key(addr) {
        before[addr]
    } else {
        0
    };
    let x = tick.wrapping_mul(2654435761).wrapping_add(cur as u64);
    let p = x ^ (x << 13);
    let q = p ^ (p >> 7);
    if lowered(vary) == "increment"@ {
        now.contains_key(addr) && now[addr] as int == (cur + 1) % 65536
    } else if lowered(vary) == "sine"@ {
        now.contains_key(addr) && now[addr] == wave[addr]
    } else if lowered(vary) == "random"@ {
        now.contains_key(addr) && now[addr] as int == (q ^ (q << 17)) as int % 65536
    } else {
        now.contains_key(addr) == before.contains_key(addr) && (before.contains_key(addr)
            ==> now[addr] == before[addr])
    }
}

proof fn lemma_area_steps(
    defs: Seq<DefModel>,
    area: Seq<char>,
    m: Map<u16, u16>,
    tick: u64,
    wave: Map<u16, u16>,
    j: int,
)
    requires
        forall|a: int, b: int|
            0 <= a < b < defs.len() ==> (#[trigger] defs[a]).area != (#[trigger] defs[b]).area
                || defs[a].addr != defs[b].addr,
        0 <= j < defs.len(),
        defs[j].area == area,
    ensures
        stepped(
            m,
            varied_all(m, tick, vary_list(defs, area), wave),
            defs[j].addr,
            defs[j].vary,
            tick,
            wave,
        ),
{
    let d = defs[j];
    reveal(stepped);
    crate::simulator::law_mode_names(d.vary);
    if d.vary == "off"@ {
        assert forall|i: int|
            0 <= i < defs.len() && (#[trigger] defs[i]).area == area && defs[i].addr
                == d.addr implies defs[i].vary == "off"@ || VaryMode::named(defs[i].vary)
            == VaryMode::Off by {
            if i < j {
                assert(defs[i].area != defs[j].area || defs[i].addr != defs[j].addr);
            } else if j < i {
                assert(defs[j].area != defs[i].area || defs[j].addr != defs[i].addr);
            }
        }
        law_off_registers_stay(defs, area, m, tick, wave, d.addr);
    } else {
        let i = law_varying_registers_are_listed(defs, area, j);
        lemma_list_distinct(defs, area);
        crate::simulator::law_entry_effects(m, tick, vary_list(defs, area), wave, i);
    }
}

proof fn lemma_round_steps(
    u: UnitModel,
    at: u64,
    wave: Map<u16, u16>,
    now: ImageModel,
    j: int,
)
    requires
        0 <= j < u.regs.len(),
        forall|a: int, b: int|
            0 <= a < b < u.regs.len() ==> (#[trigger] u.regs[a]).area != (#[trigger] u.regs[b]).area
                || u.regs[a].addr != u.regs[b].addr,
        now.holding_registers == varied_all(
            u.image.holding_registers,
            at,
            vary_list(u.regs, "holding"@),
            wave,
        ),
        now.input_registers == varied_all(
            u.image.input_registers,
            at,
            vary_list(u.regs, "input"@),
            wave,
        ),
    ensures
        u.regs[j].area == "holding"@ ==> stepped(
            u.image.holding_registers,
            now.holding_registers,
            u.regs[j].addr,
            u.regs[j].vary,
            at,
            wave,
        ),
        u.regs[j].area == "input"@ ==> stepped(
            u.image.input_registers,
            now.input_registers,
            u.regs[j].addr,
            u.regs[j].vary,
            at,
            wave,
        ),
{
    if u.regs[j].area == "holding"@ {
        lemma_area_steps(u.regs, "holding"@, u.image.holding_registers, at, wave, j);
    }
    if u.regs[j].area == "input"@ {
        lemma_area_steps(u.regs, "input"@, u.image.input_registers, at, wave, j);
    }
}

/// Every register of the holding and the input area takes part in a round by its vary
/// text alone, whatever its name, type and access: one that counts up is one higher
/// afterwards, one that follows the wave has its sample, a random one is scrambled, and
/// any other is as it was.
pub proof fn law_registers_vary_by_their_texts(
    units: Seq<UnitModel>,
    tick: u64,
    waves: Seq<HashMap<u16, u16>>,
    k: int,
    j: int,
)
    requires
        0 <= k < units.len(),
        0 <= j < units[k].regs.len(),
        forall|a: int, b: int|
            0 <= a < b < units[k].regs.len() ==> (#[trigger] units[k].regs[a]).area != (
            #[trigger] units[k].regs[b]).area || units[k].regs[a].addr != units[k].regs[b].addr,
    ensures
        ({
            let before = units[k].image;
            let now = varied_units(units, tick, waves, units.len())[k].image;
            let d = units[k].regs[j];
            let at = tick_before(units, tick, (k + 1) as nat);
            &&& d.area == "holding"@ ==> stepped(
                before.holding_registers,
                now.holding_registers,
                d.addr,
                d.vary,
                at,
                waves[k]@,
            )
            &&& d.area == "input"@ ==> stepped(
                before.input_registers,
                now.input_registers,
                d.addr,
                d.vary,
                at,
                waves[k]@,
            )
        }),
{
    let d = units[k].regs[j];
    let defs = units[k].regs;
    let at = tick_before(units, tick, (k + 1) as nat);
    if d.area == "holding"@ || d.area == "input"@ {
        if !takes_tick(units[k]) {
            assert(vary_list(defs, "holding"@) =~= Seq::empty());
            assert(vary_list(defs, "input"@) =~= Seq::empty());
        }
        let before = units[k].image;
        let now = varied_units(units, tick, waves, units.len())[k].image;
        assert(now == varied_unit(units, tick, waves, k).image);
        assert(now.holding_registers == varied_all(
            before.holding_registers,
            at,
            vary_list(defs, "holding"@),
            waves[k]@,
        ));
        assert(now.input_registers == varied_all(
            before.input_registers,
            at,
            vary_list(defs, "input"@),
            waves[k]@,
        ));
        lemma_round_steps(units[k], at, waves[k]@, now, j);
    }
}

/// A unit takes a tick of its own exactly where a holding or input register of it has a
/// vary text other than "off"; ticks count up from unit to unit.
pub proof fn law_ticks(units: Seq<UnitModel>, tick: u64, k: int)
    requires
        0 <= k < units.len(),
    ensures
        tick_before(units, tick, 0) == tick,
        (exists|j: int|
            0 <= j < units[k].regs.len() && (#[trigger] units[k].regs[j]).vary != "off"@ && (
            units[k].regs[j].area == "holding"@ || units[k].regs[j].area == "input"@))
            ==> tick_before(units, tick, (k + 1) as nat) == tick_before(
            units,
            tick,
            k as nat,
        ).wrapping_add(1),
        (forall|j: int|
            0 <= j < units[k].regs.len() && ((#[trigger] units[k].regs[j]).area == "holding"@
                || units[k].regs[j].area == "input"@) ==> units[k].regs[j].vary == "off"@)
            ==> tick_before(units, tick, (k + 1) as nat) == tick_before(units, tick, k as nat),
{
    let regs = units[k].regs;
    if exists|j: int|
        0 <= j < regs.len() && (#[trigger] regs[j]).vary != "off"@ && (regs[j].area == "holding"@
            || regs[j].area == "input"@) {
        let j = choose|j: int|
            0 <= j < regs.len() && (#[trigger] regs[j]).vary != "off"@ && (regs[j].area
                == "holding"@ || regs[j].area == "input"@);
        let i = law_varying_registers_are_listed(regs, regs[j].area, j);
    }
    if vary_list(regs, "holding"@).len() > 0 {
        lemma_listed(regs, "holding"@, 0);
    }
    if vary_list(regs, "input"@).len() > 0 {
        lemma_listed(regs, "input"@, 0);
    }
}

proof fn lemma_only_sine_addrs(list: Seq<(u16, VaryMode)>, a: u16)
    requires
        sine_addrs(list).contains(a),
    ensures
        exists|i: int| 0 <= i < list.len() && #[trigger] list[i] == (a, VaryMode::Sine),
    decreases list.len(),
{
    if list.len() > 0 {
        let front = list.drop_last();
        let k = choose|k: int| 0 <= k < sine_addrs(list).len() && sine_addrs(list)[k] == a;
        if k < sine_addrs(front).len() {
            assert(sine_addrs(front)[k] == a);
            lemma_only_sine_addrs(front, a);
            let i = choose|i: int| 0 <= i < front.len() && #[trigger] front[i] == (a, VaryMode::Sine);
            assert(list[i] == front[i]);
        } else {
            assert(list[list.len() - 1] == list.last());
        }
    }
}

/// Samples of the wave are asked for at the addresses that follow it, and at no others.
pub proof fn law_asked_samples(list: Seq<(u16, VaryMode)>, a: u16)
    ensures
        sine_addrs(list).contains(a) <==> exists|i: int|
            0 <= i < list.len() && #[trigger] list[i] == (a, VaryMode::Sine),
{
    if sine_addrs(list).contains(a) {
        lemma_only_sine_addrs(list, a);
    }
    if exists|i: int| 0 <= i < list.len() && #[trigger] list[i] == (a, VaryMode::Sine) {
        let i = choose|i: int| 0 <= i < list.len() && #[trigger] list[i] == (a, VaryMode::Sine);
        lemma_sine_addrs(list, i);
    }
}

/// A register that no definition of its area names is as it was after a round.
pub proof fn law_undefined_registers_stay(
    units: Seq<UnitModel>,
    tick: u64,
    waves: Seq<HashMap<u16, u16>>,
    k: int,
    addr: u16,
)
    requires
        0 <= k < units.len(),
    ensures
        ({
            let before = units[k].image;
            let now = varied_units(units, tick, waves, units.len())[k].image;
            &&& (forall|j: int|
                0 <= j < units[k].regs.len() ==> (#[trigger] units[k].regs[j]).area != "holding"@
                    || units[k].regs[j].addr != addr) ==> same_entry(
                now.holding_registers,
                before.holding_registers,
                addr,
            )
            &&& (forall|j: int|
                0 <= j < units[k].regs.len() ==> (#[trigger] units[k].regs[j]).area != "input"@
                    || units[k].regs[j].addr != addr) ==> same_entry(
                now.input_registers,
                before.input_registers,
                addr,
            )
        }),
{
    let defs = units[k].regs;
    let at = tick_before(units, tick, (k + 1) as nat);
    if forall|j: int|
        0 <= j < defs.len() ==> (#[trigger] defs[j]).area != "holding"@ || defs[j].addr != addr {
        law_off_registers_stay(
            defs,
            "holding"@,
            units[k].image.holding_registers,
            at,
            waves[k]@,
            addr,
        );
    }
    if forall|j: int|
        0 <= j < defs.len() ==> (#[trigger] defs[j]).area != "input"@ || defs[j].addr != addr {
        law_off_registers_stay(
            defs,
            "input"@,
            units[k].image.input_registers,
            at,
            waves[k]@,
            addr,
        );
    }
}

/// Units are shown in their order, each once: the next one joins those before it exactly
/// where the round changed a register of it.
pub proof fn law_units_are_shown_in_order(
    units: Seq<UnitModel>,
    tick: u64,
    waves: Seq<HashMap<u16, u16>>,
    k: int,
)
    requires
        0 <= k < units.len(),
    ensures
        shown_units(units, tick, waves, 0).len() == 0,
        ({
            let now = varied_units(units, tick, waves, units.len())[k].image;
            let prev = shown_units(units, tick, waves, k as nat);
            let next = shown_units(units, tick, waves, (k + 1) as nat);
            if now == units[k].image {
                next == prev
            } else {
                next == prev.push((units[k].unit_id, now))
            }
        }),
{
}

/// What is shown of snapshots is their unit ids and their values, in order.
pub proof fn law_shots(v: Seq<(u8, ImageSnapshot)>, i: int)
    requires
        0 <= i < v.len(),
    ensures
        shots(v).len() == v.len(),
        shots(v)[i].0 == v[i].0,
        shots(v)[i].1 == v[i].1@,
{
}

} // verus!
