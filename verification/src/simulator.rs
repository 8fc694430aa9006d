//! The auto-vary generator: drives registers of a data image so that a master can be
//! exercised without hardware.

use std::collections::HashMap;
use vstd::prelude::*;
use crate::slave::{DataImage, ImageModel};
use crate::text::{lowered, same, to_ascii_lower};
use crate::wire::low16;

verus! {

/// How a register varies.
#[derive(Debug, Clone, Copy, PartialEq, Eq, Structural)]
pub enum VaryMode {
    Off,
    Sine,
    Random,
    Increment,
}

impl VaryMode {
    /// The mode that a name stands for, small and capital ASCII letters alike; a name
    /// that stands for none means off.
    pub open spec fn named(s: Seq<char>) -> VaryMode {
        if lowered(s) == "sine"@ {
            VaryMode::Sine
        } else if lowered(s) == "random"@ {
            VaryMode::Random
        } else if lowered(s) == "increment"@ {
            VaryMode::Increment
        } else {
            VaryMode::Off
        }
    }

    /// Reads a mode from its name.
    pub fn parse(s: &str) -> (r: Self)
        ensures
            r == VaryMode::named(s@),
    {
        let t = to_ascii_lower(s);
        if same(t.as_str(), "sine") {
            VaryMode::Sine
        } else if same(t.as_str(), "random") {
            VaryMode::Random
        } else if same(t.as_str(), "increment") {
            VaryMode::Increment
        } else {
            VaryMode::Off
        }
    }
}

/// One scramble of a 64-bit xorshift generator.
pub open spec fn xorshift(x: u64) -> u64 {
    let a = x ^ (x << 13);
    let b = a ^ (a >> 7);
    b ^ (b << 17)
}

/// The value that a varying register counts on from; nothing written counts as zero.
pub open spec fn current(m: Map<u16, u16>, addr: u16) -> u16 {
    if m.contains_key(addr) {
        m[addr]
    } else {
        0
    }
}

/// The pseudo-random successor of a register value at a tick.
pub open spec fn random_next(tick: u64, cur: u16) -> u16 {
    low16(xorshift(tick.wrapping_mul(2654435761).wrapping_add(cur as u64)) as int)
}

/// A register area after one entry of a vary list was applied; `sine` gives the
/// sample of the wave at each address.
pub open spec fn varied(
    m: Map<u16, u16>,
    tick: u64,
    entry: (u16, VaryMode),
    sine: Map<u16, u16>,
) -> Map<u16, u16> {
    match entry.1 {
        VaryMode::Off => m,
        VaryMode::Sine => m.insert(entry.0, sine[entry.0]),
        VaryMode::Random => m.insert(entry.0, random_next(tick, current(m, entry.0))),
        VaryMode::Increment => m.insert(entry.0, low16(current(m, entry.0) + 1)),
    }
}

/// A register area after all entries of a vary list were applied, in order.
pub open spec fn varied_all(
    m: Map<u16, u16>,
    tick: u64,
    list: Seq<(u16, VaryMode)>,
    sine: Map<u16, u16>,
) -> Map<u16, u16>
    decreases list.len(),
{
    if list.len() == 0 {
        m
    } else {
        varied(varied_all(m, tick, list.drop_last(), sine), tick, list.last(), sine)
    }
}

/// Whether `sine` has a sample for every address of `list` that follows the wave.
pub open spec fn sampled(list: Seq<(u16, VaryMode)>, sine: Map<u16, u16>) -> bool {
    forall|i: int|
        0 <= i < list.len() && (#[trigger] list[i]).1 == VaryMode::Sine ==> sine.contains_key(
            list[i].0,
        )
}

/// The generator: it holds nothing but the tick counter. The registers live in a
/// data image, and each has a vary mode of its own.
pub struct Simulator {
    pub tick: u64,
}

impl Simulator {
    /// A generator that has not ticked yet.
    pub fn new() -> (r: Self)
        ensures
            r.tick == 0,
    {
        Simulator { tick: 0 }
    }

    /// Advances the generator by one tick. `holding_varies` and `input_varies` list
    /// addresses with their modes, and only those addresses are touched. `sine` holds
    /// the sample of the wave, at the new tick, for every address that follows it.
    pub fn step_on(
        &mut self,
        img: &mut DataImage,
        holding_varies: &[(u16, VaryMode)],
        input_varies: &[(u16, VaryMode)],
        sine: &HashMap<u16, u16>,
    )
        requires
            sampled(holding_varies@, sine@),
            sampled(input_varies@, sine@),
        ensures
            final(self).tick == old(self).tick.wrapping_add(1),
            final(img)@ == (ImageModel {
                holding_registers: varied_all(
                    old(img)@.holding_registers,
                    final(self).tick,
                    holding_varies@,
                    sine@,
                ),
                input_registers: varied_all(
                    old(img)@.input_registers,
                    final(self).tick,
                    input_varies@,
                    sine@,
                ),
                ..old(img)@
            }),
    {
        self.tick = self.tick.wrapping_add(1);
        vary_area(&mut img.holding_registers, self.tick, holding_varies, sine);
        vary_area(&mut img.input_registers, self.tick, input_varies, sine);
    }
}

impl Default for Simulator {
    fn default() -> (r: Self)
        ensures
            r.tick == 0,
    {
        Simulator::new()
    }
}

fn vary_area(
    area: &mut HashMap<u16, u16>,
    tick: u64,
    list: &[(u16, VaryMode)],
    sine: &HashMap<u16, u16>,
)
    requires
        sampled(list@, sine@),
    ensures
        final(area)@ == varied_all(old(area)@, tick, list@, sine@),
{
    let mut i: usize = 0;
    let ghost start = area@;
    assert(list@.take(0) =~= Seq::<(u16, VaryMode)>::empty());
    while i < list.len()
        invariant
            i <= list@.len(),
            sampled(list@, sine@),
            area@ == varied_all(start, tick, list@.take(i as int), sine@),
        decreases list@.len() - i,
    {
        let addr: u16 = list[i].0;
        let mode: VaryMode = list[i].1;
        let cur: u16 = match area.get(&addr) {
            Some(v) => *v,
            None => 0,
        };
        proof {
            let next = list@.take(i + 1);
            assert(next.drop_last() =~= list@.take(i as int));
            assert(next.last() == list@[i as int]);
        }
        match mode {
            VaryMode::Off => {},
            VaryMode::Sine => {
                let v: u16 = match sine.get(&addr) {
                    Some(v) => *v,
                    None => 0,
                };
                area.insert(addr, v);
            },
            VaryMode::Random => {
                let seed: u64 = tick.wrapping_mul(2654435761).wrapping_add(cur as u64);
                let v: u16 = (fast_rand(seed) % 65536) as u16;
                area.insert(addr, v);
            },
            VaryMode::Increment => {
                let v: u16 = if cur == 65535 {
                    0
                } else {
                    cur + 1
                };
                area.insert(addr, v);
            },
        }
        i += 1;
    }
    assert(list@.take(i as int) =~= list@);
}

/// A tiny deterministic pseudo-random generator (xorshift).
fn fast_rand(x: u64) -> (r: u64)
    ensures
        r == xorshift(x),
{
    let a: u64 = x ^ (x << 13);
    let b: u64 = a ^ (a >> 7);
    b ^ (b << 17)
}

/// An address that no entry of the list names keeps its state; one that an entry
/// names with a mode other than off exists afterwards.
pub proof fn law_only_listed_addresses(
    m: Map<u16, u16>,
    tick: u64,
    list: Seq<(u16, VaryMode)>,
    sine: Map<u16, u16>,
    a: u16,
)
    ensures
        (forall|i: int|
            0 <= i < list.len() ==> (#[trigger] list[i]).0 != a || list[i].1 == VaryMode::Off) ==> {
            &&& varied_all(m, tick, list, sine).contains_key(a) == m.contains_key(a)
            &&& current(varied_all(m, tick, list, sine), a) == current(m, a)
        },
        m.contains_key(a) ==> varied_all(m, tick, list, sine).contains_key(a),
        (exists|i: int|
            0 <= i < list.len() && (#[trigger] list[i]).0 == a && list[i].1 != VaryMode::Off)
            ==> varied_all(m, tick, list, sine).contains_key(a),
    decreases list.len(),
{
    if list.len() > 0 {
        let front = list.drop_last();
        law_only_listed_addresses(m, tick, front, sine, a);
        if forall|i: int|
            0 <= i < list.len() ==> (#[trigger] list[i]).0 != a || list[i].1 == VaryMode::Off {
            assert forall|i: int| 0 <= i < front.len() implies (#[trigger] front[i]).0 != a
                || front[i].1 == VaryMode::Off by {
                assert(front[i] == list[i]);
            }
            assert(list[list.len() - 1] == list.last());
        }
        if exists|i: int|
            0 <= i < list.len() && (#[trigger] list[i]).0 == a && list[i].1 != VaryMode::Off {
            let i = choose|i: int|
                0 <= i < list.len() && (#[trigger] list[i]).0 == a && list[i].1 != VaryMode::Off;
            if i < front.len() {
                assert(front[i] == list[i]);
            }
        }
    }
}

/// Whether a step left every register as it was. Only the listed registers are compared,
/// for a step touches no other.
pub(crate) fn is_unchanged(
    before: &HashMap<u16, u16>,
    now: &HashMap<u16, u16>,
    list: &Vec<(u16, VaryMode)>,
    Ghost(tick): Ghost<u64>,
    Ghost(sine): Ghost<Map<u16, u16>>,
) -> (r: bool)
    requires
        now@ == varied_all(before@, tick, list@, sine),
    ensures
        r == (now@ == before@),
{
    let mut i: usize = 0;
    while i < list.len()
        invariant
            i <= list@.len(),
            forall|j: int|
                0 <= j < i ==> {
                    let a = (#[trigger] list@[j]).0;
                    now@.contains_key(a) == before@.contains_key(a) && current(now@, a) == current(
                        before@,
                        a,
                    )
                },
        decreases list@.len() - i,
    {
        let a: u16 = list[i].0;
        let same: bool = match (before.get(&a), now.get(&a)) {
            (None, None) => true,
            (Some(x), Some(y)) => *x == *y,
            _ => false,
        };
        if !same {
            return false;
        }
        i += 1;
    }
    proof {
        assert forall|a: u16|
            now@.contains_key(a) == before@.contains_key(a) && current(now@, a) == #[trigger] current(
                before@,
                a,
            ) by {
            law_only_listed_addresses(before@, tick, list@, sine, a);
            if exists|j: int| 0 <= j < list@.len() && (#[trigger] list@[j]).0 == a {
                let j = choose|j: int| 0 <= j < list@.len() && (#[trigger] list@[j]).0 == a;
                assert(list@[j].0 == a);
            }
        }
        assert forall|a: u16| now@.contains_key(a) == #[trigger] before@.contains_key(a) by {
            assert(current(now@, a) == current(before@, a));
        }
        assert forall|a: u16| #[trigger] now@.contains_key(a) implies now@[a] == before@[a] by {
            assert(current(now@, a) == current(before@, a));
            assert(before@.contains_key(a));
        }
        assert(now@ =~= before@);
    }
    true
}

/// Where a list names each address once, every entry acts on the value that the
/// register had before the tick: the order of the entries does not matter.
pub proof fn law_entries_are_independent(
    m: Map<u16, u16>,
    tick: u64,
    list: Seq<(u16, VaryMode)>,
    sine: Map<u16, u16>,
    k: int,
)
    requires
        forall|i: int, j: int|
            0 <= i < j < list.len() ==> (#[trigger] list[i]).0 != (#[trigger] list[j]).0,
        0 <= k < list.len(),
    ensures
        current(varied_all(m, tick, list, sine), list[k].0) == current(
            varied(m, tick, list[k], sine),
            list[k].0,
        ),
    decreases list.len(),
{
    let front = list.drop_last();
    let a = list[k].0;
    assert forall|i: int, j: int| 0 <= i < j < front.len() implies (#[trigger] front[i]).0 != (
    #[trigger] front[j]).0 by {
        assert(front[i] == list[i] && front[j] == list[j]);
    }
    if k < front.len() {
        law_entries_are_independent(m, tick, front, sine, k);
        assert(front[k] == list[k]);
        assert(list[list.len() - 1].0 != a);
    } else {
        assert forall|i: int| 0 <= i < front.len() implies (#[trigger] front[i]).0 != a
            || front[i].1 == VaryMode::Off by {
            assert(front[i] == list[i]);
        }
        law_only_listed_addresses(m, tick, front, sine, a);
    }
}

/// A name stands for a mode in small or capital letters; no other text stands for it.
pub proof fn law_mode_names(s: Seq<char>)
    ensures
        VaryMode::named(s) is Sine <==> lowered(s) == "sine"@,
        VaryMode::named(s) is Random <==> lowered(s) == "random"@,
        VaryMode::named(s) is Increment <==> lowered(s) == "increment"@,
        s == "off"@ ==> VaryMode::named(s) is Off,
{
    reveal_strlit("sine");
    reveal_strlit("random");
    reveal_strlit("increment");
    reveal_strlit("off");
    assert("sine"@.len() == 4 && "random"@.len() == 6 && "increment"@.len() == 9);
    assert("off"@.len() == 3);
}

/// At a tick a listed register that counts up is one higher than before, 65535 being
/// followed by zero; one that follows the wave has the sample for its address; one that is
/// random has the low half of a xorshift of the tick and its value; and one that is off
/// stays. A register that was never written counts as zero.
pub proof fn law_entry_effects(
    m: Map<u16, u16>,
    tick: u64,
    list: Seq<(u16, VaryMode)>,
    sine: Map<u16, u16>,
    k: int,
)
    requires
        forall|i: int, j: int|
            0 <= i < j < list.len() ==> (#[trigger] list[i]).0 != (#[trigger] list[j]).0,
        0 <= k < list.len(),
    ensures
        ({
            let a = list[k].0;
            let now = varied_all(m, tick, list, sine);
            let cur: u16 = if m.contains_key(a) {
                m[a]
            } else {
                0
            };
            let x = tick.wrapping_mul(2654435761).wrapping_add(cur as u64);
            let p = x ^ (x << 13);
            let q = p ^ (p >> 7);
            match list[k].1 {
                VaryMode::Off => now.contains_key(a) == m.contains_key(a) && (m.contains_key(a)
                    ==> now[a] == m[a]),
                VaryMode::Increment => now.contains_key(a) && now[a] as int == (cur + 1) % 65536,
                VaryMode::Sine => now.contains_key(a) && now[a] == sine[a],
                VaryMode::Random => now.contains_key(a) && now[a] as int == (q ^ (q << 17)) as int
                    % 65536,
            }
        }),
{
    let a = list[k].0;
    law_entries_are_independent(m, tick, list, sine, k);
    law_only_listed_addresses(m, tick, list, sine, a);
    let now = varied_all(m, tick, list, sine);
    if list[k].1 is Off {
        assert forall|i: int| 0 <= i < list.len() implies (#[trigger] list[i]).0 != a || list[i].1
            == VaryMode::Off by {
            if i < k {
                assert(list[i].0 != list[k].0);
            } else if k < i {
                assert(list[k].0 != list[i].0);
            }
        }
        assert(current(now, a) == current(m, a));
    } else {
        assert(list[k].0 == a && list[k].1 != VaryMode::Off);
        assert(current(now, a) == now[a]);
    }
}

} // verus!
