//! The register registry of a unit: adding, changing, removing, listing and importing
//! register definitions, together with the slots of the data image behind them.

use vstd::prelude::*;
use vstd::string::*;
use crate::number::Number;
use crate::simreg::{area_label, area_label_text, clock_hash, def_models, id_from_hash, id_text, is_generated, law_hashes_have_own_ids, now_ms, sample_defs, sample_values, seed, slots_written, DefModel, RegInput, RegisterDef};
use crate::slave::{empty_image, law_slots_are_separate, slot_absent, slot_agrees, slot_cleared, slot_holds, slot_written, DataImage, ImageModel};
use crate::text::{ascii_rule, contains, decimal, fixed_digits, lowered, occurs_in, parse_decimal, parsed, push_decimal, push_fixed, same, to_decimal, to_lowercase, trim, trimmed, unicode_lowercase};

verus! {

/// Whether a definition stands for the slot `addr` of an area.
pub open spec fn is_slot(d: DefModel, area: Seq<char>, addr: u16) -> bool {
    d.area == area && d.addr == addr
}

/// Whether some definition stands for the slot `addr` of an area.
pub open spec fn slot_taken(defs: Seq<DefModel>, area: Seq<char>, addr: u16) -> bool {
    exists|i: int| 0 <= i < defs.len() && is_slot(#[trigger] defs[i], area, addr)
}

/// Whether the first definition for a slot stands at `i`.
pub open spec fn is_first_slot(defs: Seq<DefModel>, area: Seq<char>, addr: u16, i: int) -> bool {
    &&& 0 <= i < defs.len()
    &&& is_slot(defs[i], area, addr)
    &&& forall|j: int| 0 <= j < i ==> !is_slot(#[trigger] defs[j], area, addr)
}

/// Where the first definition for a slot stands.
pub open spec fn first_slot(defs: Seq<DefModel>, area: Seq<char>, addr: u16) -> int {
    choose|i: int| is_first_slot(defs, area, addr, i)
}

/// Whether a definition other than those with `id` stands for a slot.
pub open spec fn slot_taken_by_other(
    defs: Seq<DefModel>,
    id: Seq<char>,
    area: Seq<char>,
    addr: u16,
) -> bool {
    exists|i: int|
        0 <= i < defs.len() && (#[trigger] defs[i]).id != id && is_slot(defs[i], area, addr)
}

/// Whether some definition has `id`.
pub open spec fn id_known(defs: Seq<DefModel>, id: Seq<char>) -> bool {
    exists|i: int| 0 <= i < defs.len() && (#[trigger] defs[i]).id == id
}

/// Whether the first definition with `id` stands at `i`.
pub open spec fn is_first_id(defs: Seq<DefModel>, id: Seq<char>, i: int) -> bool {
    &&& 0 <= i < defs.len()
    &&& defs[i].id == id
    &&& forall|j: int| 0 <= j < i ==> (#[trigger] defs[j]).id != id
}

/// Where the first definition with `id` stands.
pub open spec fn first_id(defs: Seq<DefModel>, id: Seq<char>) -> int {
    choose|i: int| is_first_id(defs, id, i)
}

/// The definition that an input makes, with an id and a time of creation.
pub open spec fn def_of(input: RegInput, id: Seq<char>, at: u64) -> DefModel {
    DefModel {
        id,
        area: input.area@,
        addr: input.addr,
        name: input.name@,
        dtype: input.dtype@,
        access: input.access@,
        vary: input.vary@,
        created_at_ms: at,
    }
}

/// A slot in words: the name of its area and its address.
pub open spec fn slot_text(area: Seq<char>, addr: u16) -> Seq<char> {
    area_label_text(area) + " 0x"@ + fixed_digits(addr as nat, 16, 4, true)
}

/// What is said of a slot that is taken.
pub open spec fn taken_text(area: Seq<char>, addr: u16) -> Seq<char> {
    slot_text(area, addr)
        + " 已存在。如需修改该地址的寄存器，请使用「编辑」，或在弹出提示中选择「替换」用新配置覆盖。"@
}

/// What is said of a slot that another definition stands for.
pub open spec fn occupied_text(area: Seq<char>, addr: u16) -> Seq<char> {
    slot_text(area, addr) + " 已被其他寄存器占用，请换个地址"@
}

/// Whether no two definitions stand for one slot.
pub open spec fn slots_distinct(defs: Seq<DefModel>) -> bool {
    forall|i: int, j: int|
        0 <= i < j < defs.len() ==> !is_slot(
            #[trigger] defs[j],
            (#[trigger] defs[i]).area,
            defs[i].addr,
        )
}

/// Whether no two definitions have one id.
pub open spec fn ids_distinct(defs: Seq<DefModel>) -> bool {
    forall|i: int, j: int|
        0 <= i < j < defs.len() ==> (#[trigger] defs[i]).id != (#[trigger] defs[j]).id
}

/// Whether a registry is in order: each slot and each id has one definition at most.
pub open spec fn in_order(defs: Seq<DefModel>) -> bool {
    slots_distinct(defs) && ids_distinct(defs)
}

/// The hash value `k` steps after `h`; the largest is followed by zero.
pub open spec fn hash_after(h: u64, k: int) -> u64 {
    ((h + k) % 0x1_0000_0000_0000_0000) as u64
}

/// Whether the id `k` steps after that of `h` is the first that no definition has.
pub open spec fn is_first_free(defs: Seq<DefModel>, h: u64, k: int) -> bool {
    &&& 0 <= k
    &&& !id_known(defs, id_text(hash_after(h, k)))
    &&& forall|j: int| 0 <= j < k ==> id_known(defs, id_text(#[trigger] hash_after(h, j)))
}

fn push_slot(out: &mut String, area: &str, addr: u16)
    ensures
        final(out)@ == old(out)@ + slot_text(area@, addr),
{
    out.append(area_label(area));
    out.append(" 0x");
    push_fixed(out, addr as u64, 16, 4, true);
    assert(out@ =~= old(out)@ + slot_text(area@, addr));
}

/// Where the first definition for a slot stands, if there is one.
pub fn slot_position(defs: &Vec<RegisterDef>, area: &str, addr: u16) -> (r: Option<usize>)
    ensures
        match r {
            Some(i) => is_first_slot(def_models(defs@), area@, addr, i as int) && slot_taken(
                def_models(defs@),
                area@,
                addr,
            ) && first_slot(def_models(defs@), area@, addr) == i,
            None => !slot_taken(def_models(defs@), area@, addr),
        },
{
    let ghost m = def_models(defs@);
    let mut i: usize = 0;
    while i < defs.len()
        invariant
            i <= defs@.len(),
            m == def_models(defs@),
            forall|j: int| 0 <= j < i ==> !is_slot(#[trigger] m[j], area@, addr),
        decreases defs@.len() - i,
    {
        assert(m[i as int] == defs@[i as int]@);
        if defs[i].addr == addr && same(defs[i].area.as_str(), area) {
            proof {
                lemma_first_slot(m, area@, addr, i as int);
            }
            return Some(i);
        }
        i += 1;
    }
    None
}

proof fn lemma_first_slot(defs: Seq<DefModel>, area: Seq<char>, addr: u16, i: int)
    requires
        is_first_slot(defs, area, addr, i),
    ensures
        first_slot(defs, area, addr) == i,
{
    let k = first_slot(defs, area, addr);
    assert(is_first_slot(defs, area, addr, k));
    if k < i {
        assert(!is_slot(defs[k], area, addr));
    }
    if i < k {
        assert(!is_slot(defs[i], area, addr));
    }
}

proof fn lemma_first_id(defs: Seq<DefModel>, id: Seq<char>, i: int)
    requires
        is_first_id(defs, id, i),
    ensures
        first_id(defs, id) == i,
{
    let k = first_id(defs, id);
    assert(is_first_id(defs, id, k));
    if k < i {
        assert(defs[k].id != id);
    }
    if i < k {
        assert(defs[i].id != id);
    }
}

/// A known id has a first definition.
pub(crate) proof fn lemma_first_id_exists(defs: Seq<DefModel>, id: Seq<char>)
    requires
        id_known(defs, id),
    ensures
        is_first_id(defs, id, first_id(defs, id)),
    decreases defs.len(),
{
    let front = defs.drop_last();
    if id_known(front, id) {
        lemma_first_id_exists(front, id);
        let k = first_id(front, id);
        assert forall|j: int| 0 <= j < k implies (#[trigger] defs[j]).id != id by {
            assert(front[j].id != id);
        }
        assert(front[k] == defs[k]);
        assert(is_first_id(defs, id, k));
    } else {
        assert forall|j: int| 0 <= j < defs.len() - 1 implies (#[trigger] defs[j]).id != id by {
            assert(front[j].id != id);
        }
        let i = choose|i: int| 0 <= i < defs.len() && (#[trigger] defs[i]).id == id;
        assert(is_first_id(defs, id, i));
    }
}

fn id_position(defs: &Vec<RegisterDef>, id: &str) -> (r: Option<usize>)
    ensures
        match r {
            Some(i) => is_first_id(def_models(defs@), id@, i as int) && id_known(
                def_models(defs@),
                id@,
            ) && first_id(def_models(defs@), id@) == i,
            None => !id_known(def_models(defs@), id@),
        },
{
    let ghost m = def_models(defs@);
    let mut i: usize = 0;
    while i < defs.len()
        invariant
            i <= defs@.len(),
            m == def_models(defs@),
            forall|j: int| 0 <= j < i ==> (#[trigger] m[j]).id != id@,
        decreases defs@.len() - i,
    {
        assert(m[i as int] == defs@[i as int]@);
        if same(defs[i].id.as_str(), id) {
            proof {
                lemma_first_id(m, id@, i as int);
            }
            return Some(i);
        }
        i += 1;
    }
    None
}

/// Successive ids that are all known are not more than the definitions.
proof fn lemma_known_ids(defs: Seq<DefModel>, h: u64, k: int)
    requires
        0 <= k <= 0x1_0000_0000_0000_0000,
        forall|j: int| 0 <= j < k ==> id_known(defs, id_text(#[trigger] hash_after(h, j))),
    ensures
        k <= defs.len(),
{
    let place = |j: int|
        choose|i: int| 0 <= i < defs.len() && (#[trigger] defs[i]).id == id_text(hash_after(h, j));
    let places = Seq::new(k as nat, |j: int| place(j));
    assert forall|j: int| 0 <= j < k implies 0 <= #[trigger] places[j] < defs.len()
        && defs[places[j]].id == id_text(hash_after(h, j)) by {
        assert(id_known(defs, id_text(hash_after(h, j))));
    }
    assert forall|i: int, j: int|
        0 <= i < places.len() && 0 <= j < places.len() && i != j implies places[i]
        != places[j] by {
        assert(hash_after(h, i) != hash_after(h, j));
        law_hashes_have_own_ids(hash_after(h, i), hash_after(h, j));
    }
    places.unique_seq_to_set();
    let all = vstd::set_lib::set_int_range(0, defs.len() as int);
    vstd::set_lib::lemma_int_range(0, defs.len() as int);
    assert(places.to_set().subset_of(all));
    vstd::set_lib::lemma_len_subset(places.to_set(), all);
}

/// An id that no definition has: the first one from that of a drawn hash value on.
pub fn free_id(defs: &Vec<RegisterDef>, drawn: u64) -> (r: String)
    ensures
        is_generated(r@),
        !id_known(def_models(defs@), r@),
        exists|k: int|
            is_first_free(def_models(defs@), drawn, k) && r@ == id_text(
                #[trigger] hash_after(drawn, k),
            ),
{
    let ghost m = def_models(defs@);
    let mut h: u64 = drawn;
    let mut id = id_from_hash(h);
    let mut k: usize = 0;
    while id_position(defs, id.as_str()).is_some()
        invariant
            m == def_models(defs@),
            k <= defs@.len(),
            h == hash_after(drawn, k as int),
            id@ == id_text(h),
            forall|j: int| 0 <= j < k ==> id_known(m, id_text(#[trigger] hash_after(drawn, j))),
        ensures
            !id_known(m, id@),
        decreases defs@.len() - k,
    {
        proof {
            lemma_known_ids(m, drawn, k + 1);
            assert(k < defs.len());
        }
        h = h.wrapping_add(1);
        k += 1;
        id = id_from_hash(h);
    }
    assert(is_first_free(m, drawn, k as int));
    id
}

fn other_has_slot(defs: &Vec<RegisterDef>, id: &str, area: &str, addr: u16) -> (r: bool)
    ensures
        r == slot_taken_by_other(def_models(defs@), id@, area@, addr),
{
    let ghost m = def_models(defs@);
    let mut i: usize = 0;
    while i < defs.len()
        invariant
            i <= defs@.len(),
            m == def_models(defs@),
            forall|j: int|
                0 <= j < i ==> (#[trigger] m[j]).id == id@ || !is_slot(m[j], area@, addr),
        decreases defs@.len() - i,
    {
        assert(m[i as int] == defs@[i as int]@);
        if !same(defs[i].id.as_str(), id) && defs[i].addr == addr && same(
            defs[i].area.as_str(),
            area,
        ) {
            return true;
        }
        i += 1;
    }
    false
}

fn make_def(input: &RegInput, id: String, at: u64) -> (r: RegisterDef)
    ensures
        r@ == def_of(*input, id@, at),
{
    RegisterDef {
        id,
        area: input.area.clone(),
        addr: input.addr,
        name: input.name.clone(),
        dtype: input.dtype.clone(),
        access: input.access.clone(),
        vary: input.vary.clone(),
        created_at_ms: at,
    }
}

/// Adds a register: its definition, under the given id and time, and its slot in the
/// image. Refused where the slot is taken.
pub fn reg_add(
    defs: &mut Vec<RegisterDef>,
    img: &mut DataImage,
    input: &RegInput,
    id: String,
    at: u64,
) -> (r: Result<RegisterDef, String>)
    ensures
        match r {
            Err(m) => {
                &&& slot_taken(def_models(old(defs)@), input.area@, input.addr)
                &&& m@ == taken_text(input.area@, input.addr)
                &&& final(defs)@ == old(defs)@
                &&& final(img)@ == old(img)@
            },
            Ok(d) => {
                &&& !slot_taken(def_models(old(defs)@), input.area@, input.addr)
                &&& d@ == def_of(*input, id@, at)
                &&& def_models(final(defs)@) == def_models(old(defs)@).push(d@)
                &&& final(img)@ == slot_written(old(img)@, input.area@, input.addr, input.value)
            },
        },
{
    match slot_position(defs, input.area.as_str(), input.addr) {
        Some(_) => {
            let mut m = String::new();
            push_slot(&mut m, input.area.as_str(), input.addr);
            m.append(
                " 已存在。如需修改该地址的寄存器，请使用「编辑」，或在弹出提示中选择「替换」用新配置覆盖。",
            );
            assert(m@ =~= taken_text(input.area@, input.addr));
            Err(m)
        },
        None => {
            let def = make_def(input, id, at);
            img.write_slot(input.area.as_str(), input.addr, input.value);
            let copy = def.clone();
            defs.push(def);
            assert(def_models(defs@) =~= def_models(old(defs)@).push(copy@));
            Ok(copy)
        },
    }
}

/// What becomes of a definition that is changed to an input: id and time stay.
pub open spec fn changed(d: DefModel, input: RegInput) -> DefModel {
    def_of(input, d.id, d.created_at_ms)
}

/// What becomes of the image where the definition `d` is changed to an input: the new
/// slot is written and, where it is another one, the old slot is given up.
pub open spec fn image_changed(img: ImageModel, d: DefModel, input: RegInput) -> ImageModel {
    let next = slot_written(img, input.area@, input.addr, input.value);
    if is_slot(d, input.area@, input.addr) {
        next
    } else {
        slot_cleared(next, d.area, d.addr)
    }
}

/// Changes the register with `id`. Refused where another register stands for the slot,
/// and where there is no register with that id.
pub fn reg_update(
    defs: &mut Vec<RegisterDef>,
    img: &mut DataImage,
    id: &str,
    input: &RegInput,
) -> (r: Result<(), String>)
    ensures
        ({
            let old_defs = def_models(old(defs)@);
            let other = slot_taken_by_other(old_defs, id@, input.area@, input.addr);
            match r {
                Err(m) => {
                    &&& other || !id_known(old_defs, id@)
                    &&& m@ == (if other {
                        occupied_text(input.area@, input.addr)
                    } else {
                        "寄存器不存在"@
                    })
                    &&& final(defs)@ == old(defs)@
                    &&& final(img)@ == old(img)@
                },
                Ok(_) => {
                    let k = first_id(old_defs, id@);
                    &&& !other
                    &&& id_known(old_defs, id@)
                    &&& def_models(final(defs)@) == old_defs.update(k, changed(old_defs[k], *input))
                    &&& final(img)@ == image_changed(old(img)@, old_defs[k], *input)
                },
            }
        }),
{
    if other_has_slot(defs, id, input.area.as_str(), input.addr) {
        let mut m = String::new();
        push_slot(&mut m, input.area.as_str(), input.addr);
        m.append(" 已被其他寄存器占用，请换个地址");
        assert(m@ =~= occupied_text(input.area@, input.addr));
        return Err(m);
    }
    match id_position(defs, id) {
        None => Err("寄存器不存在".to_owned()),
        Some(k) => {
            let ghost old_defs = def_models(defs@);
            assert(old_defs[k as int] == defs@[k as int]@);
            let old_area: String = defs[k].area.clone();
            let old_addr: u16 = defs[k].addr;
            let moved: bool = old_addr != input.addr || !same(
                old_area.as_str(),
                input.area.as_str(),
            );
            let def = make_def(input, defs[k].id.clone(), defs[k].created_at_ms);
            defs.set(k, def);
            assert(def_models(defs@) =~= old_defs.update(
                k as int,
                changed(old_defs[k as int], *input),
            ));
            img.write_slot(input.area.as_str(), input.addr, input.value);
            if moved {
                img.clear_slot(old_area.as_str(), old_addr);
            }
            Ok(())
        },
    }
}

/// Removes the register with `id`, and its slot from the image.
pub fn reg_delete(defs: &mut Vec<RegisterDef>, img: &mut DataImage, id: &str) -> (r: Result<
    (),
    String,
>)
    ensures
        ({
            let old_defs = def_models(old(defs)@);
            match r {
                Err(m) => {
                    &&& !id_known(old_defs, id@)
                    &&& m@ == "寄存器不存在"@
                    &&& final(defs)@ == old(defs)@
                    &&& final(img)@ == old(img)@
                },
                Ok(_) => {
                    let k = first_id(old_defs, id@);
                    &&& id_known(old_defs, id@)
                    &&& def_models(final(defs)@) == old_defs.remove(k)
                    &&& final(img)@ == slot_cleared(old(img)@, old_defs[k].area, old_defs[k].addr)
                },
            }
        }),
{
    match id_position(defs, id) {
        None => Err("寄存器不存在".to_owned()),
        Some(k) => {
            let ghost old_defs = def_models(defs@);
            assert(old_defs[k as int] == defs@[k as int]@);
            let d = defs.remove(k);
            assert(def_models(defs@) =~= old_defs.remove(k as int));
            img.clear_slot(d.area.as_str(), d.addr);
            Ok(())
        },
    }
}

/// Goes back to the sample registers: everything else is forgotten.
pub fn reg_seed(defs: &mut Vec<RegisterDef>, img: &mut DataImage)
    ensures
        def_models(final(defs)@) == sample_defs(),
        final(img)@ == slots_written(empty_image(), sample_defs(), sample_values()),
{
    img.reset();
    *defs = seed(img);
}

/// A definition without its id and its time of creation.
pub open spec fn unstamped(d: DefModel) -> DefModel {
    DefModel { id: Seq::empty(), created_at_ms: 0, ..d }
}

/// Whether `actual` is `plan` up to ids and times of creation from position `n` on, the
/// ids there being generated ones that no definition before has.
pub open spec fn is_stamped(actual: Seq<DefModel>, plan: Seq<DefModel>, n: int) -> bool {
    &&& actual.len() == plan.len()
    &&& forall|i: int| 0 <= i < n && i < actual.len() ==> #[trigger] actual[i] == plan[i]
    &&& forall|i: int|
        n <= i < actual.len() ==> unstamped(#[trigger] actual[i]) == plan[i] && is_generated(actual[i].id)
    &&& forall|i: int, j: int|
        0 <= i < j < actual.len() && n <= j ==> (#[trigger] actual[i]).id != (
        #[trigger] actual[j]).id
}

proof fn lemma_stamped_slots(actual: Seq<DefModel>, plan: Seq<DefModel>, n: int, area: Seq<char>, addr: u16)
    requires
        is_stamped(actual, plan, n),
    ensures
        slot_taken(actual, area, addr) == slot_taken(plan, area, addr),
        forall|i: int|
            0 <= i < actual.len() ==> (#[trigger] actual[i]).area == plan[i].area && actual[i].addr
                == plan[i].addr,
{
    assert forall|i: int| 0 <= i < actual.len() implies (#[trigger] actual[i]).area == plan[i].area
        && actual[i].addr == plan[i].addr by {
        if i >= n {
            assert(unstamped(actual[i]) == plan[i]);
        }
    }
    if slot_taken(actual, area, addr) {
        let i = choose|i: int| 0 <= i < actual.len() && is_slot(#[trigger] actual[i], area, addr);
        assert(is_slot(plan[i], area, addr));
    }
    if slot_taken(plan, area, addr) {
        let i = choose|i: int| 0 <= i < plan.len() && is_slot(#[trigger] plan[i], area, addr);
        assert(is_slot(actual[i], area, addr));
    }
}

/// What is in order but for ids and times is in order with them.
proof fn lemma_stamped_in_order(actual: Seq<DefModel>, plan: Seq<DefModel>, n: int)
    requires
        is_stamped(actual, plan, n),
        0 <= n <= actual.len(),
    ensures
        ids_distinct(plan.take(n)) ==> ids_distinct(actual),
        slots_distinct(plan) ==> slots_distinct(actual),
{
    if ids_distinct(plan.take(n)) {
        assert forall|i: int, j: int| 0 <= i < j < actual.len() implies (#[trigger] actual[i]).id
            != (#[trigger] actual[j]).id by {
            if j < n {
                assert(plan.take(n)[i].id != plan.take(n)[j].id);
            }
        }
    }
    if slots_distinct(plan) {
        lemma_stamped_slots(actual, plan, n, Seq::empty(), 0);
        assert forall|i: int, j: int| 0 <= i < j < actual.len() implies !is_slot(
            #[trigger] actual[j],
            (#[trigger] actual[i]).area,
            actual[i].addr,
        ) by {
            assert(!is_slot(plan[j], plan[i].area, plan[i].addr));
        }
    }
}

/// What the registers of a batch have in common.
#[derive(Debug)]
pub struct BatchInput {
    pub area: String,
    pub start_addr: u16,
    pub count: u16,
    pub name_prefix: String,
    pub dtype: String,
    pub access: String,
    pub vary: String,
    pub value: Number,
}

/// The address of the `i`-th register of a batch: addresses do not go beyond the
/// largest one.
pub open spec fn batch_addr(start: u16, i: int) -> u16 {
    if start + i > 65535 {
        65535
    } else {
        (start + i) as u16
    }
}

/// The name of a register of a batch: the prefix, or else the area and an underscore,
/// then the address.
pub open spec fn batch_name(b: BatchInput, addr: u16) -> Seq<char> {
    (if b.name_prefix@.len() == 0 {
        b.area@ + "_"@
    } else {
        b.name_prefix@
    }) + decimal(addr as nat)
}

/// The definition, without id and time, of the register of a batch at `addr`.
pub open spec fn batch_def(b: BatchInput, addr: u16) -> DefModel {
    DefModel {
        id: Seq::empty(),
        area: b.area@,
        addr,
        name: batch_name(b, addr),
        dtype: b.dtype@,
        access: b.access@,
        vary: b.vary@,
        created_at_ms: 0,
    }
}

/// The definitions after the first `n` registers of a batch: slots that are taken are
/// passed over.
pub open spec fn batch_defs(defs: Seq<DefModel>, b: BatchInput, n: nat) -> Seq<DefModel>
    decreases n,
{
    if n == 0 {
        defs
    } else {
        let prev = batch_defs(defs, b, (n - 1) as nat);
        let addr = batch_addr(b.start_addr, n - 1);
        if slot_taken(prev, b.area@, addr) {
            prev
        } else {
            prev.push(batch_def(b, addr))
        }
    }
}

/// The image after the first `n` registers of a batch.
pub open spec fn batch_image(defs: Seq<DefModel>, img: ImageModel, b: BatchInput, n: nat) -> ImageModel
    decreases n,
{
    if n == 0 {
        img
    } else {
        let prev = batch_defs(defs, b, (n - 1) as nat);
        let prev_img = batch_image(defs, img, b, (n - 1) as nat);
        let addr = batch_addr(b.start_addr, n - 1);
        if slot_taken(prev, b.area@, addr) {
            prev_img
        } else {
            slot_written(prev_img, b.area@, addr, b.value)
        }
    }
}

fn make_batch_def(b: &BatchInput, addr: u16, id: String, at: u64) -> (r: RegisterDef)
    ensures
        unstamped(r@) == batch_def(*b, addr),
        r.id@ == id@,
        r.created_at_ms == at,
{
    let mut name = String::new();
    if b.name_prefix.as_str().is_empty() {
        name.append(b.area.as_str());
        name.append("_");
    } else {
        name.append(b.name_prefix.as_str());
    }
    push_decimal(&mut name, addr as u64);
    assert(name@ =~= batch_name(*b, addr));
    RegisterDef {
        id,
        area: b.area.clone(),
        addr,
        name,
        dtype: b.dtype.clone(),
        access: b.access.clone(),
        vary: b.vary.clone(),
        created_at_ms: at,
    }
}

/// Adds registers of the same kind at successive addresses. Slots that are taken are
/// passed over. Returns how many were added. Each has an id that no definition before it
/// has; which one, and its time of creation, are left open.
pub fn reg_add_batch(defs: &mut Vec<RegisterDef>, img: &mut DataImage, b: &BatchInput) -> (r: u16)
    ensures
        is_stamped(
            def_models(final(defs)@),
            batch_defs(def_models(old(defs)@), *b, b.count as nat),
            old(defs)@.len() as int,
        ),
        final(img)@ == batch_image(def_models(old(defs)@), old(img)@, *b, b.count as nat),
        r == batch_defs(def_models(old(defs)@), *b, b.count as nat).len() - old(defs)@.len(),
        slots_distinct(def_models(old(defs)@)) ==> slots_distinct(def_models(final(defs)@)),
        ids_distinct(def_models(old(defs)@)) ==> ids_distinct(def_models(final(defs)@)),
{
    let ghost start = def_models(defs@);
    let ghost start_img = img@;
    let mut added: u16 = 0;
    let mut i: u16 = 0;
    while i < b.count
        invariant
            i <= b.count,
            added <= i,
            start == def_models(old(defs)@),
            is_stamped(
                def_models(defs@),
                batch_defs(start, *b, i as nat),
                start.len() as int,
            ),
            img@ == batch_image(start, start_img, *b, i as nat),
            added == batch_defs(start, *b, i as nat).len() - start.len(),
        decreases b.count - i,
    {
        let addr: u16 = b.start_addr.saturating_add(i);
        let ghost plan = batch_defs(start, *b, i as nat);
        let ghost actual = def_models(defs@);
        proof {
            lemma_stamped_slots(actual, plan, start.len() as int, b.area@, addr);
        }
        match slot_position(defs, b.area.as_str(), addr) {
            Some(_) => {},
            None => {
                let id = free_id(defs, clock_hash());
                let def = make_batch_def(b, addr, id, now_ms());
                img.write_slot(b.area.as_str(), addr, b.value);
                let ghost m = def@;
                defs.push(def);
                added += 1;
                assert(def_models(defs@) =~= actual.push(m));
                proof {
                    law_batch(start, *b, i as nat);
                    lemma_stamped_push(actual, plan, start.len() as int, m);
                }
            },
        }
        i += 1;
    }
    proof {
        law_batch(start, *b, b.count as nat);
        lemma_stamped_in_order(
            def_models(defs@),
            batch_defs(start, *b, b.count as nat),
            start.len() as int,
        );
    }
    added
}

/// The texts of the cells of a row.
pub open spec fn cell_texts(cells: Seq<String>) -> Seq<Seq<char>> {
    Seq::new(cells.len(), |i: int| cells[i]@)
}

/// The texts of the cells of rows.
pub open spec fn row_texts(rows: Seq<Vec<String>>) -> Seq<Seq<Seq<char>>> {
    Seq::new(rows.len(), |i: int| cell_texts(rows[i]@))
}

/// The rows of a sheet that an import looks at: those below the header row that have
/// at least seven cells.
pub open spec fn usable(rows: Seq<Seq<Seq<char>>>) -> Seq<Seq<Seq<char>>> {
    if rows.len() == 0 {
        rows
    } else {
        rows.drop_first().filter(|r: Seq<Seq<char>>| r.len() >= 7)
    }
}

/// The text of a cell, or a default where the row is too short.
pub open spec fn cell_or(cells: Seq<Seq<char>>, i: int, default: Seq<char>) -> Seq<char> {
    if 0 <= i < cells.len() {
        cells[i]
    } else {
        default
    }
}

/// Whether a text names one of the four areas.
pub open spec fn is_area(area: Seq<char>) -> bool {
    area == "holding"@ || area == "input"@ || area == "coil"@ || area == "discrete"@
}

/// The definition, without id and time, that a row stands for, `area` being the text of
/// its first cell, trimmed and in lower case; nothing where the area or the address
/// makes no sense.
pub open spec fn row_def(cells: Seq<Seq<char>>, area: Seq<char>) -> Option<DefModel> {
    match parsed(trimmed(cell_or(cells, 1, Seq::empty())), 65535) {
        None => None,
        Some(addr) => if !is_area(area) {
            None
        } else {
            Some(
                DefModel {
                    id: Seq::empty(),
                    area,
                    addr: addr as u16,
                    name: cell_or(cells, 3, Seq::empty()),
                    dtype: cell_or(cells, 4, "u16"@),
                    access: cell_or(cells, 5, "rw"@),
                    vary: cell_or(cells, 6, "off"@),
                    created_at_ms: 0,
                },
            )
        },
    }
}

/// The text of the area cell of a row, trimmed and in lower case.
pub open spec fn row_area(cells: Seq<Seq<char>>) -> Seq<char> {
    if cells.len() == 0 {
        Seq::empty()
    } else {
        unicode_lowercase(trimmed(cells[0]))
    }
}

/// Whether the area cells of rows that are of ASCII characters count in small letters:
/// "Holding" is read as "holding".
pub open spec fn areas_ruled(rows: Seq<Seq<Seq<char>>>) -> bool {
    forall|j: int|
        0 <= j < rows.len() && (#[trigger] rows[j]).len() > 0 && vstd::utf8::is_ascii_chars(
            trimmed(rows[j][0]),
        ) ==> row_area(rows[j]) == lowered(trimmed(rows[j][0]))
}

/// The state of an import.
pub struct ImportModel {
    pub defs: Seq<DefModel>,
    pub image: ImageModel,
    pub imported: nat,
    pub skipped: nat,
}

/// The state of an import after one more row, which stands for `d` (if for anything)
/// and has the value `v`. A row for a slot that is taken replaces what is said of it,
/// or is skipped.
pub open spec fn import_step(s: ImportModel, d: Option<DefModel>, v: Number, replace: bool) -> ImportModel {
    match d {
        None => ImportModel { skipped: s.skipped + 1, ..s },
        Some(d) => if !slot_taken(s.defs, d.area, d.addr) {
            ImportModel {
                defs: s.defs.push(d),
                image: slot_written(s.image, d.area, d.addr, v),
                imported: s.imported + 1,
                skipped: s.skipped,
            }
        } else if replace {
            let k = first_slot(s.defs, d.area, d.addr);
            ImportModel {
                defs: s.defs.update(
                    k,
                    DefModel {
                        name: d.name,
                        dtype: d.dtype,
                        access: d.access,
                        vary: d.vary,
                        ..s.defs[k]
                    },
                ),
                image: slot_written(s.image, d.area, d.addr, v),
                imported: s.imported + 1,
                skipped: s.skipped,
            }
        } else {
            ImportModel { skipped: s.skipped + 1, ..s }
        },
    }
}

/// The state of an import after rows, each with its value.
pub open spec fn import_rows_model(
    s: ImportModel,
    rows: Seq<Seq<Seq<char>>>,
    values: Seq<Number>,
    replace: bool,
) -> ImportModel
    decreases rows.len(),
{
    if rows.len() == 0 {
        s
    } else {
        let n = rows.len() - 1;
        import_step(
            import_rows_model(s, rows.drop_last(), values, replace),
            row_def(rows[n], row_area(rows[n])),
            values[n],
            replace,
        )
    }
}

/// The rows of a sheet that an import looks at: those below the header row that have
/// at least seven cells.
pub fn usable_rows(rows: Vec<Vec<String>>) -> (r: Vec<Vec<String>>)
    ensures
        row_texts(r@) == usable(row_texts(rows@)),
{
    let mut out: Vec<Vec<String>> = Vec::new();
    let ghost all = row_texts(rows@);
    let ghost p = |r: Seq<Seq<char>>| r.len() >= 7;
    if rows.len() == 0 {
        assert(row_texts(out@) =~= usable(all));
        return out;
    }
    let ghost body = all.drop_first();
    let mut i: usize = 1;
    proof {
        reveal(Seq::filter);
        assert(body.take(0) =~= Seq::empty());
        assert(row_texts(out@) =~= body.take(0).filter(p));
    }
    while i < rows.len()
        invariant
            1 <= i <= rows@.len(),
            all == row_texts(rows@),
            body == all.drop_first(),
            p == (|r: Seq<Seq<char>>| r.len() >= 7),
            row_texts(out@) == body.take(i - 1).filter(p),
        decreases rows@.len() - i,
    {
        proof {
            reveal(Seq::filter);
            let next = body.take(i as int);
            assert(next.drop_last() =~= body.take(i - 1));
            assert(next.last() == cell_texts(rows@[i as int]@));
        }
        if rows[i].len() >= 7 {
            let ghost before = row_texts(out@);
            let copy = copy_cells(&rows[i]);
            let ghost texts = cell_texts(copy@);
            out.push(copy);
            assert(row_texts(out@) =~= before.push(texts));
        }
        i += 1;
    }
    assert(body.take(i - 1) =~= body);
    out
}

fn copy_cells(cells: &Vec<String>) -> (r: Vec<String>)
    ensures
        cell_texts(r@) == cell_texts(cells@),
{
    let mut out: Vec<String> = Vec::new();
    let mut i: usize = 0;
    while i < cells.len()
        invariant
            i <= cells@.len(),
            out@.len() == i,
            forall|k: int| 0 <= k < i ==> (#[trigger] out@[k])@ == cells@[k]@,
        decreases cells@.len() - i,
    {
        out.push(cells[i].clone());
        i += 1;
    }
    assert(cell_texts(out@) =~= cell_texts(cells@));
    out
}

fn cell(cells: &Vec<String>, i: usize, default: &str) -> (r: String)
    ensures
        r@ == cell_or(cell_texts(cells@), i as int, default@),
{
    if i < cells.len() {
        cells[i].clone()
    } else {
        default.to_owned()
    }
}

/// The input that a row stands for, `area` being the text of its first cell, trimmed
/// and in lower case; `None` where the area or the address makes no sense.
pub fn row_input(cells: &Vec<String>, area: String, value: Number) -> (r: Option<RegInput>)
    ensures
        match r {
            None => row_def(cell_texts(cells@), area@) is None,
            Some(input) => row_def(cell_texts(cells@), area@) == Some(
                def_of(input, Seq::empty(), 0),
            ) && input.value == value,
        },
{
    let addr_text = cell(cells, 1, "");
    proof {
        reveal_strlit("");
        assert(""@ =~= Seq::<char>::empty());
    }
    let t = trim(addr_text.as_str());
    let addr: u16 = match parse_decimal(t.as_str(), 65535) {
        Some(n) => n as u16,
        None => {
            return None;
        },
    };
    if !(same(area.as_str(), "holding") || same(area.as_str(), "input") || same(
        area.as_str(),
        "coil",
    ) || same(area.as_str(), "discrete")) {
        return None;
    }
    let name = cell(cells, 3, "");
    let dtype = cell(cells, 4, "u16");
    let access = cell(cells, 5, "rw");
    let vary = cell(cells, 6, "off");
    Some(RegInput { area, addr, name, dtype, access, vary, value })
}

/// Takes in one row of an import. Returns whether it was imported, and not skipped.
/// A new definition gets the given id and time.
pub fn import_row(
    defs: &mut Vec<RegisterDef>,
    img: &mut DataImage,
    row: Option<RegInput>,
    replace: bool,
    id: String,
    at: u64,
) -> (r: bool)
    ensures
        ({
            let s = ImportModel {
                defs: def_models(old(defs)@),
                image: old(img)@,
                imported: 0,
                skipped: 0,
            };
            match row {
                None => !r && final(defs)@ == old(defs)@ && final(img)@ == old(img)@,
                Some(input) => {
                    let next = import_step(s, Some(def_of(input, id@, at)), input.value, replace);
                    &&& def_models(final(defs)@) == next.defs
                    &&& final(img)@ == next.image
                    &&& r == (next.imported == 1)
                },
            }
        }),
{
    match row {
        None => false,
        Some(input) => {
            let ghost before = def_models(defs@);
            match slot_position(defs, input.area.as_str(), input.addr) {
                Some(k) => {
                    if !replace {
                        return false;
                    }
                    let def = RegisterDef {
                        id: defs[k].id.clone(),
                        area: defs[k].area.clone(),
                        addr: defs[k].addr,
                        name: input.name.clone(),
                        dtype: input.dtype.clone(),
                        access: input.access.clone(),
                        vary: input.vary.clone(),
                        created_at_ms: defs[k].created_at_ms,
                    };
                    let ghost m = def@;
                    assert(before[k as int] == defs@[k as int]@);
                    defs.set(k, def);
                    assert(def_models(defs@) =~= before.update(k as int, m));
                    img.write_slot(input.area.as_str(), input.addr, input.value);
                    true
                },
                None => {
                    let def = make_def(&input, id, at);
                    let ghost m = def@;
                    img.write_slot(input.area.as_str(), input.addr, input.value);
                    defs.push(def);
                    assert(def_models(defs@) =~= before.push(m));
                    true
                },
            }
        },
    }
}

/// Imports rows into a registry; `values` gives the value of each row. Returns how many
/// rows were imported and how many skipped. A new definition has an id that no definition
/// before it has; which one, and its time of creation, are left open.
pub fn import_rows(
    defs: &mut Vec<RegisterDef>,
    img: &mut DataImage,
    rows: &Vec<Vec<String>>,
    values: &Vec<Number>,
    replace: bool,
) -> (r: (u32, u32))
    requires
        values@.len() == rows@.len(),
        rows@.len() <= u32::MAX,
    ensures
        ({
            let s = ImportModel {
                defs: def_models(old(defs)@),
                image: old(img)@,
                imported: 0,
                skipped: 0,
            };
            let end = import_rows_model(s, row_texts(rows@), values@, replace);
            &&& is_stamped(def_models(final(defs)@), end.defs, old(defs)@.len() as int)
            &&& final(img)@ == end.image
            &&& r.0 == end.imported
            &&& r.1 == end.skipped
        }),
        slots_distinct(def_models(old(defs)@)) ==> slots_distinct(def_models(final(defs)@)),
        ids_distinct(def_models(old(defs)@)) ==> ids_distinct(def_models(final(defs)@)),
        areas_ruled(row_texts(rows@)),
{
    let ghost n0 = defs@.len() as int;
    let ghost start = ImportModel {
        defs: def_models(defs@),
        image: img@,
        imported: 0,
        skipped: 0,
    };
    let ghost texts = row_texts(rows@);
    let mut ok_count: u32 = 0;
    let mut skip_count: u32 = 0;
    let mut i: usize = 0;
    assert(texts.take(0) =~= Seq::empty());
    while i < rows.len()
        invariant
            i <= rows@.len(),
            rows@.len() <= u32::MAX,
            values@.len() == rows@.len(),
            texts == row_texts(rows@),
            n0 == old(defs)@.len(),
            n0 <= defs@.len(),
            ok_count + skip_count == i,
            areas_ruled(texts.take(i as int)),
            ({
                let s = import_rows_model(start, texts.take(i as int), values@, replace);
                &&& is_stamped(def_models(defs@), s.defs, n0)
                &&& img@ == s.image
                &&& ok_count == s.imported
                &&& skip_count == s.skipped
            }),
        decreases rows@.len() - i,
    {
        let ghost s = import_rows_model(start, texts.take(i as int), values@, replace);
        let ghost actual = def_models(defs@);
        let ghost actual_img = img@;
        let first = cell(&rows[i], 0, "");
        let trimmed_first = trim(first.as_str());
        let area = if rows[i].len() == 0 {
            String::new()
        } else {
            to_lowercase(trimmed_first.as_str())
        };
        let ghost plan_row = row_def(texts[i as int], row_area(texts[i as int]));
        let row = row_input(&rows[i], area, values[i]);
        let id = free_id(defs, clock_hash());
        let at: u64 = now_ms();
        let ghost id_seen = id@;
        proof {
            let next = texts.take(i + 1);
            assert(next.drop_last() =~= texts.take(i as int));
            assert(next[i as int] == texts[i as int]);
            assert(texts[i as int] == cell_texts(rows@[i as int]@));
            if row is Some {
                lemma_import_step(
                    actual,
                    actual_img,
                    s,
                    n0,
                    def_of(row->0, id_seen, at),
                    row->0.value,
                    replace,
                );
            }
        }
        if import_row(defs, img, row, replace, id, at) {
            ok_count += 1;
        } else {
            skip_count += 1;
        }
        i += 1;
    }
    assert(texts.take(i as int) =~= texts);
    proof {
        let end = import_rows_model(start, texts, values@, replace);
        law_import(start, texts, values@, replace);
        if ids_distinct(start.defs) {
            assert forall|a: int, b: int| 0 <= a < b < n0 implies (#[trigger] end.defs.take(
                n0,
            )[a]).id != (#[trigger] end.defs.take(n0)[b]).id by {
                assert(end.defs[a].id == start.defs[a].id);
                assert(end.defs[b].id == start.defs[b].id);
            }
        }
        lemma_stamped_in_order(def_models(defs@), end.defs, n0);
    }
    (ok_count, skip_count)
}

proof fn lemma_import_step(
    actual: Seq<DefModel>,
    img: ImageModel,
    s: ImportModel,
    n0: int,
    d: DefModel,
    v: Number,
    replace: bool,
)
    requires
        is_stamped(actual, s.defs, n0),
        img == s.image,
        0 <= n0 <= actual.len(),
        is_generated(d.id),
        !id_known(actual, d.id),
    ensures
        ({
            let a = import_step(
                ImportModel { defs: actual, image: img, imported: 0, skipped: 0 },
                Some(d),
                v,
                replace,
            );
            let b = import_step(s, Some(unstamped(d)), v, replace);
            &&& is_stamped(a.defs, b.defs, n0)
            &&& a.image == b.image
            &&& a.imported == b.imported - s.imported
            &&& a.skipped == b.skipped - s.skipped
            &&& a.imported == 1 || a.skipped == 1
            &&& n0 <= a.defs.len()
        }),
{
    lemma_stamped_slots(actual, s.defs, n0, d.area, d.addr);
    if slot_taken(actual, d.area, d.addr) {
        lemma_first_exists(actual, d.area, d.addr);
        let k = first_slot(actual, d.area, d.addr);
        assert(is_first_slot(s.defs, d.area, d.addr, k)) by {
            assert forall|j: int| 0 <= j < k implies !is_slot(#[trigger] s.defs[j], d.area, d.addr) by {
                assert(!is_slot(actual[j], d.area, d.addr));
            }
            assert(is_slot(actual[k], d.area, d.addr));
        }
        lemma_first_slot(s.defs, d.area, d.addr, k);
        let e1 = DefModel {
            name: d.name,
            dtype: d.dtype,
            access: d.access,
            vary: d.vary,
            ..actual[k]
        };
        let e2 = DefModel {
            name: d.name,
            dtype: d.dtype,
            access: d.access,
            vary: d.vary,
            ..s.defs[k]
        };
        if k < n0 {
            assert(actual[k] == s.defs[k]);
        } else {
            assert(unstamped(actual[k]) == s.defs[k]);
        }
        lemma_stamped_update(actual, s.defs, n0, k, e1, e2);
    } else {
        lemma_stamped_push(actual, s.defs, n0, d);
    }
}

proof fn lemma_stamped_update(
    actual: Seq<DefModel>,
    plan: Seq<DefModel>,
    n: int,
    k: int,
    e1: DefModel,
    e2: DefModel,
)
    requires
        is_stamped(actual, plan, n),
        0 <= n,
        0 <= k < actual.len(),
        e1.id == actual[k].id,
        k < n ==> e1 == e2,
        k >= n ==> unstamped(e1) == e2 && is_generated(e1.id),
    ensures
        is_stamped(actual.update(k, e1), plan.update(k, e2), n),
{
    let next = actual.update(k, e1);
    assert forall|i: int, j: int| 0 <= i < j < next.len() && n <= j implies (
    #[trigger] next[i]).id != (#[trigger] next[j]).id by {
        assert(actual[i].id != actual[j].id);
    }
}

proof fn lemma_stamped_push(actual: Seq<DefModel>, plan: Seq<DefModel>, n: int, d: DefModel)
    requires
        is_stamped(actual, plan, n),
        0 <= n <= actual.len(),
        is_generated(d.id),
        !id_known(actual, d.id),
    ensures
        is_stamped(actual.push(d), plan.push(unstamped(d)), n),
{
    let next = actual.push(d);
    assert forall|i: int, j: int| 0 <= i < j < next.len() && n <= j implies (
    #[trigger] next[i]).id != (#[trigger] next[j]).id by {
        if j < actual.len() {
            assert(actual[i].id != actual[j].id);
        } else {
            assert(actual[i].id != d.id);
        }
    }
}

proof fn lemma_first_exists(defs: Seq<DefModel>, area: Seq<char>, addr: u16)
    requires
        slot_taken(defs, area, addr),
    ensures
        is_first_slot(defs, area, addr, first_slot(defs, area, addr)),
    decreases defs.len(),
{
    let front = defs.drop_last();
    if slot_taken(front, area, addr) {
        lemma_first_exists(front, area, addr);
        let k = first_slot(front, area, addr);
        assert(is_first_slot(front, area, addr, k));
        assert forall|j: int| 0 <= j < k implies !is_slot(#[trigger] defs[j], area, addr) by {
            assert(defs[j] == front[j]);
        }
        assert(defs[k] == front[k]);
        assert(is_first_slot(defs, area, addr, k));
    } else {
        let i = choose|i: int| 0 <= i < defs.len() && is_slot(#[trigger] defs[i], area, addr);
        let k = defs.len() - 1;
        if i < k {
            assert(front[i] == defs[i]);
        }
        assert forall|j: int| 0 <= j < k implies !is_slot(#[trigger] defs[j], area, addr) by {
            assert(defs[j] == front[j]);
        }
        assert(is_first_slot(defs, area, addr, k));
    }
}

/// Whether the names of registers that are of ASCII characters count in small letters.
pub open spec fn names_ruled(defs: Seq<DefModel>) -> bool {
    forall|i: int| 0 <= i < defs.len() ==> ascii_rule((#[trigger] defs[i]).name)
}

/// Whether a register is listed under a keyword, `lower_name` being its name in lower
/// case: the keyword occurs in the name, in the area or its label, in the decimal
/// address or in the address in four hexadecimal digits.
pub open spec fn matches_keyword(d: DefModel, lower_name: Seq<char>, kw: Seq<char>) -> bool {
    occurs_in(kw, lower_name) || occurs_in(kw, d.area) || occurs_in(kw, area_label_text(d.area))
        || occurs_in(kw, decimal(d.addr as nat)) || occurs_in(
        kw,
        fixed_digits(d.addr as nat, 16, 4, false),
    )
}

/// The keyword that a search text stands for: trimmed and in lower case.
pub open spec fn keyword_of(text: Seq<char>) -> Seq<char> {
    unicode_lowercase(trimmed(text))
}

/// The registers that are listed under a keyword, in order; all of them where it is
/// empty.
pub open spec fn listed(defs: Seq<DefModel>, kw: Seq<char>) -> Seq<DefModel> {
    if kw.len() == 0 {
        defs
    } else {
        defs.filter(|d: DefModel| matches_keyword(d, unicode_lowercase(d.name), kw))
    }
}

/// Whether a register is listed under a keyword, `lower_name` being its name in lower
/// case.
pub fn is_listed(def: &RegisterDef, lower_name: &str, kw: &str) -> (r: bool)
    ensures
        r == matches_keyword(def@, lower_name@, kw@),
{
    if contains(lower_name, kw) || contains(def.area.as_str(), kw) || contains(
        area_label(def.area.as_str()),
        kw,
    ) {
        return true;
    }
    let dec = to_decimal(def.addr as u64);
    if contains(dec.as_str(), kw) {
        return true;
    }
    let mut hex = String::new();
    push_fixed(&mut hex, def.addr as u64, 16, 4, false);
    assert(hex@ =~= fixed_digits(def.addr as nat, 16, 4, false));
    contains(hex.as_str(), kw)
}

/// The registers that a search text finds, in order.
pub fn list_defs(defs: &Vec<RegisterDef>, keyword: &str) -> (r: Vec<RegisterDef>)
    ensures
        def_models(r@) == listed(def_models(defs@), keyword_of(keyword@)),
        ascii_rule(trimmed(keyword@)),
        keyword_of(keyword@).len() > 0 ==> names_ruled(def_models(defs@)),
{
    let t = trim(keyword);
    let kw = to_lowercase(t.as_str());
    if kw.as_str().is_empty() {
        return crate::simreg::copy_defs(defs);
    }
    let ghost m = def_models(defs@);
    let ghost p = |d: DefModel| matches_keyword(d, unicode_lowercase(d.name), kw@);
    let mut out: Vec<RegisterDef> = Vec::new();
    let mut i: usize = 0;
    proof {
        reveal(Seq::filter);
        assert(m.take(0) =~= Seq::empty());
        assert(def_models(out@) =~= m.take(0).filter(p));
    }
    while i < defs.len()
        invariant
            i <= defs@.len(),
            m == def_models(defs@),
            p == (|d: DefModel| matches_keyword(d, unicode_lowercase(d.name), kw@)),
            def_models(out@) == m.take(i as int).filter(p),
            names_ruled(m.take(i as int)),
        decreases defs@.len() - i,
    {
        proof {
            reveal(Seq::filter);
            let next = m.take(i + 1);
            assert(next.drop_last() =~= m.take(i as int));
            assert(next.last() == defs@[i as int]@);
        }
        let lower = to_lowercase(defs[i].name.as_str());
        if is_listed(&defs[i], lower.as_str(), kw.as_str()) {
            let ghost before = def_models(out@);
            let copy = defs[i].clone();
            let ghost c = copy@;
            out.push(copy);
            assert(def_models(out@) =~= before.push(c));
        }
        i += 1;
    }
    assert(m.take(i as int) =~= m);
    out
}

/// A register that is added leaves each slot with one definition at most.
pub proof fn law_add_keeps_slots_distinct(defs: Seq<DefModel>, d: DefModel)
    requires
        slots_distinct(defs),
        !slot_taken(defs, d.area, d.addr),
    ensures
        slots_distinct(defs.push(d)),
        slot_taken(defs.push(d), d.area, d.addr),
{
    let next = defs.push(d);
    assert(is_slot(next[next.len() - 1], d.area, d.addr));
    assert forall|i: int, j: int| 0 <= i < j < next.len() implies !is_slot(
        #[trigger] next[j],
        (#[trigger] next[i]).area,
        next[i].addr,
    ) by {
        if j == defs.len() {
            assert(!is_slot(defs[i], d.area, d.addr));
        } else {
            assert(!is_slot(defs[j], defs[i].area, defs[i].addr));
        }
    }
}

/// A register that is added under an id that no definition has leaves each id with one
/// definition at most.
pub proof fn law_add_keeps_ids_distinct(defs: Seq<DefModel>, d: DefModel)
    requires
        ids_distinct(defs),
        !id_known(defs, d.id),
    ensures
        ids_distinct(defs.push(d)),
{
    let next = defs.push(d);
    assert forall|i: int, j: int| 0 <= i < j < next.len() implies (#[trigger] next[i]).id != (
    #[trigger] next[j]).id by {
        if j == defs.len() {
            assert(defs[i].id != d.id);
        } else {
            assert(defs[i].id != defs[j].id);
        }
    }
}

/// A register that is changed leaves each slot and each id with one definition at most.
pub proof fn law_update_keeps_slots_distinct(
    defs: Seq<DefModel>,
    id: Seq<char>,
    k: int,
    input: RegInput,
)
    requires
        slots_distinct(defs),
        ids_distinct(defs),
        is_first_id(defs, id, k),
        !slot_taken_by_other(defs, id, input.area@, input.addr),
    ensures
        slots_distinct(defs.update(k, changed(defs[k], input))),
        ids_distinct(defs.update(k, changed(defs[k], input))),
{
    let e = changed(defs[k], input);
    let next = defs.update(k, e);
    assert forall|i: int| 0 <= i < defs.len() && i != k implies !is_slot(
        #[trigger] defs[i],
        e.area,
        e.addr,
    ) by {
        if i < k {
            assert(defs[i].id != defs[k].id);
        } else {
            assert(defs[k].id != defs[i].id);
        }
    }
    assert forall|i: int, j: int| 0 <= i < j < next.len() implies !is_slot(
        #[trigger] next[j],
        (#[trigger] next[i]).area,
        next[i].addr,
    ) by {
        assert(!is_slot(defs[j], defs[i].area, defs[i].addr));
        if i == k {
            assert(!is_slot(defs[j], e.area, e.addr));
        } else if j == k {
            assert(!is_slot(defs[i], e.area, e.addr));
        }
    }
    assert forall|i: int, j: int| 0 <= i < j < next.len() implies (#[trigger] next[i]).id != (
    #[trigger] next[j]).id by {
        assert(defs[i].id != defs[j].id);
    }
}

/// A register that is removed leaves each slot with one definition at most, and its own
/// slot with none; so with the ids.
pub proof fn law_delete_keeps_slots_distinct(defs: Seq<DefModel>, k: int)
    requires
        slots_distinct(defs),
        0 <= k < defs.len(),
    ensures
        slots_distinct(defs.remove(k)),
        !slot_taken(defs.remove(k), defs[k].area, defs[k].addr),
        ids_distinct(defs) ==> ids_distinct(defs.remove(k)) && !id_known(
            defs.remove(k),
            defs[k].id,
        ),
{
    let next = defs.remove(k);
    if ids_distinct(defs) {
        assert forall|i: int, j: int| 0 <= i < j < next.len() implies (#[trigger] next[i]).id != (
        #[trigger] next[j]).id by {
            let i0 = if i < k { i } else { i + 1 };
            let j0 = if j < k { j } else { j + 1 };
            assert(next[i] == defs[i0] && next[j] == defs[j0]);
            assert(defs[i0].id != defs[j0].id);
        }
        assert forall|i: int| 0 <= i < next.len() implies (#[trigger] next[i]).id
            != defs[k].id by {
            let i0 = if i < k { i } else { i + 1 };
            assert(next[i] == defs[i0]);
            if i0 < k {
                assert(defs[i0].id != defs[k].id);
            } else {
                assert(defs[k].id != defs[i0].id);
            }
        }
    }
    assert forall|i: int, j: int| 0 <= i < j < next.len() implies !is_slot(
        #[trigger] next[j],
        (#[trigger] next[i]).area,
        next[i].addr,
    ) by {
        let i0 = if i < k { i } else { i + 1 };
        let j0 = if j < k { j } else { j + 1 };
        assert(next[i] == defs[i0] && next[j] == defs[j0]);
        assert(!is_slot(defs[j0], defs[i0].area, defs[i0].addr));
    }
    assert forall|i: int| 0 <= i < next.len() implies !is_slot(
        #[trigger] next[i],
        defs[k].area,
        defs[k].addr,
    ) by {
        let i0 = if i < k { i } else { i + 1 };
        assert(next[i] == defs[i0]);
        if i0 < k {
            assert(!is_slot(defs[k], defs[i0].area, defs[i0].addr));
        } else {
            assert(!is_slot(defs[i0], defs[k].area, defs[k].addr));
        }
    }
}

/// A register that is added and then removed leaves the other definitions as they were,
/// and its slot as one that was never written.
pub proof fn law_add_then_delete(defs: Seq<DefModel>, img: ImageModel, d: DefModel, v: Number)
    requires
        !id_known(defs, d.id),
    ensures
        first_id(defs.push(d), d.id) == defs.len(),
        defs.push(d).remove(defs.len() as int) == defs,
        slot_cleared(slot_written(img, d.area, d.addr, v), d.area, d.addr) == slot_cleared(
            img,
            d.area,
            d.addr,
        ),
{
    let next = defs.push(d);
    assert forall|j: int| 0 <= j < defs.len() implies (#[trigger] next[j]).id != d.id by {
        assert(defs[j].id != d.id);
    }
    lemma_first_id(next, d.id, defs.len() as int);
    assert(next.remove(defs.len() as int) =~= defs);
    let a = slot_cleared(slot_written(img, d.area, d.addr, v), d.area, d.addr);
    let b = slot_cleared(img, d.area, d.addr);
    assert(a.coils =~= b.coils);
    assert(a.discrete_inputs =~= b.discrete_inputs);
    assert(a.input_registers =~= b.input_registers);
    assert(a.holding_registers =~= b.holding_registers);
}

/// The sample registers leave each slot and each id with one definition at most.
pub proof fn law_samples_are_in_order()
    ensures
        in_order(sample_defs()),
{
    crate::slave::lemma_area_names();
    let d = sample_defs();
    assert forall|i: int| 0 <= i < d.len() implies (#[trigger] d[i]).id.last() == (49 + i) as char by {
        reveal_with_fuel(decimal, 2);
    }
    assert forall|i: int, j: int| 0 <= i < j < d.len() implies (#[trigger] d[i]).id != (
    #[trigger] d[j]).id by {
        assert(d[i].id.last() != d[j].id.last());
    }
}

/// A batch keeps the definitions that were there, leaves each slot with one definition
/// at most where that was so before, and stands for every one of its addresses
/// afterwards. What it adds are the addresses that were free.
pub proof fn law_batch(defs: Seq<DefModel>, b: BatchInput, n: nat)
    ensures
        ({
            let next = batch_defs(defs, b, n);
            &&& next.len() >= defs.len()
            &&& next.len() <= defs.len() + n
            &&& next.take(defs.len() as int) == defs
            &&& slots_distinct(defs) ==> slots_distinct(next)
            &&& forall|i: int|
                0 <= i < n ==> slot_taken(next, b.area@, #[trigger] batch_addr(b.start_addr, i))
            &&& forall|j: int|
                defs.len() <= j < next.len() ==> {
                    &&& #[trigger] next[j] == batch_def(b, next[j].addr)
                    &&& b.start_addr <= next[j].addr < b.start_addr + n
                    &&& !slot_taken(defs, b.area@, next[j].addr)
                }
        }),
    decreases n,
{
    if n == 0 {
        assert(defs.take(defs.len() as int) =~= defs);
    } else {
        let m = (n - 1) as nat;
        law_batch(defs, b, m);
        let prev = batch_defs(defs, b, m);
        let next = batch_defs(defs, b, n);
        let addr = batch_addr(b.start_addr, n - 1);
        if !slot_taken(prev, b.area@, addr) {
            lemma_push_keeps_distinct(defs, prev, batch_def(b, addr));
            assert(next.take(defs.len() as int) =~= prev.take(defs.len() as int));
            if slot_taken(defs, b.area@, addr) {
                let i = choose|i: int| 0 <= i < defs.len() && is_slot(#[trigger] defs[i], b.area@, addr);
                assert(prev[i] == prev.take(defs.len() as int)[i]);
                assert(is_slot(prev[i], b.area@, addr));
            }
            assert(is_slot(next[next.len() - 1], b.area@, addr));
            if b.start_addr + (n - 1) > 65535 && m > 0 {
                let last = batch_addr(b.start_addr, m - 1);
                assert(slot_taken(prev, b.area@, last));
            }
            assert forall|i: int| 0 <= i < n implies slot_taken(
                next,
                b.area@,
                #[trigger] batch_addr(b.start_addr, i),
            ) by {
                if i < m {
                    let a = batch_addr(b.start_addr, i);
                    let w = choose|w: int| 0 <= w < prev.len() && is_slot(#[trigger] prev[w], b.area@, a);
                    assert(is_slot(next[w], b.area@, a));
                }
            }
        }
    }
}

proof fn lemma_push_keeps_distinct(defs: Seq<DefModel>, prev: Seq<DefModel>, d: DefModel)
    requires
        !slot_taken(prev, d.area, d.addr),
        slots_distinct(defs) ==> slots_distinct(prev),
    ensures
        slots_distinct(defs) ==> slots_distinct(prev.push(d)),
{
    if slots_distinct(defs) {
        law_add_keeps_slots_distinct(prev, d);
    }
}

/// Every row of an import is either imported or skipped; the definitions that were
/// there stay in their places with their slots, ids and times; each slot keeps one
/// definition at most where that was so before; and without replacing nothing is said
/// anew of what was there.
pub proof fn law_import(
    s: ImportModel,
    rows: Seq<Seq<Seq<char>>>,
    values: Seq<Number>,
    replace: bool,
)
    ensures
        ({
            let end = import_rows_model(s, rows, values, replace);
            &&& end.imported + end.skipped == s.imported + s.skipped + rows.len()
            &&& end.defs.len() >= s.defs.len()
            &&& forall|i: int|
                0 <= i < s.defs.len() ==> (#[trigger] end.defs[i]).id == s.defs[i].id
                    && end.defs[i].area == s.defs[i].area && end.defs[i].addr == s.defs[i].addr
                    && end.defs[i].created_at_ms == s.defs[i].created_at_ms
            &&& !replace ==> end.defs.take(s.defs.len() as int) == s.defs
            &&& slots_distinct(s.defs) ==> slots_distinct(end.defs)
        }),
    decreases rows.len(),
{
    if rows.len() == 0 {
        assert(s.defs.take(s.defs.len() as int) =~= s.defs);
    } else {
        let n = rows.len() - 1;
        law_import(s, rows.drop_last(), values, replace);
        let mid = import_rows_model(s, rows.drop_last(), values, replace);
        let row = row_def(rows[n], row_area(rows[n]));
        let end = import_rows_model(s, rows, values, replace);
        if row is Some {
            let d = row->0;
            if !slot_taken(mid.defs, d.area, d.addr) {
                lemma_push_keeps_distinct(s.defs, mid.defs, d);
                assert(end.defs.take(s.defs.len() as int) =~= mid.defs.take(s.defs.len() as int));
            } else if replace {
                lemma_first_exists(mid.defs, d.area, d.addr);
                let k = first_slot(mid.defs, d.area, d.addr);
                assert forall|i: int| 0 <= i < end.defs.len() implies (#[trigger] end.defs[i]).area
                    == mid.defs[i].area && end.defs[i].addr == mid.defs[i].addr && end.defs[i].id
                    == mid.defs[i].id && end.defs[i].created_at_ms
                    == mid.defs[i].created_at_ms by {}
                if slots_distinct(mid.defs) {
                    assert forall|i: int, j: int| 0 <= i < j < end.defs.len() implies !is_slot(
                        #[trigger] end.defs[j],
                        (#[trigger] end.defs[i]).area,
                        end.defs[i].addr,
                    ) by {
                        assert(!is_slot(mid.defs[j], mid.defs[i].area, mid.defs[i].addr));
                    }
                }
            }
        }
    }
}

proof fn lemma_area_is_trimmed(area: Seq<char>)
    requires
        is_area(area),
    ensures
        trimmed(area) == area,
        lowered(area) == area,
        vstd::utf8::is_ascii_chars(area),
{
    reveal_strlit("holding");
    reveal_strlit("input");
    reveal_strlit("coil");
    reveal_strlit("discrete");
    assert(forall|i: int|
        0 <= i < area.len() ==> 'a' <= #[trigger] area[i] <= 'z');
    assert(lowered(area) =~= area);
}

/// A row that tells of a register as it is exported, its area in the first cell, stands
/// for that register: what an export has written, an import reads. `areas_ruled` is what
/// an import states of the rows that it has read.
pub proof fn law_exported_row_is_read_back(d: DefModel, cells: Seq<Seq<char>>)
    requires
        is_area(d.area),
        cells.len() >= 7,
        cells[0] == d.area,
        cells[1] == decimal(d.addr as nat),
        cells[3] == d.name,
        cells[4] == d.dtype,
        cells[5] == d.access,
        cells[6] == d.vary,
    ensures
        areas_ruled(seq![cells]) ==> row_def(cells, row_area(cells)) == Some(unstamped(d)),
        row_def(cells, d.area) == Some(unstamped(d)),
{
    crate::text::law_decimal_roundtrip(d.addr as nat, 65535);
    lemma_area_is_trimmed(d.area);
    let rows = seq![cells];
    assert(rows[0] == cells);
}

/// A register that is added has the fields of the input, and the id and time that it is
/// given; one that is changed has the fields of the input and keeps its id and time.
pub proof fn law_definition_fields(input: RegInput, id: Seq<char>, at: u64, d: DefModel)
    ensures
        ({
            let e = def_of(input, id, at);
            &&& e.id == id && e.created_at_ms == at
            &&& e.area == input.area@ && e.addr == input.addr
            &&& e.name == input.name@ && e.dtype == input.dtype@
            &&& e.access == input.access@ && e.vary == input.vary@
        }),
        ({
            let e = changed(d, input);
            &&& e.id == d.id && e.created_at_ms == d.created_at_ms
            &&& e.area == input.area@ && e.addr == input.addr
            &&& e.name == input.name@ && e.dtype == input.dtype@
            &&& e.access == input.access@ && e.vary == input.vary@
        }),
{
}

/// A register that is changed leaves its value in its new slot and, where that is another
/// one, nothing in the old slot; no other slot changes.
pub proof fn law_changed_register_moves(
    img: ImageModel,
    d: DefModel,
    input: RegInput,
    area: Seq<char>,
    addr: u16,
)
    ensures
        ({
            let next = image_changed(img, d, input);
            &&& slot_holds(next, input.area@, input.addr, input.value)
            &&& d.area != input.area@ || d.addr != input.addr ==> slot_absent(next, d.area, d.addr)
            &&& (area != input.area@ || addr != input.addr) && (area != d.area || addr != d.addr)
                ==> slot_agrees(next, img, area, addr)
        }),
{
    let mid = slot_written(img, input.area@, input.addr, input.value);
    law_slots_are_separate(img, input.area@, input.addr, input.value, area, addr);
    law_slots_are_separate(mid, d.area, d.addr, input.value, area, addr);
    law_slots_are_separate(mid, d.area, d.addr, input.value, input.area@, input.addr);
}

/// A slot is taken where a definition has its area and its address, and taken by another
/// where such a definition has another id; an id is known where a definition has it.
pub proof fn law_taken_slots(
    defs: Seq<DefModel>,
    id: Seq<char>,
    area: Seq<char>,
    addr: u16,
    i: int,
)
    requires
        0 <= i < defs.len(),
    ensures
        defs[i].area == area && defs[i].addr == addr ==> slot_taken(defs, area, addr),
        defs[i].area == area && defs[i].addr == addr && defs[i].id != id ==> slot_taken_by_other(
            defs,
            id,
            area,
            addr,
        ),
        defs[i].id == id ==> id_known(defs, id),
        slot_taken(defs, area, addr) ==> exists|j: int|
            0 <= j < defs.len() && (#[trigger] defs[j]).area == area && defs[j].addr == addr,
        slot_taken_by_other(defs, id, area, addr) ==> exists|j: int|
            0 <= j < defs.len() && (#[trigger] defs[j]).area == area && defs[j].addr == addr
                && defs[j].id != id,
        id_known(defs, id) ==> exists|j: int| 0 <= j < defs.len() && (#[trigger] defs[j]).id == id,
{
    if defs[i].area == area && defs[i].addr == addr {
        assert(is_slot(defs[i], area, addr));
    }
    if slot_taken(defs, area, addr) {
        let j = choose|j: int| 0 <= j < defs.len() && is_slot(#[trigger] defs[j], area, addr);
        assert(defs[j].area == area);
    }
}

/// The definition that is found for a known id has it, and so for a taken slot; none before
/// it does.
pub proof fn law_found_definitions(
    defs: Seq<DefModel>,
    id: Seq<char>,
    area: Seq<char>,
    addr: u16,
)
    ensures
        (exists|j: int| 0 <= j < defs.len() && (#[trigger] defs[j]).id == id) ==> {
            let k = first_id(defs, id);
            &&& 0 <= k < defs.len()
            &&& defs[k].id == id
            &&& forall|j: int| 0 <= j < k ==> (#[trigger] defs[j]).id != id
        },
        (exists|j: int|
            0 <= j < defs.len() && (#[trigger] defs[j]).area == area && defs[j].addr == addr) ==> {
            let k = first_slot(defs, area, addr);
            &&& 0 <= k < defs.len()
            &&& defs[k].area == area && defs[k].addr == addr
            &&& forall|j: int|
                0 <= j < k ==> (#[trigger] defs[j]).area != area || defs[j].addr != addr
        },
{
    if exists|j: int| 0 <= j < defs.len() && (#[trigger] defs[j]).id == id {
        lemma_first_id_exists(defs, id);
    }
    if exists|j: int|
        0 <= j < defs.len() && (#[trigger] defs[j]).area == area && defs[j].addr == addr {
        let j = choose|j: int|
            0 <= j < defs.len() && (#[trigger] defs[j]).area == area && defs[j].addr == addr;
        assert(is_slot(defs[j], area, addr));
        lemma_first_exists(defs, area, addr);
        let k = first_slot(defs, area, addr);
        assert forall|j: int| 0 <= j < k implies (#[trigger] defs[j]).area != area || defs[j].addr
            != addr by {
            assert(!is_slot(defs[j], area, addr));
        }
    }
}

/// What was planned is what comes about: the definitions that were there are the planned
/// ones, and each new one has every planned field, an id of sixteen digits that no other
/// definition before it has, and some time.
pub proof fn law_stamped_fields(actual: Seq<DefModel>, plan: Seq<DefModel>, n: int, i: int, j: int)
    requires
        is_stamped(actual, plan, n),
        0 <= i < actual.len(),
    ensures
        actual.len() == plan.len(),
        i < n ==> actual[i] == plan[i],
        actual[i].area == plan[i].area && actual[i].addr == plan[i].addr,
        actual[i].name == plan[i].name && actual[i].dtype == plan[i].dtype,
        actual[i].access == plan[i].access && actual[i].vary == plan[i].vary,
        n <= i ==> actual[i].id.len() == 16,
        n <= i && 0 <= j < i ==> actual[j].id != actual[i].id,
{
    if n <= i {
        assert(unstamped(actual[i]) == plan[i]);
        let h = choose|h: u64| actual[i].id == #[trigger] id_text(h);
        crate::text::law_fixed_places(h as nat, 16, 16, false, 0);
    }
}

/// The registers of a batch stand at successive addresses, none beyond the last one, have
/// the fields that the batch gives, and are named by the prefix, or by the area and an
/// underscore, and the address.
pub proof fn law_batch_registers(b: BatchInput, addr: u16, i: int)
    requires
        0 <= i,
    ensures
        b.start_addr + i <= 65535 ==> batch_addr(b.start_addr, i) == b.start_addr + i,
        b.start_addr + i > 65535 ==> batch_addr(b.start_addr, i) == 65535,
        ({
            let d = batch_def(b, addr);
            &&& d.area == b.area@ && d.addr == addr
            &&& d.dtype == b.dtype@ && d.access == b.access@ && d.vary == b.vary@
            &&& b.name_prefix@.len() > 0 ==> d.name == b.name_prefix@ + decimal(addr as nat)
            &&& b.name_prefix@.len() == 0 ==> d.name == b.area@ + seq!['_'] + decimal(addr as nat)
        }),
{
    reveal_strlit("_");
    assert("_"@ =~= seq!['_']);
}

/// A batch puts its value into exactly the slots that it adds; every other slot stays.
pub proof fn law_batch_values(
    defs: Seq<DefModel>,
    img: ImageModel,
    b: BatchInput,
    n: nat,
    area: Seq<char>,
    addr: u16,
)
    ensures
        ({
            let next = batch_image(defs, img, b, n);
            let added = slot_taken(batch_defs(defs, b, n), area, addr) && !slot_taken(
                defs,
                area,
                addr,
            );
            &&& added ==> slot_holds(next, area, addr, b.value)
            &&& !added ==> slot_agrees(next, img, area, addr)
        }),
    decreases n,
{
    if n > 0 {
        let m = (n - 1) as nat;
        let prev = batch_defs(defs, b, m);
        let prev_img = batch_image(defs, img, b, m);
        let a = batch_addr(b.start_addr, n - 1);
        law_batch_values(defs, img, b, m, area, addr);
        law_batch(defs, b, m);
        if !slot_taken(prev, b.area@, a) {
            law_slots_are_separate(prev_img, b.area@, a, b.value, area, addr);
            lemma_push_taken(prev, batch_def(b, a), area, addr);
            if slot_taken(defs, area, addr) {
                let i = choose|i: int|
                    0 <= i < defs.len() && is_slot(#[trigger] defs[i], area, addr);
                assert(prev[i] == prev.take(defs.len() as int)[i]);
                assert(is_slot(prev[i], area, addr));
            }
        }
    }
}

proof fn lemma_push_taken(defs: Seq<DefModel>, d: DefModel, area: Seq<char>, addr: u16)
    ensures
        slot_taken(defs.push(d), area, addr) <==> slot_taken(defs, area, addr) || (d.area == area
            && d.addr == addr),
{
    let next = defs.push(d);
    if slot_taken(defs, area, addr) {
        let i = choose|i: int| 0 <= i < defs.len() && is_slot(#[trigger] defs[i], area, addr);
        assert(is_slot(next[i], area, addr));
    }
    if d.area == area && d.addr == addr {
        assert(is_slot(next[defs.len() as int], area, addr));
    }
    if slot_taken(next, area, addr) {
        let i = choose|i: int| 0 <= i < next.len() && is_slot(#[trigger] next[i], area, addr);
        if i < defs.len() {
            assert(is_slot(defs[i], area, addr));
        }
    }
}

/// An import looks at the rows below the first that have at least seven cells, in order.
pub proof fn law_usable_rows(rows: Seq<Seq<Seq<char>>>, row: Seq<Seq<char>>)
    ensures
        rows.len() <= 1 ==> usable(rows).len() == 0,
        rows.len() >= 1 && row.len() >= 7 ==> usable(rows.push(row)) == usable(rows).push(row),
        rows.len() >= 1 && row.len() < 7 ==> usable(rows.push(row)) == usable(rows),
{
    reveal(Seq::filter);
    if rows.len() == 1 {
        assert(rows.drop_first() =~= Seq::empty());
    }
    if rows.len() >= 1 {
        let body = rows.drop_first();
        assert(rows.push(row).drop_first() =~= body.push(row));
        assert(body.push(row).drop_last() =~= body);
    }
}

/// A row stands for a register where its area cell names one of the four areas and its
/// second cell has an address up to 65535, white space around it not counted. Its fourth
/// to seventh cells are the name, the type, the access and the vary text; where they are
/// missing, the name is empty, the type "u16", the access "rw" and the vary text "off".
pub proof fn law_rows_are_read(cells: Seq<Seq<char>>, area: Seq<char>)
    ensures
        ({
            let known = area == "holding"@ || area == "input"@ || area == "coil"@ || area
                == "discrete"@;
            let addr = parsed(trimmed(cells[1]), 65535);
            &&& row_def(cells, area) is Some <==> known && cells.len() >= 2 && addr is Some
            &&& row_def(cells, area) matches Some(d) ==> {
                &&& d.area == area && d.addr == addr->0
                &&& d.name == (if cells.len() > 3 { cells[3] } else { Seq::empty() })
                &&& d.dtype == (if cells.len() > 4 { cells[4] } else { "u16"@ })
                &&& d.access == (if cells.len() > 5 { cells[5] } else { "rw"@ })
                &&& d.vary == (if cells.len() > 6 { cells[6] } else { "off"@ })
            }
        }),
        cells.len() > 0 ==> row_area(cells) == unicode_lowercase(trimmed(cells[0])),
        cells.len() == 0 ==> row_area(cells).len() == 0,
{
    crate::text::law_number_texts(trimmed(cells[1]), 65535);
    crate::text::law_number_texts(trimmed(Seq::<char>::empty()), 65535);
    crate::text::law_trimmed(Seq::<char>::empty());
    assert(trimmed(Seq::<char>::empty()).len() == 0);
}

/// Whether a row stands for a register in a slot.
pub open spec fn row_names(cells: Seq<Seq<char>>, area: Seq<char>, addr: u16) -> bool {
    row_def(cells, row_area(cells)) matches Some(d) && d.area == area && d.addr == addr
}

/// Whether a definition says what another one says of its register, field by field.
pub open spec fn says_same(a: DefModel, b: DefModel) -> bool {
    &&& a.area == b.area
    &&& a.addr == b.addr
    &&& a.name == b.name
    &&& a.dtype == b.dtype
    &&& a.access == b.access
    &&& a.vary == b.vary
}

/// Whether the slot of a definition has definitions, and they all say what it says.
pub open spec fn slot_says(defs: Seq<DefModel>, d: DefModel) -> bool {
    &&& exists|k: int| 0 <= k < defs.len() && says_same(#[trigger] defs[k], d)
    &&& forall|k: int|
        0 <= k < defs.len() && (#[trigger] defs[k]).area == d.area && defs[k].addr == d.addr
            ==> says_same(defs[k], d)
}

proof fn lemma_step_says(s: ImportModel, d: DefModel, v: Number, replace: bool)
    requires
        slots_distinct(s.defs),
        replace || !slot_taken(s.defs, d.area, d.addr),
    ensures
        slot_says(import_step(s, Some(d), v, replace).defs, d),
        slot_holds(import_step(s, Some(d), v, replace).image, d.area, d.addr, v),
{
    let end = import_step(s, Some(d), v, replace);
    law_slots_are_separate(s.image, d.area, d.addr, v, d.area, d.addr);
    if slot_taken(s.defs, d.area, d.addr) {
        lemma_first_exists(s.defs, d.area, d.addr);
        let k = first_slot(s.defs, d.area, d.addr);
        assert(is_slot(s.defs[k], d.area, d.addr));
        assert(says_same(end.defs[k], d));
        assert forall|i: int|
            0 <= i < end.defs.len() && (#[trigger] end.defs[i]).area == d.area && end.defs[i].addr
                == d.addr implies says_same(end.defs[i], d) by {
            if i < k {
                assert(!is_slot(s.defs[k], s.defs[i].area, s.defs[i].addr));
            } else if k < i {
                assert(!is_slot(s.defs[i], s.defs[k].area, s.defs[k].addr));
            }
        }
    } else {
        assert(says_same(end.defs[s.defs.len() as int], d));
        assert forall|i: int|
            0 <= i < end.defs.len() && (#[trigger] end.defs[i]).area == d.area && end.defs[i].addr
                == d.addr implies says_same(end.defs[i], d) by {
            if i < s.defs.len() {
                assert(!is_slot(s.defs[i], d.area, d.addr));
            }
        }
    }
}

proof fn lemma_step_elsewhere(
    s: ImportModel,
    row: Option<DefModel>,
    v: Number,
    replace: bool,
    d: DefModel,
)
    requires
        row matches Some(e) ==> e.area != d.area || e.addr != d.addr || (!replace && slot_taken(
            s.defs,
            d.area,
            d.addr,
        )),
    ensures
        slot_says(s.defs, d) ==> slot_says(import_step(s, row, v, replace).defs, d),
        slot_agrees(import_step(s, row, v, replace).image, s.image, d.area, d.addr),
        slot_taken(import_step(s, row, v, replace).defs, d.area, d.addr) == slot_taken(
            s.defs,
            d.area,
            d.addr,
        ),
{
    let end = import_step(s, row, v, replace);
    if row is Some {
        let e = row->0;
        if e.area == d.area && e.addr == d.addr {
            assert(end.defs == s.defs);
        } else if !slot_taken(s.defs, e.area, e.addr) {
            law_slots_are_separate(s.image, e.area, e.addr, v, d.area, d.addr);
            lemma_push_taken(s.defs, e, d.area, d.addr);
            if slot_says(s.defs, d) {
                let k = choose|k: int| 0 <= k < s.defs.len() && says_same(#[trigger] s.defs[k], d);
                assert(says_same(end.defs[k], d));
                assert forall|i: int|
                    0 <= i < end.defs.len() && (#[trigger] end.defs[i]).area == d.area
                        && end.defs[i].addr == d.addr implies says_same(end.defs[i], d) by {
                    if i < s.defs.len() {
                        assert(end.defs[i] == s.defs[i]);
                    }
                }
            }
        } else if replace {
            law_slots_are_separate(s.image, e.area, e.addr, v, d.area, d.addr);
            lemma_first_exists(s.defs, e.area, e.addr);
            let f = first_slot(s.defs, e.area, e.addr);
            assert(is_slot(s.defs[f], e.area, e.addr));
            assert forall|i: int| 0 <= i < end.defs.len() implies (#[trigger] end.defs[i]).area
                == s.defs[i].area && end.defs[i].addr == s.defs[i].addr by {}
            assert forall|i: int|
                0 <= i < end.defs.len() && (#[trigger] end.defs[i]).area == d.area
                    && end.defs[i].addr == d.addr implies end.defs[i] == s.defs[i] by {}
            if slot_taken(s.defs, d.area, d.addr) {
                let i = choose|i: int|
                    0 <= i < s.defs.len() && is_slot(#[trigger] s.defs[i], d.area, d.addr);
                assert(is_slot(end.defs[i], d.area, d.addr));
            }
            if slot_taken(end.defs, d.area, d.addr) {
                let i = choose|i: int|
                    0 <= i < end.defs.len() && is_slot(#[trigger] end.defs[i], d.area, d.addr);
                assert(is_slot(s.defs[i], d.area, d.addr));
            }
            if slot_says(s.defs, d) {
                let k = choose|k: int| 0 <= k < s.defs.len() && says_same(#[trigger] s.defs[k], d);
                assert(end.defs[k].area == d.area);
                assert(says_same(end.defs[k], d));
                assert forall|i: int|
                    0 <= i < end.defs.len() && (#[trigger] end.defs[i]).area == d.area
                        && end.defs[i].addr == d.addr implies says_same(end.defs[i], d) by {
                    assert(end.defs[i] == s.defs[i]);
                }
            }
        }
    }
}

/// After an import with replacing, the definition of every slot that some row names says of
/// name, type, access and vary text what the last row for that slot says, field by field,
/// and the slot holds the value of that row, whether or not it was taken before.
pub proof fn law_last_row_counts(
    s: ImportModel,
    rows: Seq<Seq<Seq<char>>>,
    values: Seq<Number>,
    r: int,
    d: DefModel,
)
    requires
        forall|a: int, b: int|
            0 <= a < b < s.defs.len() ==> (#[trigger] s.defs[a]).area != (#[trigger] s.defs[b]).area
                || s.defs[a].addr != s.defs[b].addr,
        0 <= r < rows.len(),
        row_def(rows[r], row_area(rows[r])) == Some(d),
        forall|q: int| r < q < rows.len() ==> !row_names(#[trigger] rows[q], d.area, d.addr),
    ensures
        slot_says(import_rows_model(s, rows, values, true).defs, d),
        slot_holds(
            import_rows_model(s, rows, values, true).image,
            d.area,
            d.addr,
            values[r],
        ),
    decreases rows.len(),
{
    let front = rows.drop_last();
    let n = rows.len() - 1;
    let mid = import_rows_model(s, front, values, true);
    let row = row_def(rows[n], row_area(rows[n]));
    assert(slots_distinct(s.defs)) by {
        assert forall|i: int, j: int| 0 <= i < j < s.defs.len() implies !is_slot(
            #[trigger] s.defs[j],
            (#[trigger] s.defs[i]).area,
            s.defs[i].addr,
        ) by {}
    }
    if r == n {
        law_import(s, front, values, true);
        lemma_step_says(mid, d, values[n], true);
    } else {
        assert(front[r] == rows[r]);
        assert forall|q: int| r < q < front.len() implies !row_names(
            #[trigger] front[q],
            d.area,
            d.addr,
        ) by {
            assert(front[q] == rows[q]);
        }
        law_last_row_counts(s, front, values, r, d);
        assert(!row_names(rows[n], d.area, d.addr));
        lemma_step_elsewhere(mid, row, values[n], true, d);
        lemma_holds_carries(
            mid.image,
            import_rows_model(s, rows, values, true).image,
            d.area,
            d.addr,
            values[r],
        );
    }
}

proof fn lemma_holds_carries(a: ImageModel, b: ImageModel, area: Seq<char>, addr: u16, v: Number)
    requires
        slot_holds(a, area, addr, v),
        slot_agrees(b, a, area, addr),
    ensures
        slot_holds(b, area, addr, v),
{
}

/// A slot that no row of an import names, and without replacing one that was taken before,
/// keeps its value; it is taken afterwards exactly where it was before.
pub proof fn law_unnamed_slots_stay(
    s: ImportModel,
    rows: Seq<Seq<Seq<char>>>,
    values: Seq<Number>,
    replace: bool,
    d: DefModel,
)
    requires
        (forall|q: int| 0 <= q < rows.len() ==> !row_names(#[trigger] rows[q], d.area, d.addr)) || (
        !replace && slot_taken(s.defs, d.area, d.addr)),
    ensures
        ({
            let end = import_rows_model(s, rows, values, replace);
            &&& slot_agrees(end.image, s.image, d.area, d.addr)
            &&& slot_taken(end.defs, d.area, d.addr) == slot_taken(s.defs, d.area, d.addr)
            &&& slot_says(s.defs, d) ==> slot_says(end.defs, d)
        }),
    decreases rows.len(),
{
    if rows.len() > 0 {
        let front = rows.drop_last();
        let n = rows.len() - 1;
        let mid = import_rows_model(s, front, values, replace);
        let row = row_def(rows[n], row_area(rows[n]));
        if forall|q: int| 0 <= q < rows.len() ==> !row_names(#[trigger] rows[q], d.area, d.addr) {
            assert forall|q: int| 0 <= q < front.len() implies !row_names(
                #[trigger] front[q],
                d.area,
                d.addr,
            ) by {
                assert(front[q] == rows[q]);
            }
            assert(!row_names(rows[n], d.area, d.addr));
        }
        law_unnamed_slots_stay(s, front, values, replace, d);
        lemma_step_elsewhere(mid, row, values[n], replace, d);
    }
}

/// Without replacing, a free slot gets what the first row for it says, and that row's
/// value; later rows for it are skipped.
pub proof fn law_first_row_counts(
    s: ImportModel,
    rows: Seq<Seq<Seq<char>>>,
    values: Seq<Number>,
    r: int,
    d: DefModel,
)
    requires
        forall|a: int, b: int|
            0 <= a < b < s.defs.len() ==> (#[trigger] s.defs[a]).area != (#[trigger] s.defs[b]).area
                || s.defs[a].addr != s.defs[b].addr,
        0 <= r < rows.len(),
        row_def(rows[r], row_area(rows[r])) == Some(d),
        forall|q: int| 0 <= q < r ==> !row_names(#[trigger] rows[q], d.area, d.addr),
        !slot_taken(s.defs, d.area, d.addr),
    ensures
        slot_says(import_rows_model(s, rows, values, false).defs, d),
        slot_holds(
            import_rows_model(s, rows, values, false).image,
            d.area,
            d.addr,
            values[r],
        ),
        slot_taken(import_rows_model(s, rows, values, false).defs, d.area, d.addr),
    decreases rows.len(),
{
    let front = rows.drop_last();
    let n = rows.len() - 1;
    let mid = import_rows_model(s, front, values, false);
    let row = row_def(rows[n], row_area(rows[n]));
    assert(slots_distinct(s.defs)) by {
        assert forall|i: int, j: int| 0 <= i < j < s.defs.len() implies !is_slot(
            #[trigger] s.defs[j],
            (#[trigger] s.defs[i]).area,
            s.defs[i].addr,
        ) by {}
    }
    assert forall|q: int| 0 <= q < r && q < front.len() implies !row_names(
        #[trigger] front[q],
        d.area,
        d.addr,
    ) by {
        assert(front[q] == rows[q]);
    }
    let end = import_rows_model(s, rows, values, false);
    if r == n {
        law_import(s, front, values, false);
        law_unnamed_slots_stay(s, front, values, false, d);
        lemma_step_says(mid, d, values[n], false);
        let k = choose|k: int| 0 <= k < end.defs.len() && says_same(#[trigger] end.defs[k], d);
        assert(is_slot(end.defs[k], d.area, d.addr));
    } else {
        assert(front[r] == rows[r]);
        law_first_row_counts(s, front, values, r, d);
        lemma_step_elsewhere(mid, row, values[n], false, d);
        lemma_holds_carries(mid.image, end.image, d.area, d.addr, values[r]);
    }
}

/// A row is imported exactly where it stands for a register, and its slot is free or rows
/// replace; else it is skipped.
pub proof fn law_import_counts(
    s: ImportModel,
    rows: Seq<Seq<Seq<char>>>,
    values: Seq<Number>,
    replace: bool,
    row: Seq<Seq<char>>,
)
    ensures
        ({
            let mid = import_rows_model(s, rows, values, replace);
            let end = import_rows_model(s, rows.push(row), values, replace);
            let d = row_def(row, row_area(row));
            let taken = slot_taken(mid.defs, d->0.area, d->0.addr);
            if d is Some && (replace || !taken) {
                end.imported == mid.imported + 1 && end.skipped == mid.skipped
            } else {
                end.imported == mid.imported && end.skipped == mid.skipped + 1 && end.defs
                    == mid.defs && end.image == mid.image
            }
        }),
        import_rows_model(s, Seq::empty(), values, replace) == s,
{
    assert(rows.push(row).drop_last() =~= rows);
}

/// A search without a keyword lists all registers. Else a register is listed where the
/// keyword stands in its name in lower case, in its area, in the name of its area, or in
/// its address in decimal or in four hexadecimal digits; the order is kept.
pub proof fn law_search(defs: Seq<DefModel>, d: DefModel, kw: Seq<char>)
    ensures
        kw.len() == 0 ==> listed(defs, kw) == defs,
        kw.len() > 0 ==> listed(Seq::empty(), kw).len() == 0,
        kw.len() > 0 ==> ({
            let hit = occurs_in(kw, unicode_lowercase(d.name)) || occurs_in(kw, d.area)
                || occurs_in(kw, area_label_text(d.area)) || occurs_in(kw, decimal(d.addr as nat))
                || occurs_in(kw, fixed_digits(d.addr as nat, 16, 4, false));
            listed(defs.push(d), kw) == (if hit {
                listed(defs, kw).push(d)
            } else {
                listed(defs, kw)
            })
        }),
{
    reveal(Seq::filter);
    assert(defs.push(d).drop_last() =~= defs);
}

/// A search text counts without the white space around it, and in lower case.
pub proof fn law_keywords(text: Seq<char>)
    ensures
        keyword_of(text) == unicode_lowercase(trimmed(text)),
{
}

/// Each slot has one definition at most where no two have the same area and address, and
/// each id one where no two have the same id; a registry is in order where both hold.
pub proof fn law_order_of_registries(defs: Seq<DefModel>, i: int, j: int)
    requires
        0 <= i < j < defs.len(),
    ensures
        slots_distinct(defs) ==> defs[i].area != defs[j].area || defs[i].addr != defs[j].addr,
        ids_distinct(defs) ==> defs[i].id != defs[j].id,
        in_order(defs) <==> slots_distinct(defs) && ids_distinct(defs),
{
    if slots_distinct(defs) {
        assert(!is_slot(defs[j], defs[i].area, defs[i].addr));
    }
}

/// The texts of rows are the texts of their cells, in order.
pub proof fn law_row_texts(rows: Seq<Vec<String>>, i: int, j: int)
    requires
        0 <= i < rows.len(),
        0 <= j < rows[i]@.len(),
    ensures
        row_texts(rows).len() == rows.len(),
        row_texts(rows)[i].len() == rows[i]@.len(),
        row_texts(rows)[i][j] == rows[i]@[j]@,
{
}

/// What is said of a slot that is taken starts with the name of its area, "0x" and its
/// address in four capital hexadecimal digits.
pub proof fn law_slot_texts(area: Seq<char>, addr: u16)
    ensures
        slot_text(area, addr) == area_label_text(area) + seq![' ', '0', 'x'] + fixed_digits(
            addr as nat,
            16,
            4,
            true,
        ),
        slot_text(area, addr).is_prefix_of(taken_text(area, addr)),
        slot_text(area, addr).is_prefix_of(occupied_text(area, addr)),
        taken_text(area, addr) != occupied_text(area, addr),
{
    reveal_strlit(" 0x");
    assert(" 0x"@ =~= seq![' ', '0', 'x']);
    reveal_strlit(
        " 已存在。如需修改该地址的寄存器，请使用「编辑」，或在弹出提示中选择「替换」用新配置覆盖。",
    );
    reveal_strlit(" 已被其他寄存器占用，请换个地址");
    let s = slot_text(area, addr);
    let n = s.len() as int;
    assert(taken_text(area, addr).subrange(0, n) =~= s);
    assert(occupied_text(area, addr).subrange(0, n) =~= s);
    assert(taken_text(area, addr)[n + 2] == '存');
    assert(occupied_text(area, addr)[n + 2] == '被');
}

/// The id that is found free is that of the first hash value from the drawn one on, the
/// largest being followed by zero, whose id no definition has.
pub proof fn law_first_free_id(defs: Seq<DefModel>, h: u64, k: int, j: int)
    requires
        is_first_free(defs, h, k),
    ensures
        0 <= k,
        hash_after(h, k) as int == (h + k) % 0x1_0000_0000_0000_0000,
        forall|i: int|
            0 <= i < defs.len() ==> (#[trigger] defs[i]).id != id_text(hash_after(h, k)),
        0 <= j < k ==> exists|i: int|
            0 <= i < defs.len() && (#[trigger] defs[i]).id == id_text(hash_after(h, j)),
{
    if 0 <= j < k {
        assert(id_known(defs, id_text(hash_after(h, j))));
    }
}

/// An id that was generated is sixteen digits from '0' to '9' and from 'a' to 'f'.
pub proof fn law_generated_ids(id: Seq<char>, i: int)
    requires
        is_generated(id),
        0 <= i < 16,
    ensures
        id.len() == 16,
        '0' <= id[i] <= '9' || 'a' <= id[i] <= 'f',
{
    let h = choose|h: u64| id == #[trigger] id_text(h);
    crate::simreg::law_id_digits(h, i);
}

/// The register of a row for a free slot stands behind those that were there. A row that
/// replaces leaves every definition for another slot as it was, and in its place.
pub proof fn law_import_order(
    s: ImportModel,
    rows: Seq<Seq<Seq<char>>>,
    values: Seq<Number>,
    replace: bool,
    row: Seq<Seq<char>>,
    d: DefModel,
)
    requires
        row_def(row, row_area(row)) == Some(d),
    ensures
        ({
            let mid = import_rows_model(s, rows, values, replace);
            let end = import_rows_model(s, rows.push(row), values, replace);
            &&& !slot_taken(mid.defs, d.area, d.addr) ==> end.defs == mid.defs.push(d)
            &&& slot_taken(mid.defs, d.area, d.addr) ==> end.defs.len() == mid.defs.len()
                && forall|i: int|
                0 <= i < mid.defs.len() ==> {
                    &&& (#[trigger] end.defs[i]).id == mid.defs[i].id
                    &&& end.defs[i].area == mid.defs[i].area && end.defs[i].addr == mid.defs[i].addr
                    &&& mid.defs[i].area != d.area || mid.defs[i].addr != d.addr ==> end.defs[i]
                        == mid.defs[i]
                }
        }),
{
    let mid = import_rows_model(s, rows, values, replace);
    assert(rows.push(row).drop_last() =~= rows);
    if slot_taken(mid.defs, d.area, d.addr) {
        lemma_first_exists(mid.defs, d.area, d.addr);
        let k = first_slot(mid.defs, d.area, d.addr);
        assert(is_slot(mid.defs[k], d.area, d.addr));
    }
}

/// A batch goes through its addresses in turn, and puts the register of each free one
/// behind those that were there.
pub proof fn law_batch_order(defs: Seq<DefModel>, b: BatchInput, n: nat)
    ensures
        batch_defs(defs, b, 0) == defs,
        ({
            let prev = batch_defs(defs, b, n);
            let next = batch_defs(defs, b, n + 1);
            let addr: int = if b.start_addr + n > 65535 {
                65535
            } else {
                b.start_addr + n
            };
            let taken = exists|j: int|
                0 <= j < prev.len() && (#[trigger] prev[j]).area == b.area@ && prev[j].addr == addr;
            next == (if taken {
                prev
            } else {
                prev.push(batch_def(b, addr as u16))
            })
        }),
{
    let prev = batch_defs(defs, b, n);
    let addr = batch_addr(b.start_addr, n as int);
    if exists|j: int|
        0 <= j < prev.len() && (#[trigger] prev[j]).area == b.area@ && prev[j].addr == addr {
        let j = choose|j: int|
            0 <= j < prev.len() && (#[trigger] prev[j]).area == b.area@ && prev[j].addr == addr;
        assert(is_slot(prev[j], b.area@, addr));
    }
    if slot_taken(prev, b.area@, addr) {
        let j = choose|j: int| 0 <= j < prev.len() && is_slot(#[trigger] prev[j], b.area@, addr);
        assert(prev[j].area == b.area@);
    }
}

} // verus!
