use calamine::{open_workbook_from_rs, Reader, Xlsx};
use modbus_workbench::number::Number;
use modbus_workbench::registry::{free_id, usable_rows, BatchInput};
use modbus_workbench::server::respond_for;
use modbus_workbench::sheet::{build_workbook, export_file_name, export_value_of, sim_reg_export};
use modbus_workbench::simreg::{
    area_label, default_reg_samples, gen_id, id_from_hash, ms_or_zero, now_ms, RegInput,
};
use modbus_workbench::simulator::Simulator;
use modbus_workbench::slave_control::SlaveModes;
use modbus_workbench::state::{new_sim_unit, target_of, SimUnits};
use modbus_workbench::vary::{vary_round, wave_requests};
use rust_xlsxwriter::{Color, DocProperties, ExcelDateTime, Format, Workbook};
use std::collections::{HashMap, HashSet};
use std::io::Cursor;

fn num(v: f64) -> Number {
    Number { bits: v.to_bits() }
}

fn input(area: &str, addr: u16, name: &str, vary: &str, value: f64) -> RegInput {
    RegInput {
        area: area.to_string(),
        addr,
        name: name.to_string(),
        dtype: "u16".to_string(),
        access: "rw".to_string(),
        vary: vary.to_string(),
        value: num(value),
    }
}

#[test]
fn ids_and_times() {
    let id = gen_id();
    assert_eq!(id.len(), 16);
    assert!(id.chars().all(|c| c.is_ascii_digit() || ('a'..='f').contains(&c)));
    assert_eq!(id_from_hash(0), "0000000000000000");
    assert_eq!(id_from_hash(0xDEAD_BEEF), "00000000deadbeef");
    assert!(now_ms() > 1_600_000_000_000);
    assert_eq!(ms_or_zero(None), 0);
    assert_eq!(ms_or_zero(Some(5)), 5);
    assert_eq!(ms_or_zero(Some(u64::MAX as u128 + 3)), 2);
}

#[test]
fn sample_registers() {
    let samples = default_reg_samples();
    let want = [
        ("holding", 0, "电压", "u16", "rw", "sine", 220.0),
        ("holding", 1, "电流", "u16", "rw", "increment", 10.0),
        ("holding", 2, "功率", "i16", "rw", "off", 0.0),
        ("input", 0, "温度", "i16", "ro", "off", 25.0),
        ("input", 1, "湿度", "u16", "ro", "off", 55.0),
        ("coil", 0, "主继电器", "bit", "rw", "off", 0.0),
        ("coil", 1, "备用继电器", "bit", "rw", "off", 0.0),
        ("discrete", 0, "运行状态", "bit", "ro", "off", 1.0),
    ];
    assert_eq!(samples.len(), want.len());
    for (i, (s, w)) in samples.iter().zip(want).enumerate() {
        let d = &s.def;
        assert_eq!(d.id, format!("seed_{}", i + 1));
        assert_eq!((d.area.as_str(), d.addr, d.name.as_str()), (w.0, w.1, w.2));
        assert_eq!((d.dtype.as_str(), d.access.as_str(), d.vary.as_str()), (w.3, w.4, w.5));
        assert_eq!(d.created_at_ms, 0);
        assert_eq!(f64::from_bits(s.value.bits), w.6);
    }
    let (unit, image) = new_sim_unit(9);
    assert_eq!(unit.unit_id, 9);
    assert_eq!(unit.regs.len(), 8);
    assert_eq!(image.holding_registers, HashMap::from([(0, 220), (1, 10), (2, 0)]));
    assert_eq!(image.input_registers, HashMap::from([(0, 25), (1, 55)]));
    assert_eq!(image.coils, HashMap::from([(0, false), (1, false)]));
    assert_eq!(image.discrete_inputs, HashMap::from([(0, true)]));
}

#[test]
fn area_labels() {
    assert_eq!(area_label("holding"), "保持寄存器");
    assert_eq!(area_label("input"), "输入寄存器");
    assert_eq!(area_label("coil"), "线圈");
    assert_eq!(area_label("discrete"), "离散输入");
    assert_eq!(area_label("Holding"), "未知区域");
}

#[test]
fn units_come_and_go() {
    let mut u = SimUnits::new();
    assert_eq!(u.unit_list(), vec![(1, 8)]);
    assert_eq!(u.unit_add(0), Err("Unit ID 须在 1 ~ 247".to_string()));
    assert_eq!(u.unit_add(248), Err("Unit ID 须在 1 ~ 247".to_string()));
    assert_eq!(u.unit_add(1), Err("Unit ID 1 已存在".to_string()));
    assert_eq!(u.unit_remove(1), Err("至少保留一个 Unit ID".to_string()));
    assert_eq!(u.unit_remove(5), Err("至少保留一个 Unit ID".to_string()));
    assert_eq!(u.unit_add(247), Ok(()));
    assert_eq!(u.unit_add(3), Ok(()));
    assert_eq!(u.unit_list(), vec![(1, 8), (247, 8), (3, 8)]);
    assert_eq!(u.images.len(), 3);
    assert_eq!(u.unit_remove(5), Err("Unit ID 5 不存在".to_string()));
    assert_eq!(u.unit_remove(247), Ok(()));
    assert_eq!(u.unit_list(), vec![(1, 8), (3, 8)]);
    assert!(!u.images.contains_key(&247));
    assert_eq!(target_of(None), 1);
    assert_eq!(target_of(Some(9)), 9);
}

#[test]
fn values_of_a_unit() {
    let mut u = SimUnits::new();
    u.unit_add(2).unwrap();
    u.sim_set_register(5, 55, Some(2)).unwrap();
    u.sim_set_input(6, 66, Some(2)).unwrap();
    u.sim_set_coil(7, true, Some(2)).unwrap();
    u.sim_set_discrete(8, true, Some(2)).unwrap();
    let s = u.sim_snapshot(Some(2)).unwrap();
    assert_eq!(s.holding_registers.get(&5), Some(&55));
    assert_eq!(s.input_registers.get(&6), Some(&66));
    assert_eq!(s.coils.get(&7), Some(&true));
    assert_eq!(s.discrete_inputs.get(&8), Some(&true));
    assert_eq!(u.sim_snapshot(None).unwrap().holding_registers.get(&5), None);
    let missing = Err("Unit ID 9 未配置".to_string());
    assert_eq!(u.sim_set_register(0, 0, Some(9)), missing);
    assert_eq!(u.sim_set_input(0, 0, Some(9)), missing);
    assert_eq!(u.sim_set_coil(0, true, Some(9)), missing);
    assert_eq!(u.sim_set_discrete(0, true, Some(9)), missing);
    assert_eq!(u.sim_reset(Some(9)), missing);
    assert_eq!(u.sim_snapshot(Some(9)).err(), Some("Unit ID 9 未配置".to_string()));
    u.sim_reset(Some(2)).unwrap();
    assert!(u.sim_snapshot(Some(2)).unwrap().holding_registers.is_empty());
    assert_eq!(u.unit_list(), vec![(1, 8), (2, 8)]);
}

#[test]
fn the_editor_sees_what_a_master_writes() {
    let mut u = SimUnits::new();
    let a = respond_for(&mut u.images, 1, &[0x06, 0, 2, 0x12, 0x34]).unwrap();
    assert_eq!(a.wrote, Some(1));
    let list = u.unit_regs(1).unwrap();
    assert_eq!(list.snapshot.holding_registers.get(&2), Some(&0x1234));
    assert_eq!(list.defs.len(), 8);
    assert_eq!(u.unit_regs(7).err(), Some("Unit ID 7 未配置".to_string()));
}

#[test]
fn registers_are_added_changed_and_removed() {
    let mut u = SimUnits::new();
    let d = u.sim_reg_add(&input("holding", 10, "Flow", "off", 7.6), None).unwrap();
    assert_eq!((d.area.as_str(), d.addr, d.name.as_str()), ("holding", 10, "Flow"));
    assert_eq!(d.id.len(), 16);
    assert!(d.created_at_ms > 0);
    assert_eq!(u.sim_snapshot(None).unwrap().holding_registers.get(&10), Some(&8));
    assert_eq!(
        u.sim_reg_add(&input("holding", 10, "Again", "off", 1.0), None).err(),
        Some(
            "保持寄存器 0x000A 已存在。如需修改该地址的寄存器，请使用「编辑」，或在弹出提示中选择「替换」用新配置覆盖。"
                .to_string()
        )
    );
    assert_eq!(
        u.sim_reg_update(&d.id, &input("holding", 0, "Flow", "off", 1.0), None),
        Err("保持寄存器 0x0000 已被其他寄存器占用，请换个地址".to_string())
    );
    assert_eq!(
        u.sim_reg_update("nobody", &input("holding", 99, "Flow", "off", 1.0), None),
        Err("寄存器不存在".to_string())
    );
    u.sim_reg_update(&d.id, &input("input", 10, "Level", "random", 5.0), None).unwrap();
    let list = u.unit_regs(1).unwrap();
    let e = &list.defs[8];
    assert_eq!((e.area.as_str(), e.addr, e.name.as_str(), e.vary.as_str()), ("input", 10, "Level", "random"));
    assert_eq!((e.id.as_str(), e.created_at_ms), (d.id.as_str(), d.created_at_ms));
    assert_eq!(list.snapshot.holding_registers.get(&10), None);
    assert_eq!(list.snapshot.input_registers.get(&10), Some(&5));
    u.sim_reg_update(&d.id, &input("input", 10, "Level", "random", 6.0), None).unwrap();
    assert_eq!(u.sim_snapshot(None).unwrap().input_registers.get(&10), Some(&6));
    u.sim_reg_delete(&d.id, None).unwrap();
    assert_eq!(u.sim_reg_delete(&d.id, None), Err("寄存器不存在".to_string()));
    assert_eq!(u.unit_list(), vec![(1, 8)]);
    assert_eq!(u.sim_snapshot(None).unwrap().input_registers.get(&10), None);
    let missing = Some("Unit ID 9 未配置".to_string());
    assert_eq!(u.sim_reg_add(&input("coil", 9, "x", "off", 0.0), Some(9)).err(), missing);
    assert_eq!(u.sim_reg_update("a", &input("coil", 9, "x", "off", 0.0), Some(9)).err(), missing);
    assert_eq!(u.sim_reg_delete("a", Some(9)).err(), missing);
    assert_eq!(u.sim_reg_seed(Some(9)).err(), missing);
}

#[test]
fn seeding_forgets_everything_else() {
    let mut u = SimUnits::new();
    u.sim_reg_add(&input("coil", 40, "x", "off", 1.0), None).unwrap();
    u.sim_set_register(77, 7, None).unwrap();
    u.sim_reg_seed(None).unwrap();
    let list = u.unit_regs(1).unwrap();
    assert_eq!(list.defs.len(), 8);
    assert_eq!(list.snapshot.holding_registers, HashMap::from([(0, 220), (1, 10), (2, 0)]));
    assert_eq!(list.snapshot.coils, HashMap::from([(0, false), (1, false)]));
}

fn batch(area: &str, start_addr: u16, count: u16, prefix: &str) -> BatchInput {
    BatchInput {
        area: area.to_string(),
        start_addr,
        count,
        name_prefix: prefix.to_string(),
        dtype: "u16".to_string(),
        access: "rw".to_string(),
        vary: "off".to_string(),
        value: num(3.0),
    }
}

#[test]
fn batches_pass_over_taken_slots() {
    let mut u = SimUnits::new();
    assert_eq!(u.sim_reg_add_batch(&batch("holding", 1, 4, ""), None), Ok(2));
    let list = u.unit_regs(1).unwrap();
    let names: Vec<&str> = list.defs[8..].iter().map(|d| d.name.as_str()).collect();
    assert_eq!(names, vec!["holding_3", "holding_4"]);
    assert_eq!(list.snapshot.holding_registers.get(&1), Some(&10));
    assert_eq!(list.snapshot.holding_registers.get(&3), Some(&3));
    assert_eq!(u.sim_reg_add_batch(&batch("input", 65534, 5, "T"), None), Ok(2));
    let list = u.unit_regs(1).unwrap();
    let names: Vec<&str> = list.defs[10..].iter().map(|d| d.name.as_str()).collect();
    assert_eq!(names, vec!["T65534", "T65535"]);
    assert_eq!(u.sim_reg_add_batch(&batch("coil", 9, 0, ""), None), Ok(0));
    assert_eq!(
        u.sim_reg_add_batch(&batch("coil", 9, 1, ""), Some(3)),
        Err("Unit ID 3 未配置".to_string())
    );
}

fn found(u: &SimUnits, keyword: &str) -> Vec<String> {
    let list = u.sim_reg_list(Some(keyword), None).unwrap();
    list.defs.iter().map(|d| d.name.clone()).collect()
}

#[test]
fn registers_are_searched() {
    let mut u = SimUnits::new();
    u.sim_reg_add(&input("holding", 0x1ABC, "Ölstand PUMP", "off", 1.0), None).unwrap();
    assert_eq!(u.sim_reg_list(None, None).unwrap().defs.len(), 9);
    assert_eq!(found(&u, "  ").len(), 9);
    assert_eq!(found(&u, " pump "), vec!["Ölstand PUMP"]);
    assert_eq!(found(&u, "PUMP"), vec!["Ölstand PUMP"]);
    assert_eq!(found(&u, "ÖL"), vec!["Ölstand PUMP"]);
    assert_eq!(found(&u, "1ABC"), vec!["Ölstand PUMP"]);
    assert_eq!(found(&u, "6844"), vec!["Ölstand PUMP"]);
    assert_eq!(found(&u, "线圈"), vec!["主继电器", "备用继电器"]);
    assert_eq!(found(&u, "DISCRETE"), vec!["运行状态"]);
    assert_eq!(found(&u, "nothing"), Vec::<String>::new());
    assert_eq!(u.sim_reg_list(None, Some(4)).err(), Some("Unit ID 4 未配置".to_string()));
}

fn row(cells: &[&str]) -> Vec<String> {
    cells.iter().map(|s| s.to_string()).collect()
}

#[test]
fn sheets_are_imported() {
    let rows = usable_rows(vec![
        row(&["holding", "1", "", "header", "", "", ""]),
        row(&[" HOLDING ", " 100 ", "0x0064", "A", "u32", "ro", "sine", "7"]),
        row(&["holding", "100", "", "B", "i16", "rw", "off", "8"]),
        row(&["holding", "0", "", "C", "i16", "rw", "off", "9"]),
        row(&["holding", "x", "", "D", "i16", "rw", "off", "9"]),
        row(&["holding", "65536", "", "D", "i16", "rw", "off", "9"]),
        row(&["nowhere", "5", "", "D", "i16", "rw", "off", "9"]),
        row(&["coil", "5", "", "E", "bit"]),
        row(&["coil", "+5", "", "F", "bit", "rw", "off"]),
    ]);
    assert_eq!(rows.len(), 7);
    let values: Vec<Number> = rows
        .iter()
        .map(|c| num(c.get(7).and_then(|s| s.parse().ok()).unwrap_or(0.0)))
        .collect();
    let mut u = SimUnits::new();
    assert_eq!(u.sim_reg_import(&rows, &values, false, None), Ok((2, 5)));
    let list = u.unit_regs(1).unwrap();
    assert_eq!(list.defs.len(), 10);
    let a = &list.defs[8];
    assert_eq!((a.area.as_str(), a.addr, a.name.as_str()), ("holding", 100, "A"));
    assert_eq!((a.dtype.as_str(), a.access.as_str(), a.vary.as_str()), ("u32", "ro", "sine"));
    assert_eq!(a.id.len(), 16);
    let f = &list.defs[9];
    assert_eq!((f.area.as_str(), f.addr, f.name.as_str()), ("coil", 5, "F"));
    assert_eq!(list.snapshot.holding_registers.get(&100), Some(&7));
    assert_eq!(list.snapshot.holding_registers.get(&0), Some(&220));

    let mut u = SimUnits::new();
    assert_eq!(u.sim_reg_import(&rows, &values, true, None), Ok((4, 3)));
    let list = u.unit_regs(1).unwrap();
    assert_eq!(list.defs[0].name, "C");
    assert_eq!(list.defs[0].id, "seed_1");
    assert_eq!(list.defs[8].name, "B");
    assert_eq!(list.snapshot.holding_registers.get(&100), Some(&8));
    assert_eq!(list.snapshot.holding_registers.get(&0), Some(&9));
    assert_eq!(
        u.sim_reg_import(&vec![], &vec![], true, Some(8)),
        Err("Unit ID 8 未配置".to_string())
    );
    assert_eq!(usable_rows(vec![]).len(), 0);
}

#[test]
fn an_exported_workbook_is_imported_again() {
    let mut u = SimUnits::new();
    u.unit_add(2).unwrap();
    u.sim_reg_add(&input("input", 0xABCD, "Flow", "random", 4321.0), None).unwrap();
    u.sim_reg_add(&input("discrete", 9, "", "off", 0.0), None).unwrap();
    u.sim_set_coil(1, true, None).unwrap();
    u.sim_set_register(0, 5, None).unwrap();
    assert_eq!(export_file_name(17), "modbus_unit17_regs.xlsx");
    let mut wb = sim_reg_export(&u, None).unwrap();
    let bytes = wb.save_to_buffer().unwrap();
    let mut xl: Xlsx<_> = open_workbook_from_rs(Cursor::new(bytes)).unwrap();
    assert_eq!(xl.sheet_names(), vec!["寄存器列表".to_string()]);
    let sheet = xl.worksheet_range_at(0).unwrap().unwrap();
    let rows: Vec<Vec<String>> =
        sheet.rows().map(|r| r.iter().map(|c| c.to_string()).collect()).collect();
    assert_eq!(
        rows[0],
        row(&["区域", "地址(DEC)", "地址(HEX)", "名称", "数据类型", "访问", "自动变化", "当前值"])
    );
    assert_eq!(rows[1], row(&["holding", "0", "0x0000", "电压", "u16", "rw", "sine", "5"]));
    assert_eq!(rows[7], row(&["coil", "1", "0x0001", "备用继电器", "bit", "rw", "off", "1"]));
    assert_eq!(rows[9], row(&["input", "43981", "0xABCD", "Flow", "u16", "rw", "random", "4321"]));
    assert_eq!(rows[10], row(&["discrete", "9", "0x0009", "", "u16", "rw", "off", "0"]));

    let rows = usable_rows(rows);
    let values: Vec<Number> = rows.iter().map(|c| num(c[7].parse().unwrap())).collect();
    assert_eq!(u.sim_reg_import(&rows, &values, true, Some(2)), Ok((10, 0)));
    let one = u.unit_regs(1).unwrap();
    let two = u.unit_regs(2).unwrap();
    assert_eq!(one.snapshot.holding_registers, two.snapshot.holding_registers);
    assert_eq!(one.snapshot.input_registers, two.snapshot.input_registers);
    assert_eq!(one.snapshot.coils, two.snapshot.coils);
    assert_eq!(one.snapshot.discrete_inputs, two.snapshot.discrete_inputs);
    for (a, b) in one.defs.iter().zip(&two.defs) {
        assert_eq!((&a.area, a.addr, &a.name), (&b.area, b.addr, &b.name));
        assert_eq!((&a.dtype, &a.access, &a.vary), (&b.dtype, &b.access, &b.vary));
    }
    assert_eq!(sim_reg_export(&u, Some(6)).err(), Some("Unit ID 6 未配置".to_string()));
}

#[test]
fn texts_too_long_for_a_cell_are_left_out() {
    let mut u = SimUnits::new();
    let long = "x".repeat(32768);
    u.sim_reg_add(&input("coil", 30, &long, "off", 1.0), None).unwrap();
    let list = u.unit_regs(1).unwrap();
    let mut wb = build_workbook(&list.defs, &list.snapshot);
    let bytes = wb.save_to_buffer().unwrap();
    let mut xl: Xlsx<_> = open_workbook_from_rs(Cursor::new(bytes)).unwrap();
    let sheet = xl.worksheet_range_at(0).unwrap().unwrap();
    assert_eq!(sheet.get_value((9, 3)).map(|c| c.to_string()), Some(String::new()));
    assert_eq!(sheet.get_value((9, 4)).map(|c| c.to_string()), Some("u16".to_string()));
    assert_eq!(export_value_of(&list.snapshot, "coil", 30), 1);
    assert_eq!(export_value_of(&list.snapshot, "holding", 0), 220);
    assert_eq!(export_value_of(&list.snapshot, "holding", 99), 0);
    assert_eq!(export_value_of(&list.snapshot, "input", 1), 55);
    assert_eq!(export_value_of(&list.snapshot, "discrete", 0), 1);
}

fn wave(tick: u64, addr: u16) -> u16 {
    let phase = (tick as f64 / 20.0) + (addr as f64 * 0.3);
    ((phase.sin() * 0.5 + 0.5) * 65535.0) as u16
}

#[test]
fn a_round_varies_every_unit() {
    let mut u = SimUnits::new();
    u.unit_add(2).unwrap();
    u.unit_add(3).unwrap();
    let id = u.unit_regs(2).unwrap().defs[0].id.clone();
    u.sim_reg_delete(&id, Some(2)).unwrap();
    let id = u.unit_regs(2).unwrap().defs[0].id.clone();
    u.sim_reg_delete(&id, Some(2)).unwrap();
    let mut sim = Simulator { tick: 40 };
    let mut modes = SlaveModes::new();
    let asked = wave_requests(&u, sim.tick);
    assert_eq!(asked, vec![(41, vec![0]), (41, vec![]), (42, vec![0])]);
    let waves: Vec<HashMap<u16, u16>> = asked
        .iter()
        .map(|(tick, addrs)| addrs.iter().map(|a| (*a, wave(*tick, *a))).collect())
        .collect();
    assert!(vary_round(&mut u, &modes, &mut sim, &waves).is_empty());
    assert_eq!(sim.tick, 40);
    modes.started("udp");
    let shown = vary_round(&mut u, &modes, &mut sim, &waves);
    assert_eq!(sim.tick, 42);
    assert_eq!(shown.iter().map(|s| s.0).collect::<Vec<u8>>(), vec![1, 3]);
    assert_eq!(shown[0].1.holding_registers, HashMap::from([(0, wave(41, 0)), (1, 11), (2, 0)]));
    assert_eq!(shown[1].1.holding_registers, HashMap::from([(0, wave(42, 0)), (1, 11), (2, 0)]));
    assert_eq!(u.sim_snapshot(Some(2)).unwrap().holding_registers, HashMap::from([(2, 0)]));
    assert_eq!(u.sim_snapshot(Some(3)).unwrap().holding_registers, shown[1].1.holding_registers);
}

#[test]
fn a_round_shows_the_units_that_it_changed() {
    let mut u = SimUnits::new();
    u.unit_add(2).unwrap();
    for unit in [1, 2] {
        for def in u.unit_regs(unit).unwrap().defs {
            u.sim_reg_delete(&def.id, Some(unit)).unwrap();
        }
    }
    u.sim_reg_add(&input("holding", 0, "a", "OFF", 7.0), Some(1)).unwrap();
    u.sim_reg_add(&input("input", 3, "b", "later", 8.0), Some(1)).unwrap();
    u.sim_reg_add(&input("coil", 3, "c", "increment", 1.0), Some(1)).unwrap();
    u.sim_reg_add(&input("input", 5, "d", "sine", 1234.0), Some(2)).unwrap();
    let mut modes = SlaveModes::new();
    modes.started("tcp");
    let mut sim = Simulator { tick: 0 };
    let still = vec![HashMap::new(), HashMap::from([(5, 1234)])];
    assert!(vary_round(&mut u, &modes, &mut sim, &still).is_empty());
    assert_eq!(sim.tick, 2);
    assert_eq!(u.sim_snapshot(Some(1)).unwrap().holding_registers, HashMap::from([(0, 7)]));
    assert_eq!(u.sim_snapshot(Some(1)).unwrap().input_registers, HashMap::from([(3, 8)]));
    assert_eq!(u.sim_snapshot(Some(1)).unwrap().coils, HashMap::from([(3, true)]));
    let moved = vec![HashMap::new(), HashMap::from([(5, 1235)])];
    let shown = vary_round(&mut u, &modes, &mut sim, &moved);
    assert_eq!(sim.tick, 4);
    assert_eq!(shown.len(), 1);
    assert_eq!(shown[0].0, 2);
    assert_eq!(shown[0].1.input_registers, HashMap::from([(5, 1235)]));
}

#[test]
fn ids_that_are_free() {
    let mut u = SimUnits::new();
    let mut defs = u.unit_regs(1).unwrap().defs;
    assert_eq!(free_id(&defs, 0xAB), "00000000000000ab");
    defs[2].id = "ffffffffffffffff".to_string();
    defs[4].id = "0000000000000000".to_string();
    defs[5].id = "0000000000000002".to_string();
    assert_eq!(free_id(&defs, u64::MAX), "0000000000000001");
    assert_eq!(free_id(&defs, 2), "0000000000000003");
    assert_eq!(free_id(&defs, 1), "0000000000000001");

    assert_eq!(u.sim_reg_add_batch(&batch("holding", 100, 400, ""), None), Ok(400));
    u.sim_reg_add(&input("coil", 77, "x", "off", 1.0), None).unwrap();
    let rows: Vec<Vec<String>> =
        (0..300).map(|i| row(&["input", &format!("{}", 500 + i), "", "n", "", "", "", ""])).collect();
    let values = vec![num(1.0); 300];
    assert_eq!(u.sim_reg_import(&rows, &values, false, None), Ok((300, 0)));
    let defs = u.unit_regs(1).unwrap().defs;
    assert_eq!(defs.len(), 8 + 400 + 1 + 300);
    assert_eq!(defs.iter().map(|d| d.id.clone()).collect::<HashSet<_>>().len(), defs.len());
    for d in &defs[8..] {
        assert_eq!(d.id.len(), 16);
    }
}

#[test]
fn the_look_of_an_exported_workbook() {
    let u = SimUnits::new();
    let list = u.unit_regs(1).unwrap();
    let stamp = DocProperties::new()
        .set_creation_datetime(&ExcelDateTime::from_ymd(2024, 1, 2).unwrap());
    let mut made = build_workbook(&list.defs, &list.snapshot);
    made.set_properties(&stamp);

    let mut wanted = Workbook::new();
    wanted.set_properties(&stamp);
    let ws = wanted.add_worksheet();
    ws.set_name("寄存器列表").unwrap();
    let hdr = Format::new()
        .set_bold()
        .set_background_color(Color::RGB(0x1d1d1f))
        .set_font_color(Color::White);
    let headings =
        ["区域", "地址(DEC)", "地址(HEX)", "名称", "数据类型", "访问", "自动变化", "当前值"];
    for (c, (h, w)) in headings.iter().zip([14, 10, 10, 20, 10, 8, 12, 12]).enumerate() {
        ws.write_with_format(0, c as u16, *h, &hdr).unwrap();
        ws.set_column_width(c as u16, w).unwrap();
    }
    for (i, d) in list.defs.iter().enumerate() {
        let row = i as u32 + 1;
        ws.write(row, 0, &d.area).unwrap();
        ws.write(row, 1, d.addr as i32).unwrap();
        ws.write(row, 2, format!("0x{:04X}", d.addr)).unwrap();
        ws.write(row, 3, &d.name).unwrap();
        ws.write(row, 4, &d.dtype).unwrap();
        ws.write(row, 5, &d.access).unwrap();
        ws.write(row, 6, &d.vary).unwrap();
        ws.write(row, 7, export_value_of(&list.snapshot, &d.area, d.addr) as f64).unwrap();
    }
    assert_eq!(made.save_to_buffer().unwrap(), wanted.save_to_buffer().unwrap());
}

#[test]
fn small_and_capital_letters_of_areas_and_names() {
    let mut u = SimUnits::new();
    let rows = vec![
        row(&[" Coil ", "77", "", "Fan", "", "", "", ""]),
        row(&["HOLDING", "78", "", "fan 2", "", "", "", ""]),
        row(&["Holdings", "79", "", "", "", "", "", ""]),
    ];
    assert_eq!(u.sim_reg_import(&rows, &vec![num(1.0); 3], false, None), Ok((2, 1)));
    let list = u.sim_reg_list(Some("FAN"), None).unwrap();
    let found: Vec<(&str, u16)> = list.defs.iter().map(|d| (d.area.as_str(), d.addr)).collect();
    assert_eq!(found, vec![("coil", 77), ("holding", 78)]);
    assert_eq!(u.sim_reg_list(None, None).unwrap().clone().defs.len(), 10);
}
