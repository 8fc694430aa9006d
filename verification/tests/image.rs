use modbus_workbench::error::exception;
use modbus_workbench::number::Number;
use modbus_workbench::server::{snapshot, snapshot_from, ImageSnapshot};
use modbus_workbench::simulator::{Simulator, VaryMode};
use modbus_workbench::slave::DataImage;
use std::collections::HashMap;

fn num(v: f64) -> Number {
    Number { bits: v.to_bits() }
}

fn clamp(v: f64) -> u16 {
    if v.is_nan() || v <= 0.0 {
        0
    } else if v >= 65535.0 {
        65535
    } else {
        v.round() as u16
    }
}

#[test]
fn read_holding_implicit_zero_and_oob() {
    let mut img = DataImage::new(0, 0, 0, 1000);
    let resp = img.handle_request(&[0x03, 0x00, 0x00, 0x00, 0x02]).unwrap();
    assert_eq!(resp[0], 0x03);
    assert_eq!(resp[1], 4);
    assert_eq!(&resp[2..], &[0xFF, 0xFF, 0xFF, 0xFF]);
    assert_eq!(
        img.handle_request(&[0x03, 0xFF, 0xFF, 0x00, 0x02]),
        Err(exception::ILLEGAL_DATA_ADDRESS)
    );
}

#[test]
fn full_write_then_read_roundtrip() {
    let mut img = DataImage::new(16, 16, 8, 16);
    let r = img.handle_request(&[0x06, 0x00, 0x05, 0x12, 0x34]).unwrap();
    assert_eq!(r, vec![0x06, 0x00, 0x05, 0x12, 0x34]);
    let got = img.handle_request(&[0x03, 0x00, 0x05, 0x00, 0x01]).unwrap();
    assert_eq!(got, vec![0x03, 0x02, 0x12, 0x34]);

    let r = img
        .handle_request(&[
            0x10, 0x00, 0x00, 0x00, 0x03, 0x06, 0x00, 0x0A, 0x00, 0x14, 0x00, 0x1E,
        ])
        .unwrap();
    assert_eq!(r, vec![0x10, 0x00, 0x00, 0x00, 0x03]);
    let got = img.handle_request(&[0x03, 0x00, 0x00, 0x00, 0x03]).unwrap();
    assert_eq!(got, vec![0x03, 0x06, 0x00, 0x0A, 0x00, 0x14, 0x00, 0x1E]);

    let r = img.handle_request(&[0x05, 0x00, 0x03, 0xFF, 0x00]).unwrap();
    assert_eq!(r, vec![0x05, 0x00, 0x03, 0xFF, 0x00]);
    let got = img.handle_request(&[0x01, 0x00, 0x00, 0x00, 0x08]).unwrap();
    assert_eq!(got[0], 0x01);
    assert_eq!(got[2] & 0x08, 0x08);

    let r = img.handle_request(&[0x0F, 0x00, 0x00, 0x00, 0x04, 0x01, 0x0D]).unwrap();
    assert_eq!(r, vec![0x0F, 0x00, 0x00, 0x00, 0x04]);

    assert_eq!(
        img.handle_request(&[0x07, 0x00, 0x00, 0x00, 0x01]),
        Err(exception::ILLEGAL_FUNCTION)
    );
}

#[test]
fn coils_written_together_read_back() {
    let mut img = DataImage::default();
    img.handle_request(&[0x0F, 0x00, 0x10, 0x00, 0x0A, 0x02, 0xCD, 0x01]).unwrap();
    let got = img.handle_request(&[0x01, 0x00, 0x10, 0x00, 0x0A]).unwrap();
    assert_eq!(got, vec![0x01, 0x02, 0xCD, 0x01]);
    let got = img.handle_request(&[0x01, 0x00, 0x0F, 0x00, 0x02]).unwrap();
    assert_eq!(got, vec![0x01, 0x01, 0x02]);
    assert_eq!(img.coils.len(), 10);
    assert!(img.holding_registers.is_empty());
}

#[test]
fn requests_that_are_refused() {
    let value = Err(exception::ILLEGAL_DATA_VALUE);
    let address = Err(exception::ILLEGAL_DATA_ADDRESS);
    let mut img = DataImage::default();
    assert_eq!(img.handle_request(&[]), Err(exception::ILLEGAL_FUNCTION));
    assert_eq!(img.handle_request(&[3, 0, 0, 0]), value);
    assert_eq!(img.handle_request(&[3, 0, 0, 0, 0]), value);
    assert_eq!(img.handle_request(&[3, 0, 0, 0, 126]), value);
    assert_eq!(img.handle_request(&[4, 0xFF, 0xFF, 0, 2]), address);
    assert!(img.handle_request(&[4, 0xFF, 0xFF, 0, 1]).is_ok());
    assert_eq!(img.handle_request(&[3, 0, 0, 0, 125]).unwrap().len(), 252);
    assert_eq!(img.handle_request(&[1, 0, 0, 0, 0]), value);
    assert_eq!(img.handle_request(&[1, 0, 0, 0x07, 0xD1]), value);
    assert_eq!(img.handle_request(&[2, 0, 0, 0x07, 0xD0]).unwrap().len(), 252);
    assert_eq!(img.handle_request(&[2, 0xFF, 0xF0, 0, 17]), address);
    assert_eq!(img.handle_request(&[5, 0, 0, 0x12, 0x34]), value);
    assert_eq!(img.handle_request(&[5, 0, 0, 0xFF]), value);
    assert_eq!(img.handle_request(&[6, 0, 0, 1]), value);
    assert_eq!(img.handle_request(&[15, 0, 0, 0, 1]), value);
    assert_eq!(img.handle_request(&[15, 0, 0, 0, 0, 0]), value);
    assert_eq!(img.handle_request(&[15, 0, 0, 0x07, 0xB1, 247]), value);
    assert_eq!(img.handle_request(&[15, 0xFF, 0xFF, 0, 2, 1, 0]), address);
    assert_eq!(img.handle_request(&[15, 0, 0, 0, 9, 1, 0]), value);
    assert_eq!(img.handle_request(&[15, 0, 0, 0, 9, 2, 0]), value);
    assert_eq!(img.handle_request(&[16, 0, 0, 0, 1]), value);
    assert_eq!(img.handle_request(&[16, 0, 0, 0, 0, 0]), value);
    assert_eq!(img.handle_request(&[16, 0, 0, 0, 124, 248]), value);
    assert_eq!(img.handle_request(&[16, 0xFF, 0xFF, 0, 2, 4, 0, 0, 0, 0]), address);
    assert_eq!(img.handle_request(&[16, 0, 0, 0, 1, 3, 0, 0, 0]), value);
    assert_eq!(img.handle_request(&[16, 0, 0, 0, 1, 2, 0]), value);
    assert!(img.coils.is_empty());
    assert!(img.holding_registers.is_empty());
}

#[test]
fn single_writes_echo_the_whole_request() {
    let mut img = DataImage::default();
    assert_eq!(img.handle_request(&[6, 0, 1, 2, 3, 9, 9]), Ok(vec![6, 0, 1, 2, 3, 9, 9]));
    assert_eq!(img.handle_request(&[5, 0, 1, 0, 0, 9]), Ok(vec![5, 0, 1, 0, 0, 9]));
    assert_eq!(img.holding_registers.get(&1), Some(&0x0203));
    assert_eq!(img.coils.get(&1), Some(&false));
}

#[test]
fn write_slot_and_clear_slot() {
    let mut img = DataImage::default();
    img.write_slot("holding", 0x0100, num(-5.0));
    img.write_slot("holding", 0x0101, num(70000.0));
    img.write_slot("coil", 3, num(1.0));
    assert_eq!(img.holding_registers.get(&0x0100), Some(&0));
    assert_eq!(img.holding_registers.get(&0x0101), Some(&65535));
    assert_eq!(img.coils.get(&3), Some(&true));
    img.clear_slot("holding", 0x0100);
    assert_eq!(img.holding_registers.get(&0x0100), None);
    img.clear_slot("input", 99);
}

#[test]
fn slots_of_every_area() {
    let mut img = DataImage::default();
    img.write_slot("input", 1, num(2.5));
    img.write_slot("discrete", 2, num(0.0));
    img.write_slot("coil", 4, num(f64::NAN));
    img.write_slot("other", 5, num(1.0));
    assert_eq!(img.input_registers.get(&1), Some(&3));
    assert_eq!(img.discrete_inputs.get(&2), Some(&false));
    assert_eq!(img.coils.get(&4), Some(&true));
    assert!(img.holding_registers.is_empty());
    img.clear_slot("discrete", 2);
    img.clear_slot("coil", 4);
    img.clear_slot("input", 1);
    img.clear_slot("other", 5);
    assert!(img.discrete_inputs.is_empty() && img.coils.is_empty() && img.input_registers.is_empty());
}

#[test]
fn numbers_as_registers_and_bits() {
    let mut values = vec![
        0.0,
        -0.0,
        0.25,
        0.5,
        0.49999999999999994,
        0.75,
        1.0,
        1.5,
        2.5,
        -1.0,
        -0.5,
        220.0,
        65534.4,
        65534.5,
        65534.49999999999,
        65535.0,
        65535.4,
        65536.0,
        1e9,
        1e300,
        f64::MAX,
        f64::MIN_POSITIVE,
        5e-324,
        f64::INFINITY,
        f64::NEG_INFINITY,
        f64::NAN,
        -f64::NAN,
        4503599627370496.0,
        9007199254740993.0,
    ];
    let mut x = 0.001;
    while x < 1e6 {
        values.push(x);
        values.push(-x);
        x *= 1.37;
    }
    for i in 0..200 {
        values.push(i as f64 + 0.5);
        values.push(i as f64 * 327.68);
    }
    for v in values {
        assert_eq!(num(v).clamp_u16(), clamp(v), "{v}");
        assert_eq!(num(v).is_nonzero(), v != 0.0, "{v}");
    }
}

#[test]
fn setters_take_the_low_bits_of_the_address() {
    let mut img = DataImage::default();
    img.set_holding(5, 7);
    img.set_input(65536 + 6, 8);
    img.set_coil(65535, true);
    img.set_discrete(131072, true);
    assert_eq!(img.holding_registers, HashMap::from([(5, 7)]));
    assert_eq!(img.input_registers, HashMap::from([(6, 8)]));
    assert_eq!(img.coils, HashMap::from([(65535, true)]));
    assert_eq!(img.discrete_inputs, HashMap::from([(0, true)]));
    let s = snapshot(&img);
    assert_eq!(s.holding_registers, img.holding_registers);
    assert_eq!(s.input_registers, img.input_registers);
    assert_eq!(s.coils, img.coils);
    assert_eq!(s.discrete_inputs, img.discrete_inputs);
    img.reset();
    assert!(img.holding_registers.is_empty() && img.input_registers.is_empty());
    assert!(img.coils.is_empty() && img.discrete_inputs.is_empty());
    assert_eq!(s.holding_registers.len(), 1);
    assert_eq!(snapshot_from(&img).coils, ImageSnapshot::default().coils);
}

#[test]
fn vary_changes_values_per_register() {
    let mut sim = Simulator::new();
    let mut img = DataImage::new(0, 0, 0, 4);
    img.holding_registers.insert(0, 0);
    img.holding_registers.insert(1, 100);
    img.input_registers.insert(0, 1000);
    let holding_varies = [(0, VaryMode::Increment), (1, VaryMode::Off)];
    let input_varies = [(0, VaryMode::Increment)];
    let still = HashMap::new();
    sim.step_on(&mut img, &holding_varies, &input_varies, &still);
    assert_eq!(img.holding_registers.get(&0), Some(&1));
    assert_eq!(img.holding_registers.get(&1), Some(&100));
    assert_eq!(img.input_registers.get(&0), Some(&1001));
    sim.step_on(&mut img, &holding_varies, &input_varies, &still);
    assert_eq!(img.holding_registers.get(&0), Some(&2));
    assert_eq!(img.holding_registers.get(&1), Some(&100));
    assert_eq!(img.input_registers.get(&0), Some(&1002));
}

#[test]
fn handles_read() {
    let mut img = DataImage::new(0, 0, 0, 10);
    let resp = img.handle_request(&[0x03, 0x00, 0x00, 0x00, 0x01]).unwrap();
    assert_eq!(resp[0], 0x03);
    assert_eq!(resp[1], 2);
}

fn scramble(x: u64) -> u64 {
    let a = x ^ (x << 13);
    let b = a ^ (a >> 7);
    b ^ (b << 17)
}

#[test]
fn vary_modes_in_one_step() {
    let mut sim = Simulator { tick: u64::MAX };
    let mut img = DataImage::default();
    img.holding_registers.insert(3, 65535);
    img.input_registers.insert(9, 77);
    let sine = HashMap::from([(1u16, 4321u16)]);
    sim.step_on(
        &mut img,
        &[(1, VaryMode::Sine), (3, VaryMode::Increment), (4, VaryMode::Off), (5, VaryMode::Increment)],
        &[(9, VaryMode::Random)],
        &sine,
    );
    assert_eq!(sim.tick, 0);
    assert_eq!(img.holding_registers, HashMap::from([(1, 4321), (3, 0), (5, 1)]));
    assert_eq!(img.input_registers.get(&9), Some(&(scramble(77) as u16)));
    sim.step_on(&mut img, &[], &[(9, VaryMode::Random), (9, VaryMode::Increment)], &sine);
    let first = scramble(77) as u16;
    let next = scramble(2654435761u64.wrapping_add(first as u64)) as u16;
    assert_eq!(img.input_registers.get(&9), Some(&next.wrapping_add(1)));
    assert_eq!(Simulator::default().tick, 0);
}

#[test]
fn vary_mode_names() {
    assert_eq!(VaryMode::parse("sine"), VaryMode::Sine);
    assert_eq!(VaryMode::parse("RANDOM"), VaryMode::Random);
    assert_eq!(VaryMode::parse("Increment"), VaryMode::Increment);
    assert_eq!(VaryMode::parse("off"), VaryMode::Off);
    assert_eq!(VaryMode::parse(""), VaryMode::Off);
    assert_eq!(VaryMode::parse(" sine"), VaryMode::Off);
}
