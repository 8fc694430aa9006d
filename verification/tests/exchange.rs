use modbus_workbench::client::{decode_holding, holding_request, write_registers_request};
use modbus_workbench::commands::decode_read;
use modbus_workbench::error::ModbusError;
use modbus_workbench::framing::{encode_rtu, parse_rtu};
use modbus_workbench::number::Number;
use modbus_workbench::registry::BatchInput;
use modbus_workbench::server::{
    new_shared_image, rtu_answer, tcp_answer, tcp_body_len, udp_answer, UnitImages,
};
use modbus_workbench::simulator::{Simulator, VaryMode};
use modbus_workbench::slave::DataImage;
use modbus_workbench::state::SimUnits;
use modbus_workbench::transport::rtu_response_of;
use modbus_workbench::transport::tcp::{TcpLink, TcpRead};
use modbus_workbench::transport::udp::{mbap_reply, rtu_reply, UdpLink};
use std::collections::{HashMap, HashSet};

fn units() -> UnitImages {
    let mut m = UnitImages::new();
    m.insert(1, new_shared_image());
    m.insert(9, new_shared_image());
    m
}

fn over_tcp(
    link: &mut TcpLink,
    units: &mut UnitImages,
    unit_id: u8,
    pdu: &[u8],
) -> Result<Vec<u8>, ModbusError> {
    let (tid, tx) = link.begin(unit_id, pdu);
    assert_eq!(tcp_body_len(&tx[..7]), Some(pdu.len()));
    let answer = tcp_answer(units, &tx[..7], &tx[7..]);
    for b in answer.bytes.chunks(3) {
        assert!(link.poll(&tx, tid).is_none());
        link.on_read(TcpRead::Data(b.to_vec())).unwrap();
    }
    let (rx, resp) = link.poll(&tx, tid).unwrap()?;
    assert_eq!(rx, answer.bytes);
    Ok(resp)
}

fn over_udp(
    link: &mut UdpLink,
    units: &mut UnitImages,
    unit_id: u8,
    pdu: &[u8],
) -> Result<Vec<u8>, ModbusError> {
    let (tid, tx) = link.begin(unit_id, pdu);
    let answer = udp_answer(units, &tx).unwrap();
    let (rx, resp) = mbap_reply(&answer.bytes, tid).unwrap()?;
    assert_eq!(rx, answer.bytes);
    Ok(resp)
}

#[test]
fn a_master_and_a_slave_over_every_framing() {
    let mut units = units();
    let mut tcp = TcpLink::new();
    let mut udp = UdpLink::new();
    let values = [7u16, 65535, 0x1234];
    let write = write_registers_request(0x0020, &values);
    let read = holding_request(0x0020, 3);
    assert_eq!(over_tcp(&mut tcp, &mut units, 9, &write).unwrap(), &write[..5]);
    let resp = over_udp(&mut udp, &mut units, 9, &read).unwrap();
    assert_eq!(decode_holding(&resp).unwrap(), values.to_vec());
    let resp = over_tcp(&mut tcp, &mut units, 9, &read).unwrap();
    assert_eq!(decode_read(&resp, 3, 3), values.to_vec());
    let answer = rtu_answer(&mut units, &encode_rtu(9, &read)).unwrap();
    let (rx, resp) = rtu_response_of(&answer.bytes).unwrap();
    assert_eq!(rx, answer.bytes);
    assert_eq!(decode_holding(&resp).unwrap(), values.to_vec());
    let (_, resp) = rtu_reply(&answer.bytes, 9).unwrap().unwrap();
    assert_eq!(decode_holding(&resp).unwrap(), values.to_vec());
    let resp = over_tcp(&mut tcp, &mut units, 1, &read).unwrap();
    assert_eq!(decode_read(&resp, 3, 3), vec![0xFFFF; 3]);
}

#[test]
fn a_master_reads_every_area_over_every_framing() {
    let mut units = units();
    let img = units.get_mut(&9).unwrap();
    for i in 0..3 {
        img.set_coil(4 + i, i != 1);
        img.set_discrete(4 + i, i == 1);
        img.set_holding(4 + i, 100 + i as u16);
        img.set_input(4 + i, 200 + i as u16);
    }
    let wanted = [
        (1u8, vec![1u16, 0, 1]),
        (2, vec![0, 1, 0]),
        (3, vec![100, 101, 102]),
        (4, vec![200, 201, 202]),
    ];
    let mut tcp = TcpLink::new();
    let mut udp = UdpLink::new();
    for (code, values) in wanted {
        let read = [code, 0, 4, 0, 3];
        let resp = over_tcp(&mut tcp, &mut units, 9, &read).unwrap();
        assert_eq!(decode_read(&resp, code, 3), values);
        let resp = over_udp(&mut udp, &mut units, 9, &read).unwrap();
        assert_eq!(decode_read(&resp, code, 3), values);
        let answer = rtu_answer(&mut units, &encode_rtu(9, &read)).unwrap();
        let (_, resp) = rtu_response_of(&answer.bytes).unwrap();
        assert_eq!(decode_read(&resp, code, 3), values);
        let (_, resp) = rtu_reply(&answer.bytes, 9).unwrap().unwrap();
        assert_eq!(decode_read(&resp, code, 3), values);
    }
}

#[test]
fn a_refusal_reaches_the_master_as_an_exception() {
    let mut units = units();
    let mut tcp = TcpLink::new();
    let mut udp = UdpLink::new();
    let bad = [0x03, 0xFF, 0xFF, 0x00, 0x02];
    assert!(matches!(
        over_tcp(&mut tcp, &mut units, 1, &bad),
        Err(ModbusError::Exception(2))
    ));
    assert!(matches!(
        over_udp(&mut udp, &mut units, 1, &[0x2B, 0x0E]),
        Err(ModbusError::Exception(1))
    ));
    assert!(matches!(
        over_udp(&mut udp, &mut units, 77, &bad),
        Err(ModbusError::Exception(0x0B))
    ));
    let answer = rtu_answer(&mut units, &encode_rtu(1, &bad)).unwrap();
    assert!(matches!(rtu_response_of(&answer.bytes), Err(ModbusError::Exception(2))));
}

#[test]
fn the_framing_makes_no_difference() {
    let requests = [
        vec![0x06, 0, 1, 2, 3],
        vec![0x10, 0, 2, 0, 1, 2, 9, 9],
        vec![0x05, 0, 3, 0xFF, 0],
        vec![0x0F, 0, 0, 0, 9, 2, 0xAA, 1],
        vec![0x03, 0, 0, 0, 5],
        vec![0x01, 0, 0, 0, 9],
        vec![0x07, 0],
    ];
    let mut a = units();
    let mut b = units();
    for pdu in requests {
        let x = tcp_answer(&mut a, &[0, 5, 0, 0, 0, 1 + pdu.len() as u8, 1], &pdu);
        let y = rtu_answer(&mut b, &encode_rtu(1, &pdu)).unwrap();
        assert_eq!(x.bytes[7..], parse_rtu(&y.bytes).unwrap().1);
        assert_eq!(x.wrote, y.wrote);
        assert_eq!(a[&1].holding_registers, b[&1].holding_registers);
        assert_eq!(a[&1].coils, b[&1].coils);
        assert!(a[&9].coils.is_empty() && b[&9].holding_registers.is_empty());
    }
}

#[test]
fn the_order_of_a_vary_list_does_not_matter() {
    let list = [(1, VaryMode::Random), (2, VaryMode::Increment), (3, VaryMode::Sine)];
    let back = [list[2], list[1], list[0]];
    let sine = HashMap::from([(3u16, 99u16)]);
    let mut a = DataImage::default();
    a.set_holding(1, 500);
    a.set_holding(7, 7);
    let mut b = a.clone();
    Simulator::new().step_on(&mut a, &list, &[], &sine);
    Simulator::new().step_on(&mut b, &back, &[], &sine);
    assert_eq!(a.holding_registers, b.holding_registers);
    assert_eq!(a.holding_registers.get(&7), Some(&7));
    assert_eq!(a.holding_registers.len(), 4);
}

#[test]
fn no_two_registers_share_a_slot() {
    let mut u = SimUnits::new();
    for (start_addr, count) in [(0, 6), (3, 9), (65530, 20)] {
        let b = BatchInput {
            area: "holding".to_string(),
            start_addr,
            count,
            name_prefix: "R".to_string(),
            dtype: "u16".to_string(),
            access: "rw".to_string(),
            vary: "off".to_string(),
            value: Number { bits: 0 },
        };
        u.sim_reg_add_batch(&b, None).unwrap();
    }
    let row: Vec<String> =
        ["Coil", "0", "", "x", "bit", "rw", "off"].iter().map(|s| s.to_string()).collect();
    u.sim_reg_import(&vec![row], &vec![Number { bits: 0 }], true, None).unwrap();
    let defs = u.unit_regs(1).unwrap().defs;
    let slots: HashSet<(String, u16)> = defs.iter().map(|d| (d.area.clone(), d.addr)).collect();
    assert_eq!(slots.len(), defs.len());
    for a in (0..12).chain(65530..=65535) {
        assert!(slots.contains(&("holding".to_string(), a)));
    }
    assert_eq!(defs.iter().filter(|d| d.name == "x").count(), 1);
}
