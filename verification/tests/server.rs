use modbus_workbench::framing::{encode_rtu, encode_tcp, parse_rtu, parse_tcp};
use modbus_workbench::server::{
    new_shared_image, respond_for, rtu_answer, tcp_answer, tcp_body_len, udp_answer, RtuReceiver,
    UnitImages,
};

fn units_single() -> UnitImages {
    let mut m = UnitImages::new();
    m.insert(1, new_shared_image());
    m
}

fn tcp_exchange(units: &mut UnitImages, adu: &[u8]) -> (Vec<u8>, Option<u8>) {
    let n = tcp_body_len(&adu[..7]).unwrap();
    assert_eq!(adu.len(), 7 + n);
    let a = tcp_answer(units, &adu[..7], &adu[7..]);
    (a.bytes, a.wrote)
}

#[test]
fn tcp_slave_reads_and_writes_shared_image() {
    let mut units = units_single();
    let (adu, wrote) =
        tcp_exchange(&mut units, &encode_tcp(1, 7, &[0x03, 0x00, 0x00, 0x00, 0x02]));
    assert_eq!(wrote, None);
    assert_eq!(&adu[..7], &[0, 7, 0, 0, 0, 7, 1]);
    let body = &adu[7..];
    assert_eq!(body[0], 0x03);
    assert_eq!(body[1], 4);
    assert_eq!(&body[2..], &[0xFF, 0xFF, 0xFF, 0xFF]);

    let (adu, wrote) =
        tcp_exchange(&mut units, &encode_tcp(1, 8, &[0x06, 0x00, 0x01, 0xAB, 0xCD]));
    assert_eq!(adu[7..], [0x06, 0x00, 0x01, 0xAB, 0xCD]);
    assert_eq!(wrote, Some(1));

    let (adu, wrote) =
        tcp_exchange(&mut units, &encode_tcp(1, 9, &[0x03, 0x00, 0x01, 0x00, 0x01]));
    assert_eq!(&adu[9..], &[0xAB, 0xCD]);
    assert_eq!(wrote, None);
}

#[test]
fn tcp_slave_multiple_units_each_own_image() {
    let mut units = UnitImages::new();
    let mut img1 = new_shared_image();
    img1.set_holding(0, 0x1234);
    units.insert(1, img1);
    units.insert(42, new_shared_image());

    let (adu, _) = tcp_exchange(&mut units, &encode_tcp(42, 1, &[0x03, 0x00, 0x00, 0x00, 0x01]));
    assert_eq!(adu[6], 42);
    assert_eq!(adu[7], 0x03);
    assert_eq!(&adu[9..], &[0xFF, 0xFF]);

    let (adu, _) = tcp_exchange(&mut units, &encode_tcp(1, 2, &[0x03, 0x00, 0x00, 0x00, 0x01]));
    assert_eq!(&adu[9..], &[0x12, 0x34]);
}

#[test]
fn tcp_slave_unknown_unit_gets_gateway_exception() {
    let mut units = units_single();
    let (adu, wrote) =
        tcp_exchange(&mut units, &encode_tcp(99, 1, &[0x03, 0x00, 0x00, 0x00, 0x01]));
    assert_eq!(adu[7], 0x83);
    assert_eq!(adu[8], 0x0B);
    assert_eq!(wrote, None);
    let (adu, _) = tcp_exchange(&mut units, &encode_tcp(99, 1, &[]));
    assert_eq!(adu[7..], [0x80, 0x0B]);
    assert_eq!(units.len(), 1);
}

#[test]
fn tcp_headers_without_a_body_are_passed_over() {
    assert_eq!(tcp_body_len(&[0, 1, 0, 0, 0, 0, 1]), None);
    assert_eq!(tcp_body_len(&[0, 1, 0, 0, 0, 1, 1]), Some(0));
    assert_eq!(tcp_body_len(&[0, 1, 9, 9, 0xFF, 0xFF, 1]), Some(65534));
}

#[test]
fn udp_slave_responds_per_unit() {
    let mut units = units_single();
    let req = encode_tcp(1, 5, &[0x03, 0x00, 0x00, 0x00, 0x01]);
    let a = udp_answer(&mut units, &req).unwrap();
    let (tid, unit, pdu) = parse_tcp(&a.bytes).unwrap();
    assert_eq!(tid, 5);
    assert_eq!(unit, 1);
    assert_eq!(pdu[0], 0x03);
    assert_eq!(&pdu[2..], &[0xFF, 0xFF]);

    let req = encode_tcp(99, 6, &[0x03, 0x00, 0x00, 0x00, 0x01]);
    let a = udp_answer(&mut units, &req).unwrap();
    let (_, unit, pdu) = parse_tcp(&a.bytes).unwrap();
    assert_eq!(unit, 99);
    assert_eq!(pdu[0], 0x83);
    assert_eq!(pdu[1], 0x0B);

    assert!(udp_answer(&mut units, &[1, 2, 3]).is_none());
    assert!(udp_answer(&mut units, &[0, 1, 0, 5, 0, 1, 1]).is_none());
    assert!(udp_answer(&mut units, &[0, 1, 0, 0, 0, 0, 1]).is_none());
    let a = udp_answer(&mut units, &encode_tcp(1, 7, &[0x05, 0, 9, 0xFF, 0])).unwrap();
    assert_eq!(a.wrote, Some(1));
}

#[test]
fn tcp_slave_implicit_zero_for_unregistered() {
    let mut units = units_single();
    let (adu, _) = tcp_exchange(&mut units, &encode_tcp(1, 1, &[0x03, 0x27, 0x0F, 0x00, 0x01]));
    assert_eq!(adu[7], 0x03);
    assert_eq!(adu[8], 2);
    assert_eq!(&adu[9..], &[0xFF, 0xFF]);

    let (adu, _) = tcp_exchange(&mut units, &encode_tcp(1, 2, &[0x03, 0xFF, 0xFF, 0x00, 0x02]));
    assert_eq!(adu[7], 0x83);
    assert_eq!(adu[8], 0x02);
}

#[test]
fn refused_writes_tell_no_editor() {
    let mut units = units_single();
    let a = respond_for(&mut units, 1, &[0x05, 0, 0, 1, 2]).unwrap();
    assert_eq!(a.bytes, vec![0x85, 3]);
    assert_eq!(a.wrote, None);
    let a = respond_for(&mut units, 1, &[]).unwrap();
    assert_eq!(a.bytes, vec![0x80, 1]);
    assert!(respond_for(&mut units, 2, &[3, 0, 0, 0, 1]).is_none());
    for pdu in [
        vec![0x05, 0, 0, 0xFF, 0],
        vec![0x06, 0, 0, 0xFF, 0],
        vec![0x0F, 0, 0, 0, 1, 1, 1],
        vec![0x10, 0, 0, 0, 1, 2, 0, 1],
    ] {
        assert_eq!(respond_for(&mut units, 1, &pdu).unwrap().wrote, Some(1));
    }
}

fn rtu_request(rx: &mut RtuReceiver, units: &mut UnitImages, unit: u8, pdu: &[u8]) -> Vec<u8> {
    for b in encode_rtu(unit, pdu) {
        rx.on_byte(b);
        assert!(rx.on_idle(4, units).is_none());
    }
    let a = rx.on_idle(5, units).unwrap();
    let (u, resp) = parse_rtu(&a.bytes).unwrap();
    assert_eq!(u, unit);
    resp
}

#[test]
fn rtu_serial_slave_answers_master() {
    let mut units = UnitImages::new();
    let mut img = new_shared_image();
    img.set_holding(0, 0x1234);
    img.set_holding(3, 0x00AB);
    units.insert(1, img);
    let mut rx = RtuReceiver::new(5);

    let resp = rtu_request(&mut rx, &mut units, 1, &[0x03, 0x00, 0x00, 0x00, 0x01]);
    assert_eq!(resp, vec![0x03, 0x02, 0x12, 0x34]);
    let resp = rtu_request(&mut rx, &mut units, 1, &[0x03, 0x00, 0x03, 0x00, 0x01]);
    assert_eq!(resp, vec![0x03, 0x02, 0x00, 0xAB]);
    rtu_request(&mut rx, &mut units, 1, &[0x06, 0x00, 0x05, 0xBE, 0xEF]);
    let resp = rtu_request(&mut rx, &mut units, 1, &[0x03, 0x00, 0x05, 0x00, 0x01]);
    assert_eq!(resp, vec![0x03, 0x02, 0xBE, 0xEF]);
}

#[test]
fn rtu_slave_stays_silent() {
    let mut units = units_single();
    let mut rx = RtuReceiver::new(0);
    assert!(rx.on_idle(1000, &mut units).is_none());
    for b in encode_rtu(2, &[0x03, 0, 0, 0, 1]) {
        rx.on_byte(b);
    }
    assert!(rx.on_idle(1, &mut units).is_none());
    assert!(rx.on_idle(2, &mut units).is_none());
    for b in encode_rtu(1, &[0x06, 0, 0, 0, 1]) {
        rx.on_byte(b);
    }
    let a = rx.on_idle(2, &mut units).unwrap();
    assert_eq!(a.wrote, Some(1));
    assert_eq!(a.bytes, encode_rtu(1, &[0x06, 0, 0, 0, 1]));
    rx.on_byte(1);
    rx.on_byte(2);
    assert!(rx.end_frame(&mut units).is_none());
    let mut bad = encode_rtu(1, &[0x03, 0, 0, 0, 1]);
    bad[1] ^= 1;
    assert!(rtu_answer(&mut units, &bad).is_none());
}

#[test]
fn a_write_over_tcp_is_read_over_rtu() {
    let mut units = units_single();
    let pdu = [0x10, 0x00, 0x07, 0x00, 0x02, 0x04, 0xDE, 0xAD, 0xBE, 0xEF];
    tcp_exchange(&mut units, &encode_tcp(1, 1, &pdu));
    let a = rtu_answer(&mut units, &encode_rtu(1, &[0x03, 0x00, 0x07, 0x00, 0x02])).unwrap();
    assert_eq!(a.bytes, encode_rtu(1, &[0x03, 0x04, 0xDE, 0xAD, 0xBE, 0xEF]));
}

#[test]
fn every_write_is_read_over_every_framing() {
    let writes = [
        (vec![0x05, 0, 3, 0xFF, 0], vec![0x01, 0, 3, 0, 1], vec![0x01, 1, 1]),
        (vec![0x05, 0, 3, 0, 0], vec![0x01, 0, 3, 0, 1], vec![0x01, 1, 0]),
        (vec![0x06, 0, 1, 0xBE, 0xEF], vec![0x03, 0, 1, 0, 1], vec![0x03, 2, 0xBE, 0xEF]),
        (
            vec![0x0F, 0, 9, 0, 10, 2, 0xCD, 0x02],
            vec![0x01, 0, 9, 0, 10],
            vec![0x01, 2, 0xCD, 0x02],
        ),
        (vec![0x10, 0, 7, 0, 1, 2, 8, 9], vec![0x03, 0, 7, 0, 1], vec![0x03, 2, 8, 9]),
    ];
    for (write, read, data) in writes {
        let mut units = units_single();
        assert_eq!(rtu_answer(&mut units, &encode_rtu(1, &write)).unwrap().wrote, Some(1));
        let a = udp_answer(&mut units, &encode_tcp(1, 4, &read)).unwrap();
        assert_eq!(a.bytes, encode_tcp(1, 4, &data));
        let (adu, _) = tcp_exchange(&mut units, &encode_tcp(1, 5, &read));
        assert_eq!(adu, encode_tcp(1, 5, &data));
        let a = rtu_answer(&mut units, &encode_rtu(1, &read)).unwrap();
        assert_eq!(a.bytes, encode_rtu(1, &data));
    }
}
