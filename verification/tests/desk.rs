use modbus_workbench::commands::{
    build_read_pdu, conn_info, decode_read, friendly_serial_error, inter_frame_or_default,
    list_serial_ports, parse_func, read_points, read_points_request, read_registers,
    send_raw_frame, wants_udp, write_point, write_result,
};
use modbus_workbench::hex::{cuts_a_char, hex_decode, hex_encode};
use modbus_workbench::poll::{Exchange, Poll, PollTable};
use modbus_workbench::slave::DataImage;
use modbus_workbench::slave_control::{slave_plan, SlaveModes, SlavePlan, SlaveStartReq};
use modbus_workbench::state::{
    CONN_NONE, CONN_RTU, CONN_TCP, CONN_UDP, SLAVE_RTU, SLAVE_RTU_TCP, SLAVE_RTU_UDP, SLAVE_TCP,
    SLAVE_UDP,
};
use modbus_workbench::text::{
    contains, is_white_space, parse_decimal, same, sort_texts, to_ascii_lower, to_decimal, trim,
};
use modbus_workbench::workspace::{ConnectionConfig, PollConfig, Workspace};

fn texts(v: &[&str]) -> Vec<String> {
    v.iter().map(|s| s.to_string()).collect()
}

#[test]
fn hex_there_and_back() {
    assert_eq!(hex_encode(&[]), "");
    assert_eq!(hex_encode(&[0x01, 0xAB, 0xF0]), "01 AB F0");
    let all: Vec<u8> = (0..=255).collect();
    assert_eq!(hex_decode(&hex_encode(&all)), Ok(all));
    assert_eq!(hex_decode("  01\t0a\u{3000}fF "), Ok(vec![1, 10, 255]));
    assert_eq!(hex_decode(""), Ok(vec![]));
    assert_eq!(hex_decode("0 1"), Ok(vec![1]));
    assert_eq!(hex_decode("+F"), Ok(vec![15]));
}

#[test]
fn hex_that_is_refused() {
    assert_eq!(hex_decode("012"), Err("hex length must be even".to_string()));
    assert_eq!(hex_decode("中"), Err("hex length must be even".to_string()));
    let bad = Err("invalid digit found in string".to_string());
    assert_eq!(hex_decode("0g"), bad);
    assert_eq!(hex_decode("-1"), bad);
    assert_eq!(hex_decode("++"), bad);
    assert_eq!(hex_decode("F+"), bad);
    assert_eq!(hex_decode("é"), bad);
    assert_eq!(hex_decode("01zz中a"), bad);
    assert!(cuts_a_char("中a"));
    assert!(cuts_a_char("aéb"));
    assert!(cuts_a_char("01中a"));
    assert!(!cuts_a_char("é"));
    assert!(!cuts_a_char("zz中a"));
    assert!(!cuts_a_char("中"));
}

#[test]
fn connection_names() {
    assert_eq!(conn_info(CONN_NONE), "none");
    assert_eq!(conn_info(CONN_TCP), "tcp");
    assert_eq!(conn_info(CONN_RTU), "rtu");
    assert_eq!(conn_info(CONN_UDP), "udp");
    assert_eq!(conn_info(9), "none");
    assert!(wants_udp(Some("UdP")));
    assert!(!wants_udp(Some("tcp")));
    assert!(!wants_udp(None));
    assert_eq!(inter_frame_or_default(None), 5);
    assert_eq!(inter_frame_or_default(Some(9)), 9);
}

#[test]
fn values_of_responses() {
    assert_eq!(read_registers(&[3, 4, 0, 1, 0, 2]), Ok(vec![1, 2]));
    assert_eq!(read_registers(&[3, 3, 0, 1, 9]), Ok(vec![1]));
    assert_eq!(read_registers(&[4, 0]), Err("unexpected response".to_string()));
    assert_eq!(read_registers(&[3]), Err("unexpected response".to_string()));
    assert_eq!(read_registers(&[3, 2, 0]), Err("truncated response".to_string()));
    assert_eq!(decode_read(&[1, 2, 0x0D, 0x01], 1, 10), vec![1, 0, 1, 1, 0, 0, 0, 0, 1, 0]);
    assert_eq!(decode_read(&[2, 1, 0x01], 2, 100), vec![1, 0, 0, 0, 0, 0, 0, 0]);
    assert_eq!(decode_read(&[1, 1, 0xFF], 1, 0), Vec::<u16>::new());
    assert_eq!(decode_read(&[4, 5, 0, 1, 0, 2, 7], 4, 0), vec![1, 2]);
    assert_eq!(decode_read(&[3, 4, 0, 1, 0], 3, 2), Vec::<u16>::new());
    assert_eq!(decode_read(&[3, 0], 4, 2), Vec::<u16>::new());
    assert_eq!(decode_read(&[], 3, 2), Vec::<u16>::new());
}

#[test]
fn reads_give_back_the_image() {
    let mut img = DataImage::default();
    img.set_holding(7, 77);
    img.set_discrete(2, true);
    let resp = img.handle_request(&build_read_pdu(3, 6, 3)).unwrap();
    assert_eq!(decode_read(&resp, 3, 3), vec![0xFFFF, 77, 0xFFFF]);
    let resp = img.handle_request(&build_read_pdu(2, 0, 9)).unwrap();
    assert_eq!(decode_read(&resp, 2, 9), vec![0, 0, 1, 0, 0, 0, 0, 0, 0]);
}

#[test]
fn function_texts() {
    assert_eq!(parse_func("01"), 1);
    assert_eq!(parse_func("+4"), 4);
    assert_eq!(parse_func("255"), 255);
    assert_eq!(parse_func("256"), 3);
    assert_eq!(parse_func(""), 3);
    assert_eq!(parse_func(" 1"), 3);
}

#[test]
fn data_point_writes() {
    assert_eq!(write_point("01", 0x0102, &[1]), vec![5, 1, 2, 0xFF, 0]);
    assert_eq!(write_point("01", 0x0102, &[0, 9]), vec![5, 1, 2, 0, 0]);
    assert_eq!(write_point("01", 0x0102, &[]), vec![5, 1, 2, 0, 0]);
    assert_eq!(write_point("03", 0x0102, &[0xABCD]), vec![6, 1, 2, 0xAB, 0xCD]);
    assert_eq!(write_point("03", 0x0102, &[]), vec![6, 1, 2, 0, 0]);
    assert_eq!(
        write_point("x", 0x0102, &[0xABCD, 0x1234, 7]),
        vec![0x10, 1, 2, 0, 2, 4, 0xAB, 0xCD, 0x12, 0x34]
    );
}

#[test]
fn data_point_reads() {
    assert_eq!(read_points_request("02", 1, 3), Ok((2, vec![2, 0, 1, 0, 3])));
    assert_eq!(
        read_points_request("05", 1, 3),
        Err("read_points supports FC01/FC02/FC03/FC04 only".to_string())
    );
    let p = read_points(&[1], &[2, 3], 7, &[3, 2, 0, 9], 3, 1).unwrap();
    assert_eq!(p.regs, vec![9]);
    assert_eq!((p.tx.as_str(), p.rx.as_str(), p.rtt_ms), ("01", "02 03", 7));
    assert_eq!(
        read_points(&[1], &[2], 7, &[4, 2, 0, 9], 3, 1).err(),
        Some("unexpected read response".to_string())
    );
    let w = write_result(&[1], &[0xAB], 3);
    assert_eq!((w.tx.as_str(), w.rx.as_str(), w.rtt_ms), ("01", "AB", 3));
    let s = send_raw_frame(&[1], &[2], 3, &[4, 5]);
    assert_eq!((s.tx.as_str(), s.rx.as_str(), s.rtt_ms), ("01", "02", 3));
    assert_eq!(s.pdu_resp, "04 05");
}

#[test]
fn busy_ports_get_a_hint() {
    let hint = "\n\n提示：串口已被其他程序独占用，请先关闭占用该串口的程序，或重启该串口设备后重试。";
    let busy = "open x: Resource busy".to_string();
    assert_eq!(friendly_serial_error(busy.clone()), format!("{busy}{hint}"));
    let code = "open x: (os error 16)".to_string();
    assert_eq!(friendly_serial_error(code.clone()), format!("{code}{hint}"));
    assert_eq!(friendly_serial_error("open x: denied".to_string()), "open x: denied");
}

#[test]
fn port_lists() {
    assert_eq!(
        list_serial_ports(texts(&["/dev/tty.b", "/dev/cu.b", "/dev/cu.a", "COM3"])),
        texts(&["/dev/cu.a", "/dev/cu.b", "COM3"])
    );
    assert_eq!(
        list_serial_ports(texts(&["/dev/tty.b", "/dev/tty.a"])),
        texts(&["/dev/tty.a", "/dev/tty.b"])
    );
    assert_eq!(list_serial_ports(vec![]), Vec::<String>::new());
}

#[test]
fn texts_are_sorted_like_std() {
    let v = texts(&["b", "a", "", "ab", "aa", "中", "é", "a", "Z"]);
    let mut want = v.clone();
    want.sort();
    assert_eq!(sort_texts(v), want);
}

#[test]
fn text_helpers_agree_with_std() {
    for n in 0..=0x10FFFFu32 {
        if let Some(c) = char::from_u32(n) {
            assert_eq!(is_white_space(c), c.is_whitespace(), "{n:x}");
        }
    }
    for s in ["", " ", "a", "  a b ", "\u{3000}x\u{85}", "中文", "ÄBC", "AbZ[@"] {
        assert_eq!(trim(s), s.trim());
        assert_eq!(to_ascii_lower(s), s.to_ascii_lowercase());
        for t in ["", "a", "b", " ", "文", "bc", "a b", "AbZ[@x"] {
            assert_eq!(contains(s, t), s.contains(t), "{s} {t}");
            assert_eq!(same(s, t), s == t);
        }
    }
    for s in ["0", "00", "65535", "65536", "99999999999", "+7", "+", "-1", "", "1a", "１", "++1", "1+"] {
        assert_eq!(parse_decimal(s, 65535).map(|n| n as u16), s.parse::<u16>().ok(), "{s}");
        assert_eq!(parse_decimal(s, 255).map(|n| n as u8), s.parse::<u8>().ok(), "{s}");
    }
    for n in [0u64, 9, 10, 4095, u64::MAX] {
        assert_eq!(to_decimal(n), n.to_string());
    }
}

#[test]
fn polls_by_id() {
    let mut t = PollTable::new();
    assert!(!t.is_running());
    assert_eq!(t.start_poll(7), Ok(()));
    assert_eq!(t.start_poll(7), Err("poll 7 already running".to_string()));
    assert_eq!(t.start_poll(8), Ok(()));
    assert!(t.stop_poll(7));
    assert!(!t.stop_poll(7));
    assert!(t.is_running());
    assert!(t.stop_poll(8));
    assert!(!t.is_running());
    assert_eq!(t.start_poll(7), Ok(()));
    t.stop_all_polls();
    assert!(!t.is_running());
    assert!(!t.stop_poll(7));
}

#[test]
fn poll_cycles() {
    let p = Poll::new(3, "温度".to_string(), "04", 0x10, 2, 9);
    assert_eq!(p.request(), vec![4, 0, 0x10, 0, 2]);
    assert_eq!(p.unit_id, 9);
    let x = Exchange {
        tx: vec![1],
        rx: vec![2, 0xAA],
        rtt_ms: 12,
        resp: vec![4, 4, 0, 1, 0, 2],
    };
    let f = p.on_outcome(Some(Ok(x))).unwrap();
    assert_eq!((f.poll_id, f.poll_name.as_str(), f.addr), (3, "温度", 0x10));
    assert_eq!(f.regs, Some(vec![1, 2]));
    assert_eq!((f.tx.as_str(), f.rx.as_str(), f.rtt_ms), ("01", "02 AA", Some(12)));
    assert_eq!(f.error, None);
    let f = p.on_outcome(Some(Err("gone".to_string()))).unwrap();
    assert_eq!((f.poll_id, f.poll_name.as_str(), f.addr), (3, "温度", 0x10));
    assert_eq!((f.regs, f.tx.as_str(), f.rx.as_str(), f.rtt_ms), (None, "", "", None));
    assert_eq!(f.error, Some("gone".to_string()));
    assert!(p.on_outcome(None).is_none());
}

fn start(mode: &str) -> SlaveStartReq {
    SlaveStartReq {
        mode: mode.to_string(),
        bind: None,
        port: None,
        port_name: None,
        baud_rate: None,
        data_bits: None,
        stop_bits: None,
        parity: None,
        inter_frame_ms: None,
    }
}

#[test]
fn slave_plans() {
    match slave_plan(&start("tcp")).unwrap() {
        SlavePlan::Tcp { bind, port } => assert_eq!((bind.as_str(), port), ("0.0.0.0", 502)),
        other => panic!("{other:?}"),
    }
    let mut req = start("rtu_udp");
    req.bind = Some("127.0.0.1".to_string());
    req.port = Some(1502);
    match slave_plan(&req).unwrap() {
        SlavePlan::RtuUdp { bind, port } => assert_eq!((bind.as_str(), port), ("127.0.0.1", 1502)),
        other => panic!("{other:?}"),
    }
    assert!(matches!(slave_plan(&start("udp")), Ok(SlavePlan::Udp { .. })));
    assert!(matches!(slave_plan(&start("rtu_tcp")), Ok(SlavePlan::RtuTcp { .. })));
    assert_eq!(slave_plan(&start("rtu")).err(), Some("请选择串口".to_string()));
    assert_eq!(slave_plan(&start("TCP")).err(), Some("未知模拟模式：TCP".to_string()));
    let mut req = start("rtu");
    req.port_name = Some("/dev/cu.x".to_string());
    match slave_plan(&req).unwrap() {
        SlavePlan::Serial { port_name, baud, data_bits, stop_bits, parity, inter_frame_ms } => {
            assert_eq!(port_name, "/dev/cu.x");
            assert_eq!((baud, data_bits, stop_bits), (9600, 8, 1));
            assert_eq!((parity.as_str(), inter_frame_ms), ("none", 5));
        }
        other => panic!("{other:?}"),
    }
    req.baud_rate = Some(19200);
    req.data_bits = Some(7);
    req.stop_bits = Some(2);
    req.parity = Some("even".to_string());
    req.inter_frame_ms = Some(9);
    match slave_plan(&req).unwrap() {
        SlavePlan::Serial { baud, data_bits, stop_bits, parity, inter_frame_ms, .. } => {
            assert_eq!((baud, data_bits, stop_bits), (19200, 7, 2));
            assert_eq!((parity.as_str(), inter_frame_ms), ("even", 9));
        }
        other => panic!("{other:?}"),
    }
}

#[test]
fn slave_modes_run_side_by_side() {
    let mut m = SlaveModes::new();
    assert!(!m.any());
    m.started("tcp");
    m.started("rtu");
    m.started("rtu_udp");
    m.started("nonsense");
    assert_eq!(m.bits, SLAVE_TCP | SLAVE_RTU | SLAVE_RTU_UDP);
    assert!(m.begin_start(&start("tcp")).is_ok());
    assert_eq!(m.bits, SLAVE_RTU | SLAVE_RTU_UDP);
    m.started("udp");
    m.started("rtu_tcp");
    m.stop("rtu_udp");
    m.stop("rtu_udp");
    assert_eq!(m.bits, SLAVE_RTU | SLAVE_UDP | SLAVE_RTU_TCP);
    let s = m.status();
    assert_eq!((s.tcp, s.udp, s.rtu_tcp, s.rtu_udp, s.rtu), (false, true, true, false, true));
    assert!(m.begin_start(&start("rtu")).is_err());
    assert_eq!(m.bits, SLAVE_UDP | SLAVE_RTU_TCP);
    m.started("rtu");
    assert_eq!(m.stop_all(), vec!["udp", "rtu_tcp", "rtu"]);
    assert!(!m.any());
}

#[test]
fn workspaces() {
    let mut ws = Workspace::new();
    ws.connections.push(ConnectionConfig::Tcp {
        name: "plc1".into(),
        host: "127.0.0.1".into(),
        port: 1502,
        unit_id: 1,
        timeout_ms: 1000,
        retries: 3,
    });
    ws.polls.push(PollConfig {
        name: "temp".into(),
        connection: "plc1".into(),
        function: 0x03,
        start: 0,
        count: 10,
        interval_ms: 500,
    });
    ws.aliases.insert("40001".into(), "设定温度".into());
    let loaded = ws.accept().unwrap();
    assert_eq!(loaded.schema, 1);
    assert_eq!(loaded.connections.len(), 1);
    assert_eq!(loaded.polls[0].count, 10);
    assert_eq!(loaded.aliases.get("40001").unwrap(), "设定温度");
    assert_eq!(
        Workspace::default().accept().err(),
        Some("unsupported workspace schema".to_string())
    );
}
