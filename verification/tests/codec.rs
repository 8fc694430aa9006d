use modbus_workbench::crc::{crc16_modbus, crc16_modbus_bytes};
use modbus_workbench::data::{format_u16, u16_to_i16, words_to_f32_bits, WordOrder};
use modbus_workbench::error::exception;
use modbus_workbench::error::ModbusError;
use modbus_workbench::framing::{
    append_crc, calc_crc, encode_rtu, encode_tcp, parse_rtu, parse_tcp, verify_crc,
    FramingError, MbapHeader,
};
use modbus_workbench::function_code::{is_read, is_write};
use modbus_workbench::wire::{
    copy_range, high_byte, low_byte, make_word, pack_bits, push_bytes, push_word, same_bytes,
    test_bit,
};

fn words_to_f32(w1: u16, w2: u16, order: WordOrder) -> f32 {
    f32::from_bits(words_to_f32_bits(w1, w2, order))
}

#[test]
fn known_vector() {
    let frame = [0x01, 0x03, 0x00, 0x00, 0x00, 0x01];
    assert_eq!(crc16_modbus(&frame), 0x0A84);
    assert_eq!(crc16_modbus_bytes(&frame), [0x84, 0x0A]);
}

#[test]
fn empty_is_ffff() {
    assert_eq!(crc16_modbus(&[]), 0xFFFF);
}

#[test]
fn roundtrip_property() {
    let data = b"Modbus Workbench";
    let crc = crc16_modbus_bytes(data);
    let mut framed = data.to_vec();
    framed.extend_from_slice(&crc);
    assert_eq!(crc16_modbus_bytes(data), crc);
    let mut bad = framed.clone();
    bad[0] ^= 0xFF;
    assert_ne!(
        crc16_modbus_bytes(&bad[..bad.len() - 2]),
        [bad[bad.len() - 2], bad[bad.len() - 1]]
    );
}

#[test]
fn every_single_byte_change_is_noticed() {
    let frame = encode_rtu(1, &[0x03, 0x00, 0x00, 0x00, 0x0A]);
    for i in 0..frame.len() {
        for x in 1..=255u8 {
            let mut bad = frame.clone();
            bad[i] ^= x;
            assert_eq!(parse_rtu(&bad), Err(FramingError::InvalidCrc));
        }
    }
    assert_eq!(crc16_modbus(&frame), 0);
}

#[test]
fn f32_abcd_one() {
    let v = words_to_f32(0x3F80, 0x0000, WordOrder::Abcd);
    assert!((v - 1.0).abs() < 1e-6);
}

#[test]
fn f32_cdab_one() {
    let v = words_to_f32(0x0000, 0x3F80, WordOrder::Cdab);
    assert!((v - 1.0).abs() < 1e-6);
}

#[test]
fn f32_badc_one() {
    let v = words_to_f32(0x803F, 0x0000, WordOrder::Badc);
    assert!((v - 1.0).abs() < 1e-6);
}

#[test]
fn f32_dcba_one() {
    let v = words_to_f32(0x0000, 0x803F, WordOrder::Dcba);
    assert!((v - 1.0).abs() < 1e-6);
}

#[test]
fn word_orders_of_all_four_bytes() {
    assert_eq!(words_to_f32_bits(0x1122, 0x3344, WordOrder::Abcd), 0x1122_3344);
    assert_eq!(words_to_f32_bits(0x1122, 0x3344, WordOrder::Cdab), 0x3344_1122);
    assert_eq!(words_to_f32_bits(0x1122, 0x3344, WordOrder::Badc), 0x2211_4433);
    assert_eq!(words_to_f32_bits(0x1122, 0x3344, WordOrder::Dcba), 0x4433_2211);
    assert_eq!(WordOrder::default(), WordOrder::Abcd);
}

#[test]
fn format_variants() {
    assert_eq!(format_u16(0x00FF, "hex"), "0x00FF");
    assert_eq!(format_u16(0xFFFF, "s16"), "-1");
    assert_eq!(format_u16(5, "dec"), "5");
}

#[test]
fn formats_of_all_words() {
    for v in 0..=65535u16 {
        assert_eq!(format_u16(v, "HEX"), format!("0x{:04X}", v));
        assert_eq!(format_u16(v, "Bin"), format!("{:016b}", v));
        assert_eq!(format_u16(v, "S16"), format!("{}", v as i16));
        assert_eq!(format_u16(v, ""), format!("{}", v));
        assert_eq!(u16_to_i16(v), v as i16);
    }
}

#[test]
fn test_crc() {
    let msg = [0x01, 0x03, 0x00, 0x00, 0x00, 0x02];
    let crc = calc_crc(&msg);
    assert_eq!(crc, 0x0BC4);

    let mut msg_vec = msg.to_vec();
    append_crc(&mut msg_vec);
    assert_eq!(msg_vec, [0x01, 0x03, 0x00, 0x00, 0x00, 0x02, 0xC4, 0x0B]);
    assert!(verify_crc(&msg_vec));
}

#[test]
fn short_buffers_have_no_crc() {
    assert!(!verify_crc(&[]));
    assert!(!verify_crc(&[0xFF]));
    assert!(verify_crc(&[0xFF, 0xFF]));
}

#[test]
fn tcp_roundtrip() {
    let pdu = [0x03u8, 0x00, 0x00, 0x00, 0x0A];
    let adu = encode_tcp(1, 0x1234, &pdu);
    assert_eq!(adu.len(), 12);
    let (tid, unit, back) = parse_tcp(&adu).unwrap();
    assert_eq!(tid, 0x1234);
    assert_eq!(unit, 1);
    assert_eq!(back, pdu);
}

#[test]
fn tcp_frames_that_are_refused() {
    assert_eq!(parse_tcp(&[0, 1, 0, 0, 0, 1]), Err(FramingError::IncompleteFrame));
    assert_eq!(parse_tcp(&[0, 1, 0, 9, 0, 1, 1]), Err(FramingError::InvalidMbap));
    assert_eq!(parse_tcp(&[0, 1, 0, 0, 0, 3, 1, 3]), Err(FramingError::IncompleteFrame));
    assert_eq!(parse_tcp(&[0, 1, 0, 0, 0, 1, 7]), Ok((1, 7, vec![])));
    assert_eq!(parse_tcp(&[0, 1, 0, 0, 0, 2, 7, 9, 9]), Ok((1, 7, vec![9])));
    assert_eq!(parse_tcp(&[0, 1, 0, 0, 0, 0, 1]), Err(FramingError::InvalidMbap));
    assert_eq!(parse_tcp(&[0, 1, 0, 0, 0, 0]), Err(FramingError::IncompleteFrame));
    assert_eq!(parse_tcp(&[0, 1, 0, 1, 0, 0, 7]), Err(FramingError::InvalidMbap));
}

#[test]
fn long_pdus_wrap_the_length_field() {
    let pdu = vec![0u8; 65536];
    let adu = encode_tcp(9, 1, &pdu);
    assert_eq!(adu.len(), 65543);
    assert_eq!(&adu[..7], &[0, 1, 0, 0, 0, 1, 9]);
}

#[test]
fn mbap_header_roundtrip() {
    let h = MbapHeader { transaction_id: 0x0102, protocol_id: 0x0304, length: 0x0506, unit_id: 7 };
    let mut out = vec![0xEE];
    h.encode(&mut out);
    assert_eq!(out, vec![0xEE, 1, 2, 3, 4, 5, 6, 7]);
    assert_eq!(MbapHeader::decode(&out[1..]), Ok(h));
    assert_eq!(MbapHeader::decode(&out[2..]), Err(FramingError::IncompleteFrame));
}

#[test]
fn rtu_roundtrip() {
    let pdu = [0x03u8, 0x00, 0x00, 0x00, 0x0A];
    let adu = encode_rtu(1, &pdu);
    assert_eq!(adu.len(), 8);
    let (unit, back) = parse_rtu(&adu).unwrap();
    assert_eq!(unit, 1);
    assert_eq!(back, pdu);
}

#[test]
fn rtu_bad_crc() {
    let mut adu = encode_rtu(1, &[0x03, 0x00, 0x00, 0x00, 0x0A]);
    adu[7] ^= 0xFF;
    assert!(parse_rtu(&adu).is_err());
}

#[test]
fn rtu_frames_need_five_bytes() {
    assert_eq!(parse_rtu(&encode_rtu(1, &[0x03])), Err(FramingError::IncompleteFrame));
    assert_eq!(parse_rtu(&encode_rtu(1, &[0x83, 2])), Ok((1, vec![0x83, 2])));
}

#[test]
fn function_code_families() {
    for fc in 0..=255u8 {
        assert_eq!(is_read(fc), matches!(fc, 1 | 2 | 3 | 4));
        assert_eq!(is_write(fc), matches!(fc, 5 | 6 | 0x0F | 0x10 | 0x16));
    }
}

#[test]
fn error_messages() {
    assert_eq!(ModbusError::Framing(FramingError::InvalidCrc).message(), "framing error: Invalid CRC");
    assert_eq!(
        ModbusError::from(FramingError::IncompleteFrame).message(),
        "framing error: Incomplete frame"
    );
    assert_eq!(FramingError::InvalidMbap.message(), "Invalid MBAP Header");
    assert_eq!(
        ModbusError::Exception(4).message(),
        "modbus exception: 0x04 · 从设备故障 — 从站尝试执行请求的操作时发生不可恢复的错误"
    );
    assert_eq!(ModbusError::Exception(0xAB).message(), "modbus exception: 0xAB · 未知异常");
    assert_eq!(ModbusError::Exception(5).message(), "modbus exception: 0x05 · 未知异常");
    assert_eq!(ModbusError::Io("gone".to_string()).message(), "io error: gone");
    assert_eq!(ModbusError::Other("plain".to_string()).message(), "plain");
}

#[test]
fn exception_names() {
    let names: Vec<&str> = (0..=12u8).map(exception::name).collect();
    assert_eq!(
        names,
        vec![
            "Unknown Exception",
            "Illegal Function",
            "Illegal Data Address",
            "Illegal Data Value",
            "Slave Device Failure",
            "Acknowledge",
            "Slave Device Busy",
            "Unknown Exception",
            "Unknown Exception",
            "Unknown Exception",
            "Unknown Exception",
            "Unknown Exception",
            "Unknown Exception",
        ]
    );
    assert_eq!(exception::zh_name(1), "非法的功能码");
    assert_eq!(exception::zh_name(2), "非法的数据地址");
    assert_eq!(exception::zh_name(3), "非法的数据值");
    assert_eq!(exception::zh_name(6), "从设备忙");
    assert_eq!(exception::zh_name(0x0A), "网关路径不可用");
    assert_eq!(exception::zh_name(0x0B), "网关目标设备无法响应");
    assert_eq!(
        exception::description(exception::GATEWAY_TARGET_FAILED),
        Some("专门与网关结合使用，表示未从目标设备收到响应。")
    );
    assert_eq!(exception::description(exception::ACKNOWLEDGE), None);
    assert_eq!(exception::description(0), None);
}

#[test]
fn words_and_bytes() {
    for v in [0u16, 1, 255, 256, 0x1234, 65535] {
        assert_eq!([high_byte(v), low_byte(v)], v.to_be_bytes());
        assert_eq!(make_word(high_byte(v), low_byte(v)), v);
        let mut out = vec![9];
        push_word(&mut out, v);
        assert_eq!(out[1..], v.to_be_bytes());
    }
    let mut out = vec![1];
    push_bytes(&mut out, &[2, 3]);
    assert_eq!(out, vec![1, 2, 3]);
    assert_eq!(copy_range(&out, 1, 3), vec![2, 3]);
    assert!(same_bytes(&[1, 2], &[1, 2]));
    assert!(!same_bytes(&[1, 2], &[1, 3]));
    assert!(!same_bytes(&[1, 2], &[1]));
}

#[test]
fn packed_bits() {
    assert_eq!(pack_bits(&vec![]), Vec::<u8>::new());
    assert_eq!(pack_bits(&vec![true, false, true, true]), vec![0x0D]);
    assert_eq!(pack_bits(&vec![true; 9]), vec![0xFF, 0x01]);
    for b in 0..=255u8 {
        let bits: Vec<bool> = (0..8).map(|k| test_bit(b, k)).collect();
        for k in 0..8 {
            assert_eq!(bits[k], (b >> k) & 1 == 1);
        }
        assert_eq!(pack_bits(&bits), vec![b]);
    }
}
