use modbus_workbench::client::{
    decode_holding, decode_input, has_whole_words, holding_request, input_request, short_pdu,
    write_register_request, write_registers_request, Attempt, Attempts,
};
use modbus_workbench::error::ModbusError;
use modbus_workbench::framing::{encode_rtu, encode_tcp, FramingError};
use modbus_workbench::slave::DataImage;
use modbus_workbench::transport::rtu::{
    line_settings, read_probe_ms, LineParity, LineSettings, RtuExchange,
};
use modbus_workbench::transport::rtu_response_of;
use modbus_workbench::transport::tcp::{rtu_probe_ns, rtu_stream_over, TcpLink, TcpRead};
use modbus_workbench::transport::udp::{
    mbap_reply, on_mbap_read, on_rtu_read, rtu_reply, UdpLink, UdpRead,
};

const MS: u64 = 1_000_000;

fn ten_registers() -> Vec<u8> {
    let mut pdu = vec![0x03, 0x14];
    pdu.extend_from_slice(&[0u8; 20]);
    pdu
}

fn request(link: &mut TcpLink) -> (u16, Vec<u8>) {
    link.begin(1, &[0x03, 0x00, 0x00, 0x00, 0x0A])
}

#[test]
fn tcp_read_fc03_response_roundtrip() {
    let mut link = TcpLink::new();
    let (tid, tx) = request(&mut link);
    assert_eq!(tx.len(), 12);
    assert!(link.poll(&tx, tid).is_none());
    link.on_read(TcpRead::Data(encode_tcp(1, tid, &ten_registers()))).unwrap();
    let (rx, resp_pdu) = link.poll(&tx, tid).unwrap().unwrap();
    assert_eq!(rx.len(), 29);
    assert_eq!(resp_pdu.len(), 22);
    assert_eq!(resp_pdu[0], 0x03);
    assert_eq!(resp_pdu[1], 0x14);
    assert_eq!(&resp_pdu[2..], &[0u8; 20][..]);
}

#[test]
fn tcp_sticky_garbage_then_response() {
    let mut link = TcpLink::new();
    let (tid, tx) = request(&mut link);
    let mut blob = encode_tcp(1, 0xFFFF, &[0x03, 0x00, 0x00, 0x00, 0x02]);
    blob.extend_from_slice(&encode_tcp(1, tid, &ten_registers()));
    link.on_read(TcpRead::Data(blob)).unwrap();
    let (rx, resp_pdu) = link.poll(&tx, tid).unwrap().unwrap();
    assert_eq!(rx.len(), 29);
    assert_eq!(resp_pdu.len(), 22);
    assert_eq!(resp_pdu[0], 0x03);
    assert_eq!(resp_pdu[1], 0x14);
}

#[test]
fn tcp_fragmented_response() {
    let mut link = TcpLink::new();
    let (tid, tx) = request(&mut link);
    let resp = encode_tcp(1, tid, &ten_registers());
    for cut in 1..resp.len() {
        link.on_read(TcpRead::Data(resp[..cut].to_vec())).unwrap();
        assert!(link.poll(&tx, tid).is_none());
        link.on_read(TcpRead::Data(resp[cut..].to_vec())).unwrap();
        let (rx, resp_pdu) = link.poll(&tx, tid).unwrap().unwrap();
        assert_eq!(rx.len(), 29);
        assert_eq!(resp_pdu.len(), 22);
        assert_eq!(resp_pdu[0], 0x03);
    }
}

#[test]
fn tcp_echo_then_response() {
    let mut link = TcpLink::new();
    let (tid, tx) = request(&mut link);
    let mut blob = tx.clone();
    blob.extend_from_slice(&encode_tcp(1, tid, &ten_registers()));
    link.on_read(TcpRead::Data(blob)).unwrap();
    let (rx, resp_pdu) = link.poll(&tx, tid).unwrap().unwrap();
    assert_eq!(rx.len(), 29);
    assert_eq!(resp_pdu.len(), 22);
    assert_eq!(resp_pdu[0], 0x03);
    assert_eq!(resp_pdu[1], 0x14);
}

#[test]
fn an_answer_that_equals_its_request_is_taken() {
    let mut link = TcpLink::new();
    let (tid, tx) = link.begin(1, &[0x06, 0x00, 0x01, 0xAB, 0xCD]);
    link.on_read(TcpRead::Data(tx.clone())).unwrap();
    let (rx, pdu) = link.poll(&tx, tid).unwrap().unwrap();
    assert_eq!(rx, tx);
    assert_eq!(pdu, vec![0x06, 0x00, 0x01, 0xAB, 0xCD]);
    let mut blob = tx.clone();
    blob.extend_from_slice(&[1, 2, 3, 4, 5, 6]);
    link.on_read(TcpRead::Data(blob)).unwrap();
    assert!(link.poll(&tx, tid).unwrap().is_ok());
}

#[test]
fn garbage_in_the_stream_is_skipped_byte_by_byte() {
    let mut link = TcpLink::new();
    let (tid, tx) = request(&mut link);
    let mut blob = vec![0xEE, 0xEE, 0xEE];
    blob.extend_from_slice(&encode_tcp(1, tid, &[0x83, 0x02]));
    link.on_read(TcpRead::Data(blob)).unwrap();
    match link.poll(&tx, tid) {
        Some(Err(ModbusError::Exception(2))) => {}
        other => panic!("{other:?}"),
    }
}

#[test]
fn tcp_reads_that_end_a_request() {
    let mut link = TcpLink::new();
    let closed = link.on_read(TcpRead::Data(vec![])).unwrap_err();
    assert_eq!(closed.message(), "connection closed by peer");
    let failed = link.on_read(TcpRead::Failed("reset".to_string())).unwrap_err();
    assert_eq!(failed.message(), "read error: reset");
    let late = link.on_read(TcpRead::TimedOut).unwrap_err();
    assert_eq!(late.message(), "read body timeout");
}

#[test]
fn transaction_ids_count_up() {
    let mut link = TcpLink::new();
    let mut channel = UdpLink::new();
    for want in 0..3u16 {
        assert_eq!(link.begin(1, &[1]).0, want);
        let (tid, tx) = channel.begin(9, &[1]);
        assert_eq!(tid, want);
        assert_eq!(tx, encode_tcp(9, want, &[1]));
    }
}

#[test]
fn udp_roundtrip() {
    let mut channel = UdpLink::new();
    let (tid, tx) = channel.begin(1, &[0x03, 0x00, 0x00, 0x00, 0x0A]);
    assert_eq!(tx.len(), 12);
    let resp = encode_tcp(1, tid, &ten_registers());
    let (rx, resp_pdu) = mbap_reply(&resp, tid).unwrap().unwrap();
    assert_eq!(rx.len(), 29);
    assert_eq!(resp_pdu.len(), 22);
    assert_eq!(resp_pdu[0], 0x03);
    assert_eq!(resp_pdu[1], 0x14);
}

#[test]
fn udp_skips_stale_datagram() {
    let stale = encode_tcp(1, 0xFFFF, &[0x03, 0x00, 0x00, 0x00, 0x02]);
    assert!(mbap_reply(&stale, 0).is_none());
    assert!(mbap_reply(&[], 0).is_none());
    assert!(mbap_reply(&[1, 2, 3], 0).is_none());
    let (rx, resp_pdu) = mbap_reply(&encode_tcp(1, 0, &ten_registers()), 0).unwrap().unwrap();
    assert_eq!(rx.len(), 29);
    assert_eq!(resp_pdu.len(), 22);
    assert_eq!(resp_pdu[0], 0x03);
    assert_eq!(resp_pdu[1], 0x14);
    assert!(matches!(
        mbap_reply(&encode_tcp(1, 0, &[0x83, 0x0B]), 0),
        Some(Err(ModbusError::Exception(0x0B)))
    ));
    let mut long = encode_tcp(1, 0, &[0x03, 0x00]);
    long.push(9);
    let (rx, pdu) = mbap_reply(&long, 0).unwrap().unwrap();
    assert_eq!(rx, long);
    assert_eq!(pdu, vec![0x03, 0x00]);
}

#[test]
fn udp_rtu_roundtrip() {
    let tx = encode_rtu(1, &[0x03, 0x00, 0x00, 0x00, 0x0A]);
    assert_eq!(tx.len(), 8);
    let resp = encode_rtu(1, &ten_registers());
    let (rx, resp_pdu) = rtu_reply(&resp, 1).unwrap().unwrap();
    assert_eq!(rx.len(), 25);
    assert_eq!(resp_pdu.len(), 22);
    assert_eq!(resp_pdu[0], 0x03);
    assert_eq!(resp_pdu[1], 0x14);
}

#[test]
fn udp_rtu_skips_wrong_unit() {
    assert!(rtu_reply(&encode_rtu(2, &ten_registers()), 1).is_none());
    assert!(rtu_reply(&[1, 2, 3, 4, 5], 1).is_none());
    let (rx, resp_pdu) = rtu_reply(&encode_rtu(1, &ten_registers()), 1).unwrap().unwrap();
    assert_eq!(rx.len(), 25);
    assert_eq!(resp_pdu.len(), 22);
    assert_eq!(resp_pdu[0], 0x03);
    assert_eq!(resp_pdu[1], 0x14);
    assert!(matches!(
        rtu_reply(&encode_rtu(1, &[0x81, 0x01]), 1),
        Some(Err(ModbusError::Exception(1)))
    ));
}

#[test]
fn master_waits_full_timeout_for_slow_first_response() {
    let mut x = RtuExchange::new(1, &[0x03, 0x00, 0x00, 0x00, 0x0A], 5 * MS, 1000 * MS);
    assert_eq!(x.tx_adu(), &encode_rtu(1, &[0x03, 0x00, 0x00, 0x00, 0x0A]));
    for probe in [20, 40, 60, 80] {
        assert!(!x.is_over(probe * MS));
    }
    for b in encode_rtu(1, &ten_registers()) {
        x.on_byte(b, 100 * MS);
    }
    assert!(!x.is_over(104 * MS));
    assert!(x.is_over(105 * MS));
    let frame = x.finish().unwrap();
    assert_eq!(frame.3[0], 0x03);
    assert_eq!(frame.3.len(), 2 + 20);
    assert_eq!(frame.1, encode_rtu(1, &ten_registers()));
    assert_eq!(frame.2, 100 * MS);
}

#[test]
fn master_reports_no_response_when_slave_silent() {
    let x = RtuExchange::new(1, &[0x03, 0x00, 0x00, 0x00, 0x0A], 5 * MS, 300 * MS);
    assert!(!x.is_over(299 * MS));
    assert!(x.is_over(300 * MS));
    let err = x.finish().err().unwrap();
    assert!(err.message().contains("no response"));
}

#[test]
fn a_stalled_response_ends_with_the_timeout() {
    let mut x = RtuExchange::new(1, &[0x03], 50 * MS, 100 * MS);
    x.on_byte(1, 90 * MS);
    assert!(!x.is_over(99 * MS));
    assert!(x.is_over(100 * MS));
    assert!(matches!(
        x.finish(),
        Err(ModbusError::Framing(FramingError::IncompleteFrame))
    ));
    assert!(matches!(
        rtu_response_of(&encode_rtu(1, &[0x86, 0x03])),
        Err(ModbusError::Exception(3))
    ));
}

#[test]
fn rtu_over_tcp_timing() {
    assert_eq!(rtu_probe_ns(5 * MS), 20 * MS);
    assert_eq!(rtu_probe_ns(30 * MS), 30 * MS);
    assert!(!rtu_stream_over(4, 5, 100));
    assert!(rtu_stream_over(5, 5, 100));
    assert!(!rtu_stream_over(3, 5, 3));
    assert!(rtu_stream_over(4, 5, 3));
}

#[test]
fn serial_line_settings() {
    assert_eq!(
        line_settings(7, 2, "EVEN"),
        LineSettings { data_bits: 7, stop_bits: 2, parity: LineParity::Even }
    );
    assert_eq!(
        line_settings(9, 3, "mark"),
        LineSettings { data_bits: 8, stop_bits: 1, parity: LineParity::NoParity }
    );
    assert_eq!(line_settings(5, 1, "odd").parity, LineParity::Odd);
    assert_eq!(line_settings(5, 1, "odd").data_bits, 5);
    assert_eq!(line_settings(4, 1, "odd").data_bits, 8);
    assert_eq!(read_probe_ms(10), 10);
    assert_eq!(read_probe_ms(1000), 20);
}

#[test]
fn request_pdus() {
    assert_eq!(holding_request(0x0102, 0x0304), vec![3, 1, 2, 3, 4]);
    assert_eq!(input_request(0x0102, 0x0304), vec![4, 1, 2, 3, 4]);
    assert_eq!(write_register_request(0x0102, 0xABCD), vec![6, 1, 2, 0xAB, 0xCD]);
    assert_eq!(short_pdu(5, 1, 0xFF00), vec![5, 0, 1, 0xFF, 0]);
    assert_eq!(
        write_registers_request(0x0010, &[1, 0x0203]),
        vec![0x10, 0, 0x10, 0, 2, 4, 0, 1, 2, 3]
    );
    let many = write_registers_request(0, &vec![7u16; 200]);
    assert_eq!(many.len(), 406);
    assert_eq!(&many[..6], &[0x10, 0, 0, 0, 200, (400 % 256) as u8]);
}

#[test]
fn read_responses() {
    assert_eq!(decode_holding(&[3, 4, 0, 1, 0, 2]).unwrap(), vec![1, 2]);
    assert_eq!(decode_holding(&[3, 0]).unwrap(), Vec::<u16>::new());
    assert_eq!(decode_holding(&[3, 3, 0, 1, 2, 9]).unwrap(), vec![1, 0x0209]);
    assert_eq!(decode_holding(&[3]).unwrap_err().message(), "unexpected read response");
    assert_eq!(decode_holding(&[4, 0]).unwrap_err().message(), "unexpected read response");
    assert_eq!(decode_holding(&[3, 4, 0, 1]).unwrap_err().message(), "read response truncated");
    assert_eq!(decode_input(&[4, 2, 1, 2]).unwrap(), vec![0x0102]);
    assert_eq!(decode_input(&[3, 2, 1, 2]).unwrap_err().message(), "unexpected read-input response");
    assert!(has_whole_words(&[3, 3, 0, 0, 0, 0]));
    assert!(!has_whole_words(&[3, 3, 0, 0, 0]));
}

#[test]
fn a_master_reads_what_it_wrote() {
    let mut img = DataImage::default();
    let values = [10u16, 0xFFFF, 0, 513];
    img.handle_request(&write_registers_request(0x0100, &values)).unwrap();
    let resp = img.handle_request(&holding_request(0x0100, 4)).unwrap();
    assert_eq!(decode_holding(&resp).unwrap(), values.to_vec());
}

fn timeout() -> Result<Vec<u8>, ModbusError> {
    Err(ModbusError::Other("read body timeout".to_string()))
}

#[test]
fn attempts_until_done() {
    for (retries, total) in [(0u32, 2u32), (1, 2), (2, 3), (5, 6)] {
        let mut attempts = Attempts::new(retries);
        for _ in 1..total {
            assert!(matches!(attempts.on_result(timeout()), Attempt::Again));
        }
        match attempts.on_result(timeout()) {
            Attempt::Done(Err(e)) => assert_eq!(e.message(), "read body timeout"),
            other => panic!("{other:?}"),
        }
    }
    let mut attempts = Attempts::new(3);
    assert!(matches!(attempts.on_result(Ok(vec![1])), Attempt::Done(Ok(_))));
    let mut attempts = Attempts::new(3);
    assert!(matches!(
        attempts.on_result(Err(ModbusError::Exception(2))),
        Attempt::Done(Err(ModbusError::Exception(2)))
    ));
}

#[test]
fn a_frame_of_another_unit_is_no_echo() {
    let mut link = TcpLink::new();
    let (tid, tx) = link.begin(1, &[0x06, 0x00, 0x01, 0xAB, 0xCD]);
    let frame = encode_tcp(2, tid, &[0x06, 0x00, 0x01, 0xAB, 0xCD]);
    let mut blob = frame.clone();
    blob.extend_from_slice(&[0u8; 7]);
    link.on_read(TcpRead::Data(blob)).unwrap();
    let (rx, pdu) = link.poll(&tx, tid).unwrap().unwrap();
    assert_eq!(rx, frame);
    assert_eq!(pdu, vec![0x06, 0x00, 0x01, 0xAB, 0xCD]);
}

#[test]
fn what_a_read_of_a_udp_socket_means() {
    let answer = encode_tcp(1, 8, &[0x03, 2, 7, 9]);
    let read = UdpRead::Data(answer.clone());
    assert_eq!(on_mbap_read(&read, 8).unwrap().unwrap(), (answer, vec![0x03, 2, 7, 9]));
    assert!(on_mbap_read(&read, 9).is_none());
    assert!(on_mbap_read(&UdpRead::Data(vec![]), 8).is_none());
    assert!(on_mbap_read(&UdpRead::Data(vec![0, 8, 0, 0, 0, 0, 1]), 8).is_none());
    let refused = UdpRead::Data(encode_tcp(1, 8, &[0x83, 4]));
    assert!(matches!(on_mbap_read(&refused, 8), Some(Err(ModbusError::Exception(4)))));

    let answer = encode_rtu(5, &[0x03, 2, 7, 9]);
    let read = UdpRead::Data(answer.clone());
    assert_eq!(on_rtu_read(&read, 5).unwrap().unwrap(), (answer, vec![0x03, 2, 7, 9]));
    assert!(on_rtu_read(&read, 6).is_none());
    assert!(on_rtu_read(&UdpRead::Data(vec![]), 5).is_none());

    for outcome in [on_mbap_read(&UdpRead::TimedOut, 8), on_rtu_read(&UdpRead::TimedOut, 5)] {
        match outcome {
            Some(Err(ModbusError::Other(text))) => assert_eq!(text, "read body timeout"),
            other => panic!("{other:?}"),
        }
    }
    let failed = UdpRead::Failed("refused".to_string());
    for outcome in [on_mbap_read(&failed, 8), on_rtu_read(&failed, 5)] {
        match outcome {
            Some(Err(ModbusError::Io(text))) => assert_eq!(text, "refused"),
            other => panic!("{other:?}"),
        }
    }
}
