use resumable_relay::codec::{decode_be, encode_be, parse_unsigned, push_decimal};
use resumable_relay::handshake::{
    announced_total, decode_header_prefix, decode_name, decode_request, encode_header,
    encode_request, HandshakeError,
};
use resumable_relay::progress::{bytes_per_second, percent_complete};
use resumable_relay::receiver::{DiskOp, Phase, ReceiveError, Receiver};
use resumable_relay::redirector::{
    origin_remaining, range_header, resource_name, OriginEvent, RelayAction, RelayError,
    RelayPhase, RelaySession,
};

/// A destination file and a resume record kept in memory.
struct Disk {
    file: Vec<u8>,
    record: Option<Vec<u8>>,
}

impl Disk {
    fn record_bytes(&self) -> Vec<u8> {
        self.record.clone().unwrap_or_default()
    }

    fn record_value(&self) -> u64 {
        let b = self.record_bytes();
        if b.len() >= 8 {
            decode_be(&b, 8)
        } else {
            0
        }
    }

    fn apply(&mut self, op: DiskOp) {
        match op {
            DiskOp::Append(b) => self.file.extend_from_slice(&b),
            DiskOp::WriteRecord(b) => {
                let mut r = self.record_bytes();
                if r.len() < b.len() {
                    r.resize(b.len(), 0);
                }
                r[..b.len()].copy_from_slice(&b);
                self.record = Some(r);
            }
            DiskOp::RemoveRecord => self.record = None,
        }
    }
}

fn resource(n: usize) -> Vec<u8> {
    (0..n).map(|i| (i * 7 % 251) as u8).collect()
}

/// Runs the receiver against a redirector serving `origin`, feeding at most
/// `limit` payload bytes (all of them when `None`) in chunks of `chunk`.
fn run_receiver(disk: &mut Disk, origin: &[u8], chunk: usize, limit: Option<usize>) -> Receiver {
    if disk.record.is_none() {
        disk.record = Some(Vec::new());
    }
    let mut rx = Receiver::from_record(&disk.record_bytes());
    let request = rx.request();
    let session = RelaySession::from_request(&request).unwrap();
    let offset = session.offset() as usize;
    let rest = &origin[offset..];
    let len_text = rest.len().to_string();
    let header = session
        .answer(Some(len_text.as_bytes()), "http://origin/files/data.bin")
        .unwrap();
    let (remaining, name_len) = decode_header_prefix(&header).unwrap();
    let name = header[10..10 + name_len as usize].to_vec();
    let text = rx.accept_header(remaining, name).unwrap();
    assert_eq!(text, "data.bin");
    let mut fed = 0usize;
    for piece in rest.chunks(chunk) {
        if let Some(l) = limit {
            if fed + piece.len() > l {
                return rx;
            }
        }
        fed += piece.len();
        for op in rx.on_read(piece.to_vec()).unwrap() {
            disk.apply(op);
            assert!(disk.record_value() <= disk.file.len() as u64);
        }
    }
    if limit.is_none() {
        for op in rx.on_read(Vec::new()).unwrap() {
            disk.apply(op);
        }
    }
    rx
}

#[test]
fn encode_be_gives_big_endian_bytes() {
    assert_eq!(encode_be(0x0102030405060708, 8), vec![1, 2, 3, 4, 5, 6, 7, 8]);
    assert_eq!(encode_be(400, 2), vec![1, 144]);
    assert_eq!(encode_be(0, 8), vec![0; 8]);
    assert_eq!(encode_be(u64::MAX, 8), vec![255; 8]);
}

#[test]
fn decode_be_reads_the_first_bytes() {
    assert_eq!(decode_be(&[1, 2, 3, 4, 5, 6, 7, 8, 9], 8), 0x0102030405060708);
    assert_eq!(decode_be(&[1, 144], 2), 400);
    assert_eq!(decode_be(&encode_be(123456789, 8), 8), 123456789);
}

#[test]
fn decimal_text_both_ways() {
    let mut out = b"x".to_vec();
    push_decimal(0, &mut out);
    push_decimal(1234567890, &mut out);
    assert_eq!(out, b"x01234567890".to_vec());
    assert_eq!(parse_unsigned(b"600"), Some(600));
    assert_eq!(parse_unsigned(b"+7"), Some(7));
    assert_eq!(parse_unsigned(b"18446744073709551615"), Some(u64::MAX));
    assert_eq!(parse_unsigned(b"18446744073709551616"), None);
    assert_eq!(parse_unsigned(b""), None);
    assert_eq!(parse_unsigned(b"+"), None);
    assert_eq!(parse_unsigned(b"-1"), None);
    assert_eq!(parse_unsigned(b"12a"), None);
    assert_eq!(parse_unsigned(b" 12"), None);
}

#[test]
fn request_round_trip() {
    let r = encode_request(400);
    assert_eq!(r, vec![0, 0, 0, 0, 0, 0, 1, 144]);
    assert_eq!(decode_request(&r), Some(400));
    assert_eq!(decode_request(&[1, 2, 3]), None);
}

#[test]
fn announced_total_is_never_zero() {
    assert_eq!(announced_total(0), 1);
    assert_eq!(announced_total(600), 600);
    let header = encode_header(0, "a").unwrap();
    assert_eq!(decode_header_prefix(&header), Some((1, 1)));
}

#[test]
fn header_layout() {
    let h = encode_header(600, "file.bin").unwrap();
    let mut expected = vec![0, 0, 0, 0, 0, 0, 2, 88, 0, 8];
    expected.extend_from_slice(b"file.bin");
    assert_eq!(h, expected);
    assert_eq!(decode_header_prefix(&h[..9]), None);
}

#[test]
fn header_name_length_limit() {
    let longest = "a".repeat(65535);
    let h = encode_header(5, &longest).unwrap();
    assert_eq!(decode_header_prefix(&h), Some((5, 65535)));
    assert_eq!(h.len(), 10 + 65535);
    let too_long = "a".repeat(65536);
    assert_eq!(encode_header(5, &too_long), Err(HandshakeError::NameTooLong));
}

#[test]
fn name_round_trip_keeps_unicode() {
    let name = "résumé-データ.tar";
    let h = encode_header(42, name).unwrap();
    let (total, len) = decode_header_prefix(&h).unwrap();
    assert_eq!(total, 42);
    assert_eq!(len as usize, name.len());
    let got = decode_name(h[10..].to_vec()).unwrap();
    assert_eq!(got, name);
}

#[test]
fn invalid_name_is_refused() {
    assert_eq!(decode_name(vec![0xff, 0xfe]), None);
    assert_eq!(decode_name(vec![0xc3]), None);
    assert_eq!(decode_name(b"ok".to_vec()), Some("ok".to_string()));
}

#[test]
fn resume_offset_from_record_bytes() {
    assert_eq!(Receiver::from_record(&[]).resume_offset(), 0);
    assert_eq!(Receiver::from_record(&[0, 0, 0, 0, 0]).resume_offset(), 0);
    assert_eq!(Receiver::from_record(&encode_be(400, 8)).resume_offset(), 400);
    let mut longer = encode_be(9, 8);
    longer.extend_from_slice(&[1, 2]);
    assert_eq!(Receiver::from_record(&longer).resume_offset(), 9);
    assert_eq!(Receiver::from_record(&[]).phase(), Phase::Handshaking);
}

#[test]
fn receiver_aborts_on_invalid_name_before_any_write() {
    let mut rx = Receiver::from_record(&[]);
    assert_eq!(rx.accept_header(10, vec![0xc3]), Err(ReceiveError::InvalidName));
    assert_eq!(rx.phase(), Phase::Aborted);
    assert!(matches!(rx.on_read(vec![1, 2, 3]), Err(ReceiveError::OutOfOrder)));
    assert_eq!(rx.received(), 0);
}

#[test]
fn receiver_refuses_events_out_of_order() {
    let mut rx = Receiver::from_record(&[]);
    assert!(matches!(rx.on_read(vec![1]), Err(ReceiveError::OutOfOrder)));
    assert_eq!(rx.phase(), Phase::Handshaking);
    rx.accept_header(3, b"f".to_vec()).unwrap();
    assert_eq!(rx.accept_header(3, b"f".to_vec()), Err(ReceiveError::OutOfOrder));
    assert_eq!(rx.phase(), Phase::Streaming);
    rx.on_read(Vec::new()).unwrap();
    assert_eq!(rx.phase(), Phase::Completed);
    assert!(matches!(rx.on_read(vec![1]), Err(ReceiveError::OutOfOrder)));
}

#[test]
fn receiver_total_size_floor() {
    let mut rx = Receiver::from_record(&[]);
    rx.accept_header(0, b"empty".to_vec()).unwrap();
    assert_eq!(rx.total_size(), 1);
    assert_eq!(rx.percent_done(), 0);
    let mut rx = Receiver::from_record(&encode_be(400, 8));
    rx.accept_header(600, b"f".to_vec()).unwrap();
    assert_eq!(rx.total_size(), 1000);
    assert_eq!(rx.percent_done(), 40);
}

#[test]
fn receiver_total_size_saturates() {
    let mut rx = Receiver::from_record(&encode_be(u64::MAX - 1, 8));
    rx.accept_header(5, b"f".to_vec()).unwrap();
    assert_eq!(rx.total_size(), u64::MAX);
}

#[test]
fn receiver_counter_overflow() {
    let mut rx = Receiver::from_record(&encode_be(u64::MAX - 1, 8));
    rx.accept_header(5, b"f".to_vec()).unwrap();
    let ops = rx.on_read(vec![7]).unwrap();
    assert_eq!(ops.len(), 2);
    assert_eq!(rx.committed(), u64::MAX);
    assert!(matches!(rx.on_read(vec![8]), Err(ReceiveError::CounterOverflow)));
    assert_eq!(rx.phase(), Phase::Aborted);
}

#[test]
fn chunk_yields_append_then_checkpoint() {
    let mut rx = Receiver::from_record(&encode_be(10, 8));
    rx.accept_header(20, b"f".to_vec()).unwrap();
    let ops = rx.on_read(vec![1, 2, 3]).unwrap();
    assert_eq!(ops.len(), 2);
    assert!(matches!(&ops[0], DiskOp::Append(b) if *b == vec![1, 2, 3]));
    assert!(matches!(&ops[1], DiskOp::WriteRecord(b) if *b == encode_be(13, 8)));
    let ops = rx.on_read(Vec::new()).unwrap();
    assert_eq!(ops.len(), 1);
    assert!(matches!(ops[0], DiskOp::RemoveRecord));
}

#[test]
fn checkpoint_follows_every_chunk() {
    let mut disk = Disk { file: vec![9; 10], record: Some(encode_be(10, 8)) };
    let mut rx = Receiver::from_record(&disk.record_bytes());
    rx.accept_header(15, b"f".to_vec()).unwrap();
    let mut sum = 0u64;
    for len in [3usize, 5, 7] {
        for op in rx.on_read(vec![len as u8; len]).unwrap() {
            disk.apply(op);
            assert!(disk.record_value() <= disk.file.len() as u64);
        }
        sum += len as u64;
        assert_eq!(disk.record_value(), 10 + sum);
        assert_eq!(rx.committed(), 10 + sum);
    }
    assert_eq!(disk.file.len(), 25);
}

#[test]
fn completion_removes_record() {
    let origin = resource(300);
    let mut disk = Disk { file: Vec::new(), record: None };
    let rx = run_receiver(&mut disk, &origin, 64, None);
    assert_eq!(rx.phase(), Phase::Completed);
    assert!(disk.record.is_none());
    assert_eq!(disk.file.len() as u64, rx.resume_offset() + rx.received());
    assert_eq!(disk.file, origin);
}

#[test]
fn restart_gives_same_file_as_one_run() {
    let origin = resource(5000);
    let mut single = Disk { file: Vec::new(), record: None };
    run_receiver(&mut single, &origin, 1024, None);

    let mut split = Disk { file: Vec::new(), record: None };
    let first = run_receiver(&mut split, &origin, 333, Some(2000));
    assert_eq!(first.phase(), Phase::Streaming);
    assert_eq!(split.record_value(), 1998);
    let second = run_receiver(&mut split, &origin, 500, None);
    assert_eq!(second.resume_offset(), 1998);
    assert_eq!(split.file, single.file);
    assert_eq!(split.file, origin);
    assert!(split.record.is_none());
}

#[test]
fn interrupted_thousand_byte_transfer() {
    let origin = resource(1000);
    let mut disk = Disk { file: Vec::new(), record: None };
    let first = run_receiver(&mut disk, &origin, 100, Some(400));
    assert_eq!(first.received(), 400);
    assert_eq!(disk.record_value(), 400);
    assert_eq!(disk.file.len(), 400);

    let mut rx = Receiver::from_record(&disk.record_bytes());
    let request = rx.request();
    assert_eq!(decode_request(&request), Some(400));
    let session = RelaySession::from_request(&request).unwrap();
    assert_eq!(session.offset(), 400);
    assert_eq!(session.range(), b"bytes=400-".to_vec());
    let header = session.answer(Some(b"600"), "http://o/f.bin").unwrap();
    let (remaining, name_len) = decode_header_prefix(&header).unwrap();
    assert_eq!(remaining, 600);
    rx.accept_header(remaining, header[10..10 + name_len as usize].to_vec()).unwrap();
    assert_eq!(rx.total_size(), 1000);
    for piece in origin[400..].chunks(128) {
        for op in rx.on_read(piece.to_vec()).unwrap() {
            disk.apply(op);
        }
    }
    for op in rx.on_read(Vec::new()).unwrap() {
        disk.apply(op);
    }
    assert_eq!(rx.received(), 600);
    assert_eq!(disk.file.len(), 1000);
    assert_eq!(disk.file, origin);
    assert!(disk.record.is_none());
}

#[test]
fn percent_and_rate() {
    assert_eq!(percent_complete(400, 1000), 40);
    assert_eq!(percent_complete(1, 3), 33);
    assert_eq!(percent_complete(u64::MAX, 1), u64::MAX as u128 * 100);
    assert_eq!(bytes_per_second(1000, 500_000), 2000);
    assert_eq!(bytes_per_second(5, 0), u64::MAX);
    assert_eq!(bytes_per_second(u64::MAX, 1), u64::MAX);
}

#[test]
fn resource_name_is_last_segment() {
    assert_eq!(resource_name("http://host/dir/file.iso"), "file.iso");
    assert_eq!(resource_name("noslash"), "noslash");
    assert_eq!(resource_name("http://host/"), "");
    assert_eq!(resource_name("http://h/é/naïve.txt"), "naïve.txt");
}

#[test]
fn range_header_values() {
    assert_eq!(range_header(0), b"bytes=0-".to_vec());
    assert_eq!(range_header(400), b"bytes=400-".to_vec());
    assert_eq!(range_header(u64::MAX), b"bytes=18446744073709551615-".to_vec());
}

#[test]
fn origin_remaining_from_content_length() {
    assert_eq!(origin_remaining(None), Ok(0));
    assert_eq!(origin_remaining(Some(b"600")), Ok(600));
    assert_eq!(origin_remaining(Some(b"+7")), Ok(7));
    assert_eq!(origin_remaining(Some(b"abc")), Err(RelayError::BadContentLength));
    assert_eq!(origin_remaining(Some(b"")), Err(RelayError::BadContentLength));
}

#[test]
fn relay_session_forwards_and_counts() {
    let mut s = RelaySession::from_request(&encode_be(100, 8)).unwrap();
    assert_eq!(s.sent(), 100);
    let mut payload = Vec::new();
    for chunk in [vec![1u8, 2, 3], vec![], vec![4, 5]] {
        match s.on_origin(OriginEvent::Chunk(chunk.clone())) {
            RelayAction::Forward(b) => {
                assert_eq!(b, chunk);
                payload.extend_from_slice(&b);
            }
            other => panic!("unexpected {other:?}"),
        }
        assert_eq!(s.sent(), 100 + payload.len() as u64);
    }
    assert_eq!(payload, vec![1, 2, 3, 4, 5]);
    assert_eq!(s.offset(), 100);
    assert!(matches!(s.on_origin(OriginEvent::End), RelayAction::Finish));
    assert_eq!(s.phase(), RelayPhase::Finished);
    assert!(matches!(
        s.on_origin(OriginEvent::Chunk(vec![9])),
        RelayAction::Fail(RelayError::OutOfOrder)
    ));
    assert_eq!(s.sent(), 105);
    assert!(RelaySession::from_request(&[0; 7]).is_none());
}

#[test]
fn relay_session_fails_on_origin_error() {
    let mut s = RelaySession::from_request(&encode_be(0, 8)).unwrap();
    assert!(matches!(s.on_origin(OriginEvent::Chunk(vec![1])), RelayAction::Forward(_)));
    assert!(matches!(
        s.on_origin(OriginEvent::Failed),
        RelayAction::Fail(RelayError::OriginFailed)
    ));
    assert_eq!(s.phase(), RelayPhase::Failed);
    assert_eq!(s.sent(), 1);
}

#[test]
fn relay_session_counter_overflow() {
    let mut s = RelaySession::from_request(&encode_be(u64::MAX - 1, 8)).unwrap();
    assert!(matches!(s.on_origin(OriginEvent::Chunk(vec![1])), RelayAction::Forward(_)));
    assert!(matches!(
        s.on_origin(OriginEvent::Chunk(vec![2])),
        RelayAction::Fail(RelayError::CounterOverflow)
    ));
    assert_eq!(s.phase(), RelayPhase::Failed);
    assert_eq!(s.sent(), u64::MAX);
}

#[test]
fn relay_answer_errors() {
    let s = RelaySession::from_request(&encode_be(0, 8)).unwrap();
    assert_eq!(s.answer(Some(b"x1"), "http://o/f"), Err(RelayError::BadContentLength));
    let url = format!("http://o/{}", "n".repeat(70000));
    assert_eq!(s.answer(Some(b"1"), &url), Err(RelayError::NameTooLong));
    let h = s.answer(None, "http://o/f").unwrap();
    assert_eq!(decode_header_prefix(&h), Some((1, 1)));
}
