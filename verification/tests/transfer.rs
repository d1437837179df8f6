use esp32_wasm::checksum::{checksum, Checksum};
use esp32_wasm::error::Error;
use esp32_wasm::message::{Part, Payload};
use esp32_wasm::options::FileOptions;
use esp32_wasm::transfer::{Direction, FileTransferSession, Progress};

fn target() -> FileOptions {
    FileOptions { file_name: "cfg.json".to_string(), base_path: "/spiffs".to_string() }
}

fn pattern(len: usize) -> Vec<u8> {
    (0..len).map(|i| (i * 7 + i / 251) as u8).collect()
}

fn chunk_sizes_of_upload(data: Vec<u8>, chunk_size: u32) -> Vec<usize> {
    let mut session = FileTransferSession::upload(target(), data, chunk_size).unwrap();
    let mut sizes = Vec::new();
    loop {
        match session.next_part() {
            Part::Chunk { sequence, chunk_size: size, data } => {
                assert_eq!(sequence as usize, sizes.len());
                assert_eq!(size, chunk_size);
                sizes.push(data.len());
                assert_eq!(session.accept(&Payload::Ack { sequence }), Ok(Progress::Continue));
            }
            Part::Finalize => return sizes,
            other => panic!("unexpected part {:?}", other),
        }
    }
}

#[test]
fn checksum_of_known_inputs() {
    assert_eq!(checksum(b""), 1);
    assert_eq!(checksum(b"a"), 0x0062_0062);
    assert_eq!(checksum(b"abc"), 0x024d_0127);
    assert_eq!(checksum(b"Wikipedia"), 0x11e6_0398);
    assert_eq!(checksum(&[0u8; 1]), 0x0001_0001);
    assert_eq!(checksum(&[0xffu8; 4]), 0x09fa_03fd);
}

#[test]
fn checksum_wraps_at_the_modulus() {
    let data = vec![0xffu8; 5552 * 3];
    let mut low: u64 = 1;
    let mut high: u64 = 0;
    for byte in &data {
        low = (low + *byte as u64) % 65521;
        high = (high + low) % 65521;
    }
    assert_eq!(checksum(&data) as u64, high * 65536 + low);
    assert_eq!(checksum(&data), 0x29a0_d2b1);
}

#[test]
fn running_checksum_equals_checksum_of_whole() {
    let data = pattern(10_000);
    for cut in [0usize, 1, 511, 512, 513, 9_999, 10_000] {
        let mut running = Checksum::new();
        running.update(&data[..cut]);
        assert_eq!(running.value(), checksum(&data[..cut]));
        running.update(&data[cut..]);
        assert_eq!(running.value(), checksum(&data));
    }
}

#[test]
fn one_changed_byte_changes_the_checksum() {
    let data = pattern(2048);
    let sum = checksum(&data);
    for place in [0usize, 1, 700, 2047] {
        let mut other = data.clone();
        other[place] ^= 0x40;
        assert_ne!(checksum(&other), sum);
    }
}

#[test]
fn ten_kilobytes_in_chunks_of_512_make_twenty_chunks() {
    let sizes = chunk_sizes_of_upload(pattern(10 * 1024), 512);
    assert_eq!(sizes.len(), 20);
    assert!(sizes.iter().all(|size| *size == 512));
}

#[test]
fn last_chunk_may_be_short() {
    assert_eq!(chunk_sizes_of_upload(pattern(1000), 512), vec![512, 488]);
    assert_eq!(chunk_sizes_of_upload(pattern(1025), 512), vec![512, 512, 1]);
    assert_eq!(chunk_sizes_of_upload(pattern(1), 512), vec![1]);
    assert_eq!(chunk_sizes_of_upload(pattern(5), 1), vec![1, 1, 1, 1, 1]);
}

#[test]
fn empty_file_is_one_empty_chunk() {
    assert_eq!(chunk_sizes_of_upload(Vec::new(), 512), vec![0]);
}

#[test]
fn chunks_carry_the_file_in_order() {
    let data = pattern(3000);
    let mut session = FileTransferSession::upload(target(), data.clone(), 700).unwrap();
    let mut joined = Vec::new();
    while let Part::Chunk { sequence, data: chunk, .. } = session.next_part() {
        joined.extend_from_slice(&chunk);
        session.accept(&Payload::Ack { sequence }).unwrap();
        assert_eq!(session.transferred(), joined.len());
        assert_eq!(session.running_checksum(), checksum(&joined));
    }
    assert_eq!(joined, data);
    assert!(session.ended());
    assert_eq!(session.closing_checksum(), Some(checksum(&data)));
}

#[test]
fn chunk_size_of_zero_is_refused() {
    assert_eq!(
        FileTransferSession::upload(target(), vec![1, 2, 3], 0).err(),
        Some(Error::InvalidArgument)
    );
    assert_eq!(FileTransferSession::download(target(), 0).err(), Some(Error::InvalidArgument));
}

#[test]
fn upload_knows_its_size_and_never_passes_it() {
    let data = pattern(1300);
    let mut session = FileTransferSession::upload(target(), data, 512).unwrap();
    assert_eq!(session.direction(), Direction::Upload);
    assert_eq!(session.chunk_size(), 512);
    assert_eq!(session.target(), &target());
    assert_eq!(session.total(), Some(1300));
    assert_eq!(session.transferred(), 0);
    let mut seen = vec![0usize];
    for sequence in 0..3 {
        session.accept(&Payload::Ack { sequence }).unwrap();
        assert!(session.transferred() <= 1300);
        seen.push(session.transferred());
    }
    assert_eq!(seen, vec![0, 512, 1024, 1300]);
}

#[test]
fn acknowledgment_of_another_chunk_asks_for_a_retry() {
    let mut session = FileTransferSession::upload(target(), pattern(2000), 512).unwrap();
    assert_eq!(session.accept(&Payload::Ack { sequence: 0 }), Ok(Progress::Continue));
    let outstanding = session.next_part();
    for sequence in [0u32, 2, 3, 0xffff_ffff] {
        assert_eq!(session.accept(&Payload::Ack { sequence }), Ok(Progress::Retry));
        assert_eq!(session.next_part(), outstanding);
        assert_eq!(session.transferred(), 512);
    }
    assert_eq!(session.accept(&Payload::Ack { sequence: 1 }), Ok(Progress::Continue));
    assert_eq!(session.transferred(), 1024);
}

#[test]
fn payload_of_the_wrong_kind_is_a_protocol_error() {
    let mut upload = FileTransferSession::upload(target(), pattern(100), 512).unwrap();
    assert_eq!(upload.accept(&Payload::Checksum(1)), Err(Error::ProtocolError));
    assert_eq!(
        upload.accept(&Payload::Data { sequence: 0, last: true, data: vec![] }),
        Err(Error::ProtocolError)
    );
    assert_eq!(upload.accept(&Payload::Listing(vec![])), Err(Error::ProtocolError));
    assert_eq!(upload.transferred(), 0);
    upload.accept(&Payload::Ack { sequence: 0 }).unwrap();
    assert_eq!(upload.accept(&Payload::Ack { sequence: 1 }), Err(Error::ProtocolError));
    let mut download = FileTransferSession::download(target(), 512).unwrap();
    assert_eq!(download.accept(&Payload::Ack { sequence: 0 }), Err(Error::ProtocolError));
    assert_eq!(download.accept(&Payload::Checksum(1)), Err(Error::ProtocolError));
}

#[test]
fn upload_closes_on_the_matching_checksum_only() {
    let data = pattern(600);
    let sum = checksum(&data);
    let mut session = FileTransferSession::upload(target(), data, 512).unwrap();
    session.accept(&Payload::Ack { sequence: 0 }).unwrap();
    session.accept(&Payload::Ack { sequence: 1 }).unwrap();
    assert_eq!(session.next_part(), Part::Finalize);
    assert_eq!(session.accept(&Payload::Checksum(sum ^ 1)), Err(Error::IntegrityError));
    assert_eq!(session.accept(&Payload::Checksum(sum.wrapping_add(65536))), Err(Error::IntegrityError));
    assert_eq!(session.accept(&Payload::Checksum(sum)), Ok(Progress::Complete));
}

#[test]
fn download_asks_for_chunks_in_order_and_joins_them() {
    let file = pattern(1300);
    let mut session = FileTransferSession::download(target(), 512).unwrap();
    assert_eq!(session.direction(), Direction::Download);
    assert_eq!(session.total(), None);
    let mut requests = 0;
    while let Part::Fetch { sequence, chunk_size } = session.next_part() {
        assert_eq!(sequence, requests);
        assert_eq!(chunk_size, 512);
        requests += 1;
        let start = sequence as usize * 512;
        let end = (start + 512).min(file.len());
        let payload = Payload::Data { sequence, last: false, data: file[start..end].to_vec() };
        assert_eq!(session.accept(&payload), Ok(Progress::Continue));
        assert_eq!(session.transferred(), end);
    }
    assert_eq!(requests, 3);
    assert_eq!(session.next_part(), Part::Finalize);
    assert_eq!(session.total(), Some(1300));
    assert_eq!(session.accept(&Payload::Checksum(checksum(&file))), Ok(Progress::Complete));
    assert_eq!(session.into_content(), file);
}

#[test]
fn download_ends_on_the_end_marker() {
    let mut session = FileTransferSession::download(target(), 4).unwrap();
    let first = Payload::Data { sequence: 0, last: false, data: vec![1, 2, 3, 4] };
    let second = Payload::Data { sequence: 1, last: true, data: vec![5, 6, 7, 8] };
    assert_eq!(session.accept(&first), Ok(Progress::Continue));
    assert!(!session.ended());
    assert_eq!(session.accept(&second), Ok(Progress::Continue));
    assert!(session.ended());
    assert_eq!(session.next_part(), Part::Finalize);
    assert_eq!(session.into_content(), vec![1, 2, 3, 4, 5, 6, 7, 8]);
}

#[test]
fn download_of_an_empty_file() {
    let mut session = FileTransferSession::download(target(), 512).unwrap();
    assert_eq!(session.next_part(), Part::Fetch { sequence: 0, chunk_size: 512 });
    let empty = Payload::Data { sequence: 0, last: true, data: vec![] };
    assert_eq!(session.accept(&empty), Ok(Progress::Continue));
    assert_eq!(session.next_part(), Part::Finalize);
    assert_eq!(session.accept(&Payload::Checksum(1)), Ok(Progress::Complete));
    assert_eq!(session.into_content(), Vec::<u8>::new());
}

#[test]
fn download_refuses_a_chunk_longer_than_asked_for() {
    let mut session = FileTransferSession::download(target(), 4).unwrap();
    let long = Payload::Data { sequence: 0, last: true, data: vec![0; 5] };
    assert_eq!(session.accept(&long), Err(Error::ProtocolError));
    assert_eq!(session.transferred(), 0);
}

#[test]
fn download_rejects_a_chunk_with_another_sequence_number() {
    let mut session = FileTransferSession::download(target(), 4).unwrap();
    let other = Payload::Data { sequence: 1, last: false, data: vec![1, 2, 3, 4] };
    assert_eq!(session.accept(&other), Ok(Progress::Retry));
    assert_eq!(session.transferred(), 0);
    assert_eq!(session.next_part(), Part::Fetch { sequence: 0, chunk_size: 4 });
}

#[test]
fn download_detects_a_corrupted_chunk_at_the_close() {
    let file = pattern(1000);
    let mut corrupted = file.clone();
    corrupted[600] ^= 1;
    let mut session = FileTransferSession::download(target(), 512).unwrap();
    let first = Payload::Data { sequence: 0, last: false, data: corrupted[..512].to_vec() };
    let second = Payload::Data { sequence: 1, last: true, data: corrupted[512..].to_vec() };
    session.accept(&first).unwrap();
    session.accept(&second).unwrap();
    assert_eq!(session.accept(&Payload::Checksum(checksum(&file))), Err(Error::IntegrityError));
}
