use esp32_wasm::codec::{
    decode_request, decode_response, encode_command, encode_request, encode_response, frame_len,
    HEADER_LEN,
};
use esp32_wasm::error::Error;
use esp32_wasm::message::{DirEntry, Part, Payload, Reply, Request, Response};
use esp32_wasm::options::{
    Command, FileCommand, FileOptions, ListOptions, TaskCommand, TaskOptions,
};
use esp32_wasm::task::TaskState;

fn file(name: &str, base: &str) -> FileOptions {
    FileOptions { file_name: name.to_string(), base_path: base.to_string() }
}

fn every_command() -> Vec<Command> {
    vec![
        Command::File(FileCommand::ListDir(ListOptions { base_path: "/spiffs".to_string() })),
        Command::File(FileCommand::Upload(file("cfg.json", "/spiffs"))),
        Command::File(FileCommand::Download(file("cfg.json", "/spiffs"))),
        Command::Task(TaskCommand::Load(TaskOptions {
            task_name: "wasm_main".to_string(),
            file_path: "/spiffs/main.wasm".to_string(),
        })),
        Command::Task(TaskCommand::Start),
        Command::Task(TaskCommand::Stop),
        Command::Task(TaskCommand::Unload),
        Command::Task(TaskCommand::Status),
    ]
}

fn every_part() -> Vec<Part> {
    vec![
        Part::Whole,
        Part::Chunk { sequence: 3, chunk_size: 512, data: vec![1, 2, 3, 255, 0] },
        Part::Chunk { sequence: 0, chunk_size: 1, data: vec![] },
        Part::Fetch { sequence: 0xffff_ffff, chunk_size: 4096 },
        Part::Finalize,
    ]
}

fn every_reply() -> Vec<Reply> {
    let mut replies = vec![
        Reply::Success(Payload::Listing(vec![])),
        Reply::Success(Payload::Listing(vec![
            DirEntry { name: "main.wasm".to_string(), size: 4096 },
            DirEntry { name: "cfg.json".to_string(), size: 0 },
            DirEntry { name: "größe.bin".to_string(), size: u64::MAX },
        ])),
        Reply::Success(Payload::Ack { sequence: 19 }),
        Reply::Success(Payload::Data { sequence: 2, last: false, data: vec![9; 512] }),
        Reply::Success(Payload::Data { sequence: 3, last: true, data: vec![] }),
        Reply::Success(Payload::Checksum(0x11e6_0398)),
    ];
    for state in [TaskState::Unloaded, TaskState::Loaded, TaskState::Running, TaskState::Stopped] {
        replies.push(Reply::Success(Payload::Task(state)));
    }
    for kind in [
        Error::InvalidArgument,
        Error::TransportError,
        Error::ProtocolError,
        Error::InvalidState,
        Error::IntegrityError,
        Error::DeviceError,
    ] {
        replies.push(Reply::Failure(kind, "no such file".to_string()));
    }
    replies
}

#[test]
fn request_round_trip_for_every_command_and_part() {
    let mut id = 0u32;
    for command in every_command() {
        for part in every_part() {
            id = id.wrapping_mul(31).wrapping_add(0x0101_0101);
            let request = Request { id, command: command.clone(), part: part.clone() };
            let frame = encode_request(&request).expect("fits a frame");
            assert_eq!(decode_request(&frame), Ok(request));
        }
    }
}

#[test]
fn command_round_trip_for_every_command() {
    for command in every_command() {
        let frame = encode_command(42, &command).expect("fits a frame");
        let back = decode_request(&frame).expect("is a request");
        assert_eq!(back.id, 42);
        assert_eq!(back.command, command);
        assert_eq!(back.part, Part::Whole);
    }
}

#[test]
fn response_round_trip_for_every_reply() {
    let mut id = 7u32;
    for reply in every_reply() {
        id = id.wrapping_mul(17).wrapping_add(3);
        let response = Response { id, reply };
        let frame = encode_response(&response).expect("fits a frame");
        assert_eq!(decode_response(&frame), Ok(response));
    }
}

#[test]
fn frame_of_start_is_exact() {
    let frame = encode_command(7, &Command::Task(TaskCommand::Start)).unwrap();
    assert_eq!(frame, vec![7, 0, 0, 0, 5, 1, 0, 0, 0, 0]);
}

#[test]
fn frame_of_list_dir_is_exact() {
    let command =
        Command::File(FileCommand::ListDir(ListOptions { base_path: "/spiffs".to_string() }));
    let frame = encode_command(0x0102_0304, &command).unwrap();
    let mut expected = vec![4, 3, 2, 1, 1, 12, 0, 0, 0, 7, 0, 0, 0];
    expected.extend_from_slice(b"/spiffs");
    expected.push(0);
    assert_eq!(frame, expected);
}

#[test]
fn frame_of_chunk_is_exact() {
    let request = Request {
        id: 1,
        command: Command::File(FileCommand::Upload(file("a", "/d"))),
        part: Part::Chunk { sequence: 2, chunk_size: 4, data: vec![0xaa, 0xbb] },
    };
    let frame = encode_request(&request).unwrap();
    let expected: Vec<u8> = vec![
        1, 0, 0, 0, // identifier
        2, // upload
        26, 0, 0, 0, // length of the body
        1, 0, 0, 0, b'a', // file name
        2, 0, 0, 0, b'/', b'd', // base path
        1, // chunk
        2, 0, 0, 0, // sequence
        4, 0, 0, 0, // chunk size
        2, 0, 0, 0, 0xaa, 0xbb, // data
    ];
    assert_eq!(frame, expected);
}

#[test]
fn frame_of_failure_is_exact() {
    let response =
        Response { id: 9, reply: Reply::Failure(Error::DeviceError, "no".to_string()) };
    let frame = encode_response(&response).unwrap();
    assert_eq!(frame, vec![9, 0, 0, 0, 0x81, 7, 0, 0, 0, 6, 2, 0, 0, 0, b'n', b'o']);
}

#[test]
fn frame_of_task_status_is_exact() {
    let response = Response { id: 3, reply: Reply::Success(Payload::Task(TaskState::Running)) };
    let frame = encode_response(&response).unwrap();
    assert_eq!(frame, vec![3, 0, 0, 0, 0x80, 2, 0, 0, 0, 5, 2]);
}

#[test]
fn empty_input_is_refused() {
    assert_eq!(decode_request(&[]), Err(Error::ProtocolError));
    assert_eq!(decode_response(&[]), Err(Error::ProtocolError));
}

#[test]
fn truncated_header_is_refused() {
    let frame = encode_command(7, &Command::Task(TaskCommand::Start)).unwrap();
    for cut in 0..frame.len() {
        assert_eq!(decode_request(&frame[..cut]), Err(Error::ProtocolError), "cut at {}", cut);
    }
}

#[test]
fn truncated_payload_is_refused() {
    let response = Response {
        id: 1,
        reply: Reply::Success(Payload::Data { sequence: 0, last: true, data: vec![1, 2, 3, 4] }),
    };
    let frame = encode_response(&response).unwrap();
    for cut in 0..frame.len() {
        assert_eq!(decode_response(&frame[..cut]), Err(Error::ProtocolError), "cut at {}", cut);
    }
}

#[test]
fn bad_length_is_refused() {
    let good = encode_command(7, &Command::Task(TaskCommand::Start)).unwrap();
    let mut longer = good.clone();
    longer[5] = 2;
    assert_eq!(decode_request(&longer), Err(Error::ProtocolError));
    let mut shorter = good.clone();
    shorter[5] = 0;
    assert_eq!(decode_request(&shorter), Err(Error::ProtocolError));
    let mut huge = good;
    huge[8] = 0xff;
    assert_eq!(decode_request(&huge), Err(Error::ProtocolError));
}

#[test]
fn trailing_bytes_are_refused() {
    let mut frame = encode_command(7, &Command::Task(TaskCommand::Start)).unwrap();
    frame.push(0);
    assert_eq!(decode_request(&frame), Err(Error::ProtocolError));
    let mut padded = vec![7, 0, 0, 0, 5, 2, 0, 0, 0, 0, 0];
    assert_eq!(decode_request(&padded), Err(Error::ProtocolError));
    padded[5] = 1;
    padded.pop();
    assert!(decode_request(&padded).is_ok());
}

#[test]
fn unknown_tag_is_refused() {
    for tag in [0u8, 9, 0x7f, 0x80, 0x81, 0xff] {
        assert_eq!(
            decode_request(&[7, 0, 0, 0, tag, 1, 0, 0, 0, 0]),
            Err(Error::ProtocolError),
            "tag {}",
            tag
        );
    }
    for tag in [0u8, 1, 5, 0x7f, 0x82, 0xff] {
        assert_eq!(
            decode_response(&[7, 0, 0, 0, tag, 2, 0, 0, 0, 5, 2]),
            Err(Error::ProtocolError),
            "tag {}",
            tag
        );
    }
}

#[test]
fn unknown_part_is_refused() {
    assert_eq!(decode_request(&[7, 0, 0, 0, 5, 1, 0, 0, 0, 4]), Err(Error::ProtocolError));
}

#[test]
fn unknown_payload_kind_is_refused() {
    assert_eq!(decode_response(&[3, 0, 0, 0, 0x80, 2, 0, 0, 0, 6, 2]), Err(Error::ProtocolError));
    assert_eq!(decode_response(&[3, 0, 0, 0, 0x80, 2, 0, 0, 0, 0, 2]), Err(Error::ProtocolError));
}

#[test]
fn unknown_task_state_is_refused() {
    assert_eq!(decode_response(&[3, 0, 0, 0, 0x80, 2, 0, 0, 0, 5, 4]), Err(Error::ProtocolError));
}

#[test]
fn unknown_error_kind_is_refused() {
    assert_eq!(
        decode_response(&[9, 0, 0, 0, 0x81, 5, 0, 0, 0, 0, 0, 0, 0, 0]),
        Err(Error::ProtocolError)
    );
    assert_eq!(
        decode_response(&[9, 0, 0, 0, 0x81, 5, 0, 0, 0, 7, 0, 0, 0, 0]),
        Err(Error::ProtocolError)
    );
    assert_eq!(
        decode_response(&[9, 0, 0, 0, 0x81, 5, 0, 0, 0, 6, 0, 0, 0, 0]),
        Ok(Response { id: 9, reply: Reply::Failure(Error::DeviceError, String::new()) })
    );
}

#[test]
fn flag_other_than_zero_or_one_is_refused() {
    let response = Response {
        id: 1,
        reply: Reply::Success(Payload::Data { sequence: 0, last: true, data: vec![] }),
    };
    let mut frame = encode_response(&response).unwrap();
    assert_eq!(frame[14], 1);
    frame[14] = 2;
    assert_eq!(decode_response(&frame), Err(Error::ProtocolError));
    frame[14] = 0;
    assert_eq!(
        decode_response(&frame),
        Ok(Response {
            id: 1,
            reply: Reply::Success(Payload::Data { sequence: 0, last: false, data: vec![] }),
        })
    );
}

#[test]
fn text_that_is_not_utf8_is_refused() {
    let command = Command::File(FileCommand::ListDir(ListOptions { base_path: "ab".to_string() }));
    let mut frame = encode_command(1, &command).unwrap();
    assert_eq!(&frame[13..15], b"ab");
    frame[13] = 0xff;
    assert_eq!(decode_request(&frame), Err(Error::ProtocolError));
    frame[13] = 0xc3;
    frame[14] = 0xa4;
    let back = decode_request(&frame).unwrap();
    assert_eq!(
        back.command,
        Command::File(FileCommand::ListDir(ListOptions { base_path: "ä".to_string() }))
    );
}

#[test]
fn listing_with_too_few_entries_is_refused() {
    let response = Response {
        id: 1,
        reply: Reply::Success(Payload::Listing(vec![DirEntry { name: "a".to_string(), size: 1 }])),
    };
    let mut frame = encode_response(&response).unwrap();
    assert_eq!(frame[10], 1);
    frame[10] = 2;
    assert_eq!(decode_response(&frame), Err(Error::ProtocolError));
    frame[10] = 0;
    assert_eq!(decode_response(&frame), Err(Error::ProtocolError));
}

#[test]
fn text_outside_ascii_survives() {
    let command = Command::File(FileCommand::Upload(file("größe-日本.bin", "/späß")));
    let frame = encode_command(5, &command).unwrap();
    assert_eq!(decode_request(&frame).unwrap().command, command);
}

#[test]
fn frame_len_reads_the_header() {
    let request = Request {
        id: 1,
        command: Command::File(FileCommand::Upload(file("a", "/d"))),
        part: Part::Chunk { sequence: 2, chunk_size: 4, data: vec![0xaa, 0xbb] },
    };
    let frame = encode_request(&request).unwrap();
    assert_eq!(HEADER_LEN, 9);
    assert_eq!(frame_len(&frame[..HEADER_LEN]), Some(frame.len()));
    assert_eq!(frame_len(&frame), Some(frame.len()));
    assert_eq!(frame_len(&frame[..8]), None);
    assert_eq!(frame_len(&[]), None);
    assert_eq!(frame_len(&[0, 0, 0, 0, 0, 0, 1, 0, 0]), Some(9 + 256));
}
