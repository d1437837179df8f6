use esp32_wasm::checksum::checksum;
use esp32_wasm::codec::{decode_request, decode_response, encode_request, encode_response};
use esp32_wasm::device::Device;
use esp32_wasm::error::Error;
use esp32_wasm::message::{DirEntry, Part, Payload, Reply, Request, Response};
use esp32_wasm::options::{
    ClientOptions, Command, FileCommand, FileOptions, ListOptions, TaskCommand, TaskOptions,
};
use esp32_wasm::session::{
    Action, Client, ConnectionState, Outcome, DEFAULT_ATTEMPTS, DEFAULT_CHUNK_SIZE,
};
use esp32_wasm::task::TaskState;

fn options() -> ClientOptions {
    ClientOptions { target_address: "192.168.3.59".to_string() }
}

fn connected() -> Client {
    let mut client = Client::new(&options());
    client.connecting();
    client.connected();
    client
}

fn connected_with(max_attempts: u32, chunk_size: u32) -> Client {
    let mut client = Client::with_limits(&options(), max_attempts, chunk_size).unwrap();
    client.connecting();
    client.connected();
    client
}

fn file(name: &str) -> FileOptions {
    FileOptions { file_name: name.to_string(), base_path: "/spiffs".to_string() }
}

fn upload(name: &str) -> Command {
    Command::File(FileCommand::Upload(file(name)))
}

fn download(name: &str) -> Command {
    Command::File(FileCommand::Download(file(name)))
}

fn list() -> Command {
    Command::File(FileCommand::ListDir(ListOptions { base_path: "/spiffs".to_string() }))
}

fn load() -> Command {
    Command::Task(TaskCommand::Load(TaskOptions {
        task_name: "wasm_main".to_string(),
        file_path: "/spiffs/main.wasm".to_string(),
    }))
}

fn task(command: TaskCommand) -> Command {
    Command::Task(command)
}

fn failed(kind: Error) -> Action {
    Action::Fail(kind, String::new())
}

fn pattern(len: usize) -> Vec<u8> {
    (0..len).map(|i| (i * 13 + i / 199) as u8).collect()
}

/// What went over the wire during one command.
struct Trace {
    requests: Vec<Request>,
    result: Result<Outcome, (Error, String)>,
}

impl Trace {
    fn chunks(&self) -> usize {
        self.requests.iter().filter(|r| matches!(r.part, Part::Chunk { .. })).count()
    }

    fn fetches(&self) -> usize {
        self.requests.iter().filter(|r| matches!(r.part, Part::Fetch { .. })).count()
    }

    fn finalizes(&self) -> usize {
        self.requests.iter().filter(|r| matches!(r.part, Part::Finalize)).count()
    }
}

/// Runs one command against the device, handing each frame through `wire`
/// on its way there.
fn run_through(
    client: &mut Client,
    device: &mut Device,
    command: &Command,
    content: Vec<u8>,
    wire: &mut dyn FnMut(usize, Vec<u8>) -> Vec<u8>,
) -> Trace {
    let mut requests = Vec::new();
    let mut action = client.begin(command, content);
    loop {
        match action {
            Action::Send(frame) => {
                requests.push(decode_request(&frame).expect("the session sends requests"));
                assert!(requests.len() < 100_000, "the exchange does not end");
                let answer = device.handle(&wire(requests.len() - 1, frame));
                action = client.on_frame(&answer);
            }
            Action::Wait => action = client.on_timeout(),
            Action::Done(outcome) => {
                assert!(!client.busy());
                return Trace { requests, result: Ok(outcome) };
            }
            Action::Fail(kind, message) => {
                assert!(!client.busy());
                return Trace { requests, result: Err((kind, message)) };
            }
        }
    }
}

fn run(client: &mut Client, device: &mut Device, command: &Command, content: Vec<u8>) -> Trace {
    run_through(client, device, command, content, &mut |_, frame| frame)
}

#[test]
fn new_session_is_disconnected_and_idle() {
    let client = Client::new(&options());
    assert_eq!(client.connection(), ConnectionState::Disconnected);
    assert_eq!(client.options(), &options());
    assert_eq!(client.task_state(), TaskState::Unloaded);
    assert!(client.task().session().is_none());
    assert!(!client.busy());
    assert_eq!(client.attempts(), 0);
    assert_eq!(DEFAULT_ATTEMPTS, 3);
    assert_eq!(DEFAULT_CHUNK_SIZE, 512);
}

#[test]
fn bounds_of_zero_are_refused() {
    assert_eq!(Client::with_limits(&options(), 0, 512).err(), Some(Error::InvalidArgument));
    assert_eq!(Client::with_limits(&options(), 3, 0).err(), Some(Error::InvalidArgument));
    assert!(Client::with_limits(&options(), 1, 1).is_ok());
}

#[test]
fn connection_states() {
    let mut client = Client::new(&options());
    client.connecting();
    assert_eq!(client.connection(), ConnectionState::Connecting);
    client.connected();
    assert_eq!(client.connection(), ConnectionState::Connected);
    client.closed();
    assert_eq!(client.connection(), ConnectionState::Disconnected);
}

#[test]
fn command_needs_a_connection() {
    let mut client = Client::new(&options());
    assert_eq!(client.begin(&list(), Vec::new()), failed(Error::TransportError));
    client.connecting();
    assert_eq!(client.begin(&list(), Vec::new()), failed(Error::TransportError));
    assert!(!client.busy());
    client.connected();
    assert!(matches!(client.begin(&list(), Vec::new()), Action::Send(_)));
    assert!(client.busy());
}

#[test]
fn malformed_command_is_refused_before_anything_is_sent() {
    let mut client = connected();
    let nameless = FileOptions { file_name: String::new(), base_path: "/spiffs".to_string() };
    let bad_task = TaskCommand::Load(TaskOptions {
        task_name: "wasm main".to_string(),
        file_path: "/spiffs/main.wasm".to_string(),
    });
    assert_eq!(
        client.begin(&Command::File(FileCommand::Upload(nameless.clone())), vec![1]),
        failed(Error::InvalidArgument)
    );
    assert_eq!(
        client.begin(&Command::File(FileCommand::Download(nameless)), Vec::new()),
        failed(Error::InvalidArgument)
    );
    assert_eq!(client.begin(&task(bad_task), Vec::new()), failed(Error::InvalidArgument));
    assert!(!client.busy());
    assert_eq!(client.connection(), ConnectionState::Connected);
    match client.begin(&list(), Vec::new()) {
        Action::Send(frame) => assert_eq!(decode_request(&frame).unwrap().id, 1),
        other => panic!("unexpected {:?}", other),
    }
}

#[test]
fn second_command_waits_for_the_first_to_resolve() {
    let mut client = connected();
    let mut device = Device::new();
    let first = match client.begin(&list(), Vec::new()) {
        Action::Send(frame) => frame,
        other => panic!("unexpected {:?}", other),
    };
    assert_eq!(client.begin(&task(TaskCommand::Status), Vec::new()), failed(Error::InvalidState));
    assert!(client.busy());
    assert_eq!(
        client.on_frame(&device.handle(&first)),
        Action::Done(Outcome::Listing(vec![]))
    );
    assert!(matches!(client.begin(&task(TaskCommand::Status), Vec::new()), Action::Send(_)));
}

#[test]
fn list_dir_of_empty_directory_is_an_empty_listing() {
    let mut client = connected();
    let mut device = Device::new();
    let trace = run(&mut client, &mut device, &list(), Vec::new());
    assert_eq!(trace.result, Ok(Outcome::Listing(vec![])));
    assert_eq!(trace.requests.len(), 1);
    assert_eq!(trace.requests[0].part, Part::Whole);
}

#[test]
fn list_dir_gives_names_and_sizes() {
    let mut client = connected();
    let mut device = Device::new();
    device.put_file(&file("main.wasm"), vec![0; 77]);
    device.put_file(&file("cfg.json"), vec![0; 5]);
    let trace = run(&mut client, &mut device, &list(), Vec::new());
    assert_eq!(
        trace.result,
        Ok(Outcome::Listing(vec![
            DirEntry { name: "main.wasm".to_string(), size: 77 },
            DirEntry { name: "cfg.json".to_string(), size: 5 },
        ]))
    );
}

#[test]
fn upload_of_ten_kilobytes_makes_twenty_chunks_and_one_finalize() {
    let mut client = connected();
    let mut device = Device::new();
    let data = pattern(10 * 1024);
    let trace = run(&mut client, &mut device, &upload("cfg.json"), data.clone());
    assert_eq!(trace.chunks(), 20);
    assert_eq!(trace.finalizes(), 1);
    assert_eq!(trace.requests.len(), 21);
    for (i, request) in trace.requests.iter().enumerate() {
        assert_eq!(request.id, i as u32 + 1);
        assert_eq!(request.command, upload("cfg.json"));
        if i < 20 {
            let chunk = data[i * 512..(i + 1) * 512].to_vec();
            assert_eq!(
                request.part,
                Part::Chunk { sequence: i as u32, chunk_size: 512, data: chunk }
            );
        } else {
            assert_eq!(request.part, Part::Finalize);
        }
    }
    assert_eq!(
        trace.result,
        Ok(Outcome::Uploaded { bytes: 10 * 1024, checksum: checksum(&data) })
    );
    assert_eq!(device.file(&file("cfg.json")), Some(data));
}

#[test]
fn chunk_corrupted_in_transit_is_an_integrity_error() {
    let data = pattern(10 * 1024);
    for hit in [0usize, 7, 19] {
        let mut client = connected();
        let mut device = Device::new();
        let mut corrupt = |n: usize, frame: Vec<u8>| {
            if n != hit {
                return frame;
            }
            let mut request = decode_request(&frame).unwrap();
            if let Part::Chunk { data, .. } = &mut request.part {
                data[100] ^= 0x20;
            }
            encode_request(&request).unwrap()
        };
        let trace =
            run_through(&mut client, &mut device, &upload("cfg.json"), data.clone(), &mut corrupt);
        assert_eq!(trace.result, Err((Error::IntegrityError, String::new())));
        assert_eq!(trace.chunks(), 20);
        assert_eq!(trace.finalizes(), 1);
        assert!(!client.busy());
        assert_ne!(device.file(&file("cfg.json")), Some(data.clone()));
    }
}

#[test]
fn upload_then_download_gives_the_file_back() {
    for len in [0usize, 1, 511, 512, 513, 1024, 5000, 10 * 1024] {
        for (up, down) in [(512u32, 512u32), (100, 700), (4096, 1), (1, 4096), (513, 511)] {
            if (len as u32) / up.min(down) > 6000 {
                continue;
            }
            let data = pattern(len);
            let mut device = Device::new();
            device.put_file(&file("cfg.json"), pattern(len + 33));
            let mut sender = connected_with(3, up);
            let sent = run(&mut sender, &mut device, &upload("cfg.json"), data.clone());
            assert_eq!(sent.result, Ok(Outcome::Uploaded { bytes: len, checksum: checksum(&data) }));
            assert_eq!(sent.chunks(), (len.max(1) + up as usize - 1) / up as usize);
            let mut receiver = connected_with(3, down);
            let got = run(&mut receiver, &mut device, &download("cfg.json"), Vec::new());
            assert_eq!(
                got.result,
                Ok(Outcome::Downloaded { content: data.clone(), checksum: checksum(&data) })
            );
            assert_eq!(got.fetches(), (len.max(1) + down as usize - 1) / down as usize);
            assert_eq!(got.finalizes(), 1);
        }
    }
}

#[test]
fn download_of_a_missing_file_is_a_device_error_and_is_not_retried() {
    let mut client = connected();
    let mut device = Device::new();
    let trace = run(&mut client, &mut device, &download("nothing"), Vec::new());
    assert_eq!(trace.result, Err((Error::DeviceError, "no such file".to_string())));
    assert_eq!(trace.requests.len(), 1);
    assert_eq!(client.connection(), ConnectionState::Connected);
}

#[test]
fn silent_device_gets_exactly_the_bounded_number_of_attempts() {
    for bound in [1u32, 2, 3, 5, 10] {
        let mut client = connected_with(bound, 512);
        let first = match client.begin(&task(TaskCommand::Status), Vec::new()) {
            Action::Send(frame) => frame,
            other => panic!("unexpected {:?}", other),
        };
        let mut sent = 1;
        assert_eq!(client.attempts(), 1);
        let last = loop {
            match client.on_timeout() {
                Action::Send(frame) => {
                    assert_eq!(frame, first);
                    sent += 1;
                    assert_eq!(client.attempts(), sent);
                    assert!(sent <= bound);
                }
                other => break other,
            }
        };
        assert_eq!(sent, bound);
        assert_eq!(last, failed(Error::TransportError));
        assert!(!client.busy());
        assert_eq!(client.connection(), ConnectionState::Faulted);
        assert_eq!(client.on_timeout(), Action::Wait);
    }
}

#[test]
fn silent_device_during_a_transfer_aborts_it() {
    let mut client = connected();
    let mut device = Device::new();
    let data = pattern(2000);
    let mut action = client.begin(&upload("cfg.json"), data);
    for _ in 0..2 {
        match action {
            Action::Send(frame) => action = client.on_frame(&device.handle(&frame)),
            other => panic!("unexpected {:?}", other),
        }
    }
    let outstanding = match action {
        Action::Send(frame) => frame,
        other => panic!("unexpected {:?}", other),
    };
    assert_eq!(client.on_timeout(), Action::Send(outstanding.clone()));
    assert_eq!(client.on_timeout(), Action::Send(outstanding));
    assert_eq!(client.on_timeout(), failed(Error::TransportError));
    assert!(!client.busy());
}

#[test]
fn lost_response_is_made_good_by_the_resend() {
    let mut client = connected();
    let mut device = Device::new();
    let data = pattern(1500);
    let mut action = client.begin(&upload("cfg.json"), data.clone());
    let mut lost = 0;
    let outcome = loop {
        match action {
            Action::Send(frame) => {
                let answer = device.handle(&frame);
                if lost < 4 && client.attempts() == 1 {
                    lost += 1;
                    action = client.on_timeout();
                } else {
                    action = client.on_frame(&answer);
                }
            }
            Action::Done(outcome) => break outcome,
            other => panic!("unexpected {:?}", other),
        }
    };
    assert_eq!(lost, 4);
    assert_eq!(outcome, Outcome::Uploaded { bytes: 1500, checksum: checksum(&data) });
    assert_eq!(device.file(&file("cfg.json")), Some(data));
}

#[test]
fn response_to_another_request_is_ignored() {
    let mut client = connected();
    let mut device = Device::new();
    let frame = match client.begin(&task(TaskCommand::Status), Vec::new()) {
        Action::Send(frame) => frame,
        other => panic!("unexpected {:?}", other),
    };
    let id = decode_request(&frame).unwrap().id;
    let stale = Response {
        id: id + 1,
        reply: Reply::Success(Payload::Task(TaskState::Running)),
    };
    assert_eq!(client.on_frame(&encode_response(&stale).unwrap()), Action::Wait);
    assert!(client.busy());
    assert_eq!(client.task_state(), TaskState::Unloaded);
    assert_eq!(
        client.on_frame(&device.handle(&frame)),
        Action::Done(Outcome::Task(TaskState::Unloaded))
    );
}

#[test]
fn frame_without_a_command_in_flight_is_ignored() {
    let mut client = connected();
    let response = Response { id: 1, reply: Reply::Success(Payload::Task(TaskState::Running)) };
    assert_eq!(client.on_frame(&encode_response(&response).unwrap()), Action::Wait);
    assert_eq!(client.on_frame(b"garbage"), Action::Wait);
    assert_eq!(client.on_timeout(), Action::Wait);
    assert_eq!(client.task_state(), TaskState::Unloaded);
    assert_eq!(client.connection(), ConnectionState::Connected);
}

#[test]
fn malformed_response_is_a_protocol_error_and_faults_the_connection() {
    for bytes in [&b""[..], &b"garbage"[..], &[1, 0, 0, 0, 0x80, 1, 0, 0, 0, 9][..]] {
        let mut client = connected();
        assert!(matches!(client.begin(&list(), Vec::new()), Action::Send(_)));
        assert_eq!(client.on_frame(bytes), failed(Error::ProtocolError));
        assert!(!client.busy());
        assert_eq!(client.connection(), ConnectionState::Faulted);
        assert_eq!(client.begin(&list(), Vec::new()), failed(Error::TransportError));
        client.connecting();
        client.connected();
        assert!(matches!(client.begin(&list(), Vec::new()), Action::Send(_)));
    }
}

#[test]
fn session_payload_of_the_wrong_kind_is_a_protocol_error() {
    let mut client = connected();
    assert!(matches!(client.begin(&list(), Vec::new()), Action::Send(_)));
    let wrong = Response { id: 1, reply: Reply::Success(Payload::Task(TaskState::Loaded)) };
    assert_eq!(client.on_frame(&encode_response(&wrong).unwrap()), failed(Error::ProtocolError));
    let mut client = connected();
    assert!(matches!(client.begin(&task(TaskCommand::Status), Vec::new()), Action::Send(_)));
    let wrong = Response { id: 1, reply: Reply::Success(Payload::Listing(vec![])) };
    assert_eq!(client.on_frame(&encode_response(&wrong).unwrap()), failed(Error::ProtocolError));
    assert_eq!(client.task_state(), TaskState::Unloaded);
}

#[test]
fn acknowledgment_of_another_chunk_is_rejected_and_the_chunk_sent_again() {
    let mut client = connected();
    let frame = match client.begin(&upload("cfg.json"), pattern(2000)) {
        Action::Send(frame) => frame,
        other => panic!("unexpected {:?}", other),
    };
    let wrong = Response { id: 1, reply: Reply::Success(Payload::Ack { sequence: 5 }) };
    let wrong = encode_response(&wrong).unwrap();
    assert_eq!(client.on_frame(&wrong), Action::Send(frame.clone()));
    assert_eq!(client.attempts(), 2);
    assert_eq!(client.on_frame(&wrong), Action::Send(frame));
    assert_eq!(client.attempts(), 3);
    assert_eq!(client.on_frame(&wrong), failed(Error::TransportError));
    assert!(!client.busy());
}

#[test]
fn task_scenario_through_the_session() {
    let mut client = connected();
    let mut device = Device::new();
    device.put_file(&file("main.wasm"), vec![0, 97, 115, 109]);
    assert_eq!(client.task_state(), TaskState::Unloaded);
    let loaded = run(&mut client, &mut device, &load(), Vec::new());
    assert_eq!(loaded.result, Ok(Outcome::Task(TaskState::Loaded)));
    assert_eq!(client.task_state(), TaskState::Loaded);
    let started = run(&mut client, &mut device, &task(TaskCommand::Start), Vec::new());
    assert_eq!(started.result, Ok(Outcome::Task(TaskState::Running)));
    let stopped = run(&mut client, &mut device, &task(TaskCommand::Stop), Vec::new());
    assert_eq!(stopped.result, Ok(Outcome::Task(TaskState::Stopped)));
    assert_eq!(client.task_state(), TaskState::Stopped);
    let again = run(&mut client, &mut device, &task(TaskCommand::Start), Vec::new());
    assert_eq!(again.result, Ok(Outcome::Task(TaskState::Running)));
    let refused = run(&mut client, &mut device, &load(), Vec::new());
    assert_eq!(refused.result, Err((Error::InvalidState, String::new())));
    assert!(refused.requests.is_empty());
    assert_eq!(client.task_state(), TaskState::Running);
    assert_eq!(device.task_state(), TaskState::Running);
    let held = client.task().session().unwrap();
    assert_eq!(held.name, "wasm_main");
    assert_eq!(held.file_path, "/spiffs/main.wasm");
    assert_eq!(held.last_status, Some(TaskState::Running));
}

#[test]
fn transition_outside_the_table_is_refused_without_a_request() {
    let mut client = connected();
    let mut device = Device::new();
    for command in [TaskCommand::Start, TaskCommand::Stop, TaskCommand::Unload] {
        let trace = run(&mut client, &mut device, &task(command), Vec::new());
        assert_eq!(trace.result, Err((Error::InvalidState, String::new())));
        assert!(trace.requests.is_empty());
        assert_eq!(client.task_state(), TaskState::Unloaded);
        assert_eq!(client.connection(), ConnectionState::Connected);
    }
}

#[test]
fn load_of_a_missing_file_is_a_device_error() {
    let mut client = connected();
    let mut device = Device::new();
    let trace = run(&mut client, &mut device, &load(), Vec::new());
    assert_eq!(trace.result, Err((Error::DeviceError, "no such file".to_string())));
    assert_eq!(trace.requests.len(), 1);
    assert_eq!(client.task_state(), TaskState::Unloaded);
}

#[test]
fn status_brings_the_session_up_to_date() {
    let mut first = connected();
    let mut device = Device::new();
    device.put_file(&file("main.wasm"), vec![1]);
    run(&mut first, &mut device, &load(), Vec::new());
    run(&mut first, &mut device, &task(TaskCommand::Start), Vec::new());
    let mut second = connected();
    assert_eq!(second.task_state(), TaskState::Unloaded);
    let refused = run(&mut second, &mut device, &task(TaskCommand::Stop), Vec::new());
    assert_eq!(refused.result, Err((Error::InvalidState, String::new())));
    let status = run(&mut second, &mut device, &task(TaskCommand::Status), Vec::new());
    assert_eq!(status.result, Ok(Outcome::Task(TaskState::Running)));
    assert_eq!(second.task_state(), TaskState::Running);
    let stopped = run(&mut second, &mut device, &task(TaskCommand::Stop), Vec::new());
    assert_eq!(stopped.result, Ok(Outcome::Task(TaskState::Stopped)));
    assert_eq!(device.task_state(), TaskState::Stopped);
}

#[test]
fn device_that_refuses_a_transition_leaves_the_session_where_it_was() {
    let mut client = connected();
    let mut device = Device::new();
    device.put_file(&file("main.wasm"), vec![1]);
    run(&mut client, &mut device, &load(), Vec::new());
    let mut other = connected();
    run(&mut other, &mut device, &task(TaskCommand::Status), Vec::new());
    run(&mut other, &mut device, &task(TaskCommand::Unload), Vec::new());
    let trace = run(&mut client, &mut device, &task(TaskCommand::Start), Vec::new());
    assert_eq!(
        trace.result,
        Err((Error::InvalidState, "task slot refuses the command".to_string()))
    );
    assert_eq!(trace.requests.len(), 1);
    assert_eq!(client.task_state(), TaskState::Loaded);
    assert_eq!(client.connection(), ConnectionState::Connected);
}

#[test]
fn request_identifiers_increase_from_command_to_command() {
    let mut client = connected();
    let mut device = Device::new();
    let mut last = 0;
    for _ in 0..5 {
        let trace = run(&mut client, &mut device, &list(), Vec::new());
        assert_eq!(trace.requests.len(), 1);
        assert!(trace.requests[0].id > last);
        last = trace.requests[0].id;
    }
    let trace = run(&mut client, &mut device, &upload("a"), pattern(1200));
    for request in &trace.requests {
        assert!(request.id > last);
        last = request.id;
    }
    assert_eq!(last, 9);
}

#[test]
fn closing_the_connection_gives_up_the_command_in_flight() {
    let mut client = connected();
    assert!(matches!(client.begin(&upload("a"), pattern(1200)), Action::Send(_)));
    assert!(client.busy());
    client.closed();
    assert!(!client.busy());
    assert_eq!(client.connection(), ConnectionState::Disconnected);
    assert_eq!(client.on_timeout(), Action::Wait);
    assert_eq!(client.begin(&list(), Vec::new()), failed(Error::TransportError));
}

#[test]
fn upload_of_an_empty_file() {
    let mut client = connected();
    let mut device = Device::new();
    device.put_file(&file("cfg.json"), vec![1, 2, 3]);
    let trace = run(&mut client, &mut device, &upload("cfg.json"), Vec::new());
    assert_eq!(trace.result, Ok(Outcome::Uploaded { bytes: 0, checksum: 1 }));
    assert_eq!(trace.chunks(), 1);
    assert_eq!(trace.finalizes(), 1);
    assert_eq!(device.file(&file("cfg.json")), Some(Vec::new()));
}

#[test]
fn response_frames_decode_to_what_the_device_answered() {
    let mut device = Device::new();
    let request = Request { id: 4, command: list(), part: Part::Whole };
    let answer = device.handle(&encode_request(&request).unwrap());
    assert_eq!(
        decode_response(&answer),
        Ok(Response { id: 4, reply: Reply::Success(Payload::Listing(vec![])) })
    );
}
