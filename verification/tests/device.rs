use esp32_wasm::checksum::checksum;
use esp32_wasm::codec::{decode_response, encode_request};
use esp32_wasm::device::Device;
use esp32_wasm::error::Error;
use esp32_wasm::message::{DirEntry, Part, Payload, Reply, Request, Response};
use esp32_wasm::options::{
    Command, FileCommand, FileOptions, ListOptions, TaskCommand, TaskOptions,
};
use esp32_wasm::task::TaskState;

fn file(name: &str, base: &str) -> FileOptions {
    FileOptions { file_name: name.to_string(), base_path: base.to_string() }
}

fn upload(name: &str) -> Command {
    Command::File(FileCommand::Upload(file(name, "/spiffs")))
}

fn download(name: &str) -> Command {
    Command::File(FileCommand::Download(file(name, "/spiffs")))
}

fn list(base: &str) -> Command {
    Command::File(FileCommand::ListDir(ListOptions { base_path: base.to_string() }))
}

fn load(path: &str) -> Command {
    Command::Task(TaskCommand::Load(TaskOptions {
        task_name: "wasm_main".to_string(),
        file_path: path.to_string(),
    }))
}

fn ask(device: &mut Device, command: Command, part: Part) -> Reply {
    let response = device.serve(&Request { id: 5, command, part });
    assert_eq!(response.id, 5);
    response.reply
}

fn chunk(sequence: u32, chunk_size: u32, data: &[u8]) -> Part {
    Part::Chunk { sequence, chunk_size, data: data.to_vec() }
}

fn refused(kind: Error, message: &str) -> Reply {
    Reply::Failure(kind, message.to_string())
}

#[test]
fn chunk_sent_twice_leaves_the_file_as_sent_once() {
    let mut once = Device::new();
    let mut twice = Device::new();
    for device in [&mut once, &mut twice] {
        ask(device, upload("a"), chunk(0, 4, b"abcd"));
    }
    let ack = Reply::Success(Payload::Ack { sequence: 1 });
    assert_eq!(ask(&mut once, upload("a"), chunk(1, 4, b"ef")), ack);
    assert_eq!(ask(&mut twice, upload("a"), chunk(1, 4, b"ef")), ack);
    assert_eq!(ask(&mut twice, upload("a"), chunk(1, 4, b"ef")), ack);
    assert_eq!(once.file(&file("a", "/spiffs")), Some(b"abcdef".to_vec()));
    assert_eq!(twice.file(&file("a", "/spiffs")), once.file(&file("a", "/spiffs")));
}

#[test]
fn first_chunk_sent_twice_leaves_the_file_as_sent_once() {
    let mut device = Device::new();
    device.put_file(&file("a", "/spiffs"), b"something older and longer".to_vec());
    ask(&mut device, upload("a"), chunk(0, 4, b"abcd"));
    assert_eq!(device.file(&file("a", "/spiffs")), Some(b"abcd".to_vec()));
    ask(&mut device, upload("a"), chunk(0, 4, b"abcd"));
    assert_eq!(device.file(&file("a", "/spiffs")), Some(b"abcd".to_vec()));
}

#[test]
fn chunk_is_written_at_its_offset_and_ends_the_file() {
    let mut device = Device::new();
    device.put_file(&file("a", "/spiffs"), b"0123456789".to_vec());
    assert_eq!(
        ask(&mut device, upload("a"), chunk(1, 4, b"xy")),
        Reply::Success(Payload::Ack { sequence: 1 })
    );
    assert_eq!(device.file(&file("a", "/spiffs")), Some(b"0123xy".to_vec()));
}

#[test]
fn chunk_that_would_leave_a_gap_is_refused() {
    let mut device = Device::new();
    let gap = refused(Error::DeviceError, "chunk out of order");
    assert_eq!(ask(&mut device, upload("a"), chunk(1, 4, b"efgh")), gap);
    assert_eq!(device.file(&file("a", "/spiffs")), None);
    ask(&mut device, upload("a"), chunk(0, 4, b"abcd"));
    assert_eq!(ask(&mut device, upload("a"), chunk(2, 4, b"ijkl")), gap);
    assert_eq!(device.file(&file("a", "/spiffs")), Some(b"abcd".to_vec()));
}

#[test]
fn chunk_longer_than_its_chunk_size_is_refused() {
    let mut device = Device::new();
    let bad = refused(Error::InvalidArgument, "bad chunk");
    assert_eq!(ask(&mut device, upload("a"), chunk(0, 4, b"abcde")), bad);
    assert_eq!(ask(&mut device, upload("a"), chunk(0, 0, b"")), bad);
    assert_eq!(ask(&mut device, download("a"), Part::Fetch { sequence: 0, chunk_size: 0 }), bad);
    assert_eq!(device.file(&file("a", "/spiffs")), None);
}

#[test]
fn finalize_reports_the_checksum_of_the_file() {
    let mut device = Device::new();
    ask(&mut device, upload("a"), chunk(0, 16, b"Wikipedia"));
    let sum = Reply::Success(Payload::Checksum(0x11e6_0398));
    assert_eq!(ask(&mut device, upload("a"), Part::Finalize), sum);
    assert_eq!(ask(&mut device, download("a"), Part::Finalize), sum);
    assert_eq!(checksum(b"Wikipedia"), 0x11e6_0398);
    assert_eq!(
        ask(&mut device, upload("b"), Part::Finalize),
        refused(Error::DeviceError, "no such file")
    );
}

#[test]
fn fetch_reads_chunks_and_marks_the_last() {
    let mut device = Device::new();
    device.put_file(&file("a", "/spiffs"), b"0123456789".to_vec());
    let data = |sequence: u32, last: bool, data: &[u8]| {
        Reply::Success(Payload::Data { sequence, last, data: data.to_vec() })
    };
    let fetch = |sequence: u32, chunk_size: u32| Part::Fetch { sequence, chunk_size };
    assert_eq!(ask(&mut device, download("a"), fetch(0, 4)), data(0, false, b"0123"));
    assert_eq!(ask(&mut device, download("a"), fetch(1, 4)), data(1, false, b"4567"));
    assert_eq!(ask(&mut device, download("a"), fetch(2, 4)), data(2, true, b"89"));
    assert_eq!(ask(&mut device, download("a"), fetch(0, 10)), data(0, true, b"0123456789"));
    assert_eq!(ask(&mut device, download("a"), fetch(1, 5)), data(1, true, b"56789"));
    assert_eq!(ask(&mut device, download("a"), fetch(2, 5)), data(2, true, b""));
    assert_eq!(
        ask(&mut device, download("a"), fetch(3, 5)),
        refused(Error::DeviceError, "chunk out of order")
    );
    assert_eq!(
        ask(&mut device, download("b"), fetch(0, 5)),
        refused(Error::DeviceError, "no such file")
    );
}

#[test]
fn empty_directory_lists_as_empty() {
    let mut device = Device::new();
    assert_eq!(ask(&mut device, list("/spiffs"), Part::Whole), Reply::Success(Payload::Listing(vec![])));
    device.put_file(&file("a", "/other"), vec![1]);
    assert_eq!(ask(&mut device, list("/spiffs"), Part::Whole), Reply::Success(Payload::Listing(vec![])));
}

#[test]
fn listing_gives_names_and_sizes_in_order() {
    let mut device = Device::new();
    device.put_file(&file("main.wasm", "/spiffs"), vec![0; 4096]);
    device.put_file(&file("skip", "/other"), vec![0; 3]);
    device.put_file(&file("cfg.json", "/spiffs"), vec![]);
    device.put_file(&file("main.wasm", "/spiffs"), vec![0; 5000]);
    assert_eq!(
        ask(&mut device, list("/spiffs"), Part::Whole),
        Reply::Success(Payload::Listing(vec![
            DirEntry { name: "main.wasm".to_string(), size: 5000 },
            DirEntry { name: "cfg.json".to_string(), size: 0 },
        ]))
    );
    assert_eq!(
        ask(&mut device, list("/other"), Part::Whole),
        Reply::Success(Payload::Listing(vec![DirEntry { name: "skip".to_string(), size: 3 }]))
    );
}

#[test]
fn load_needs_the_file_on_the_device() {
    let mut device = Device::new();
    assert_eq!(
        ask(&mut device, load("/spiffs/main.wasm"), Part::Whole),
        refused(Error::DeviceError, "no such file")
    );
    assert_eq!(device.task_state(), TaskState::Unloaded);
    device.put_file(&file("main.wasm", "/spiffs"), vec![0; 8]);
    assert_eq!(
        ask(&mut device, load("/spiffs/other.wasm"), Part::Whole),
        refused(Error::DeviceError, "no such file")
    );
    assert_eq!(
        ask(&mut device, load("/spiffs/main.wasm"), Part::Whole),
        Reply::Success(Payload::Task(TaskState::Loaded))
    );
    assert_eq!(device.task_state(), TaskState::Loaded);
}

#[test]
fn task_commands_follow_the_table_on_the_device() {
    let mut device = Device::new();
    device.put_file(&file("main.wasm", "/spiffs"), vec![0; 8]);
    let state = |s: TaskState| Reply::Success(Payload::Task(s));
    let no = refused(Error::InvalidState, "task slot refuses the command");
    let task = |c: TaskCommand| Command::Task(c);
    assert_eq!(ask(&mut device, task(TaskCommand::Start), Part::Whole), no);
    assert_eq!(ask(&mut device, task(TaskCommand::Status), Part::Whole), state(TaskState::Unloaded));
    assert_eq!(ask(&mut device, load("/spiffs/main.wasm"), Part::Whole), state(TaskState::Loaded));
    assert_eq!(ask(&mut device, task(TaskCommand::Start), Part::Whole), state(TaskState::Running));
    assert_eq!(ask(&mut device, task(TaskCommand::Start), Part::Whole), no);
    assert_eq!(ask(&mut device, load("/spiffs/main.wasm"), Part::Whole), no);
    assert_eq!(ask(&mut device, task(TaskCommand::Unload), Part::Whole), no);
    assert_eq!(device.task_state(), TaskState::Running);
    assert_eq!(ask(&mut device, task(TaskCommand::Stop), Part::Whole), state(TaskState::Stopped));
    assert_eq!(ask(&mut device, task(TaskCommand::Status), Part::Whole), state(TaskState::Stopped));
    assert_eq!(ask(&mut device, task(TaskCommand::Unload), Part::Whole), state(TaskState::Unloaded));
    assert_eq!(device.task_state(), TaskState::Unloaded);
}

#[test]
fn part_that_does_not_belong_to_the_command_is_refused() {
    let mut device = Device::new();
    let no = refused(Error::ProtocolError, "unexpected part");
    assert_eq!(ask(&mut device, upload("a"), Part::Whole), no);
    assert_eq!(ask(&mut device, upload("a"), Part::Fetch { sequence: 0, chunk_size: 4 }), no);
    assert_eq!(ask(&mut device, download("a"), chunk(0, 4, b"abcd")), no);
    assert_eq!(ask(&mut device, list("/spiffs"), Part::Finalize), no);
    assert_eq!(ask(&mut device, Command::Task(TaskCommand::Start), Part::Finalize), no);
    assert_eq!(device.file(&file("a", "/spiffs")), None);
}

#[test]
fn handle_answers_frames_with_frames() {
    let mut device = Device::new();
    let request = Request { id: 77, command: upload("a"), part: chunk(0, 4, b"abcd") };
    let answer = device.handle(&encode_request(&request).unwrap());
    assert_eq!(
        decode_response(&answer),
        Ok(Response { id: 77, reply: Reply::Success(Payload::Ack { sequence: 0 }) })
    );
    assert_eq!(device.file(&file("a", "/spiffs")), Some(b"abcd".to_vec()));
}

#[test]
fn handle_refuses_bytes_that_hold_no_request() {
    let mut device = Device::new();
    for bytes in [&b""[..], &b"\x01\x00\x00\x00\x63\x00\x00\x00\x00"[..], &b"hello"[..]] {
        let answer = device.handle(bytes);
        assert_eq!(
            decode_response(&answer),
            Ok(Response { id: 0, reply: refused(Error::ProtocolError, "malformed frame") })
        );
    }
}
