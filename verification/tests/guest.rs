use esp32_wasm::args::{WasmArgs, ARG_BUFFER_LEN};
use esp32_wasm::board::Esp32;
use esp32_wasm::i2c::{WasmI2c, I2C_PORTS};
use esp32_wasm::logger::{Level, WasmLogger};

#[test]
fn args_count_is_the_count_given() {
    assert_eq!(WasmArgs::new(0, 0).count(), 0);
    let args = WasmArgs::new(3, 0x1000);
    assert_eq!(args.count(), 3);
    assert_eq!(args.addr(), 0x1000);
    let from_board = Esp32::new().args(2, 0x2000);
    assert_eq!(from_board.count(), 2);
    assert_eq!(from_board.addr(), 0x2000);
}

#[test]
fn args_index_out_of_range_has_no_argument() {
    let mut args = WasmArgs::new(2, 0);
    assert!(args.has(0));
    assert!(args.has(1));
    assert!(!args.has(2));
    assert_eq!(args.get(2, b"value"), None);
    assert_eq!(args.get(usize::MAX, b"value"), None);
    assert_eq!(WasmArgs::new(0, 0).get(0, b"value"), None);
}

#[test]
fn args_get_returns_what_the_runtime_wrote() {
    let mut args = WasmArgs::new(2, 0);
    assert_eq!(args.get(0, b"--port"), Some("--port".to_string()));
    assert_eq!(args.get(1, "grö".as_bytes()), Some("grö".to_string()));
    assert_eq!(args.get(1, &[b'x'; 32]), Some("x".repeat(32)));
    assert_eq!(ARG_BUFFER_LEN, 32);
}

#[test]
fn args_get_refuses_nothing_too_much_and_what_is_not_text() {
    let mut args = WasmArgs::new(1, 0);
    assert_eq!(args.get(0, b""), None);
    assert_eq!(args.get(0, &[b'x'; 33]), None);
    assert_eq!(args.get(0, &[0xff, 0xfe]), None);
    assert_eq!(args.get(0, &[0xc3]), None);
}

#[test]
fn i2c_port_is_handed_out_once() {
    let mut board = Esp32::new();
    let bus = board.i2c_init(0, 100_000, 26, 23).expect("port 0 is free");
    assert_eq!(bus.port(), 0);
    assert_eq!(bus.frequency(), 100_000);
    assert_eq!(bus.sda(), 26);
    assert_eq!(bus.scl(), 23);
    assert_eq!(board.i2c_init(0, 100_000, 26, 23), None);
    let other = board.i2c_init(1, 400_000, 4, 5).expect("port 1 is free");
    assert_eq!(other.port(), 1);
    assert_eq!(other.frequency(), 400_000);
    assert_eq!(board.i2c_init(1, 400_000, 4, 5), None);
}

#[test]
fn i2c_port_that_does_not_exist_is_refused() {
    let mut board = Esp32::new();
    assert_eq!(I2C_PORTS, 2);
    assert_eq!(board.i2c_init(2, 100_000, 26, 23), None);
    assert_eq!(board.i2c_init(usize::MAX, 100_000, 26, 23), None);
    assert!(board.i2c_init(1, 100_000, 26, 23).is_some());
    assert!(board.i2c_init(0, 100_000, 26, 23).is_some());
}

#[test]
fn i2c_transfer_length() {
    assert_eq!(WasmI2c::transfer_len(&[]), Some(0));
    assert_eq!(WasmI2c::transfer_len(&[0xaa, 0xbb, 0xcc]), Some(3));
}

#[test]
fn logger_passes_info_and_above() {
    let logger = WasmLogger::init();
    assert_eq!(logger, WasmLogger(Level::Info));
    assert_eq!(logger.max_level(), Level::Info);
    assert!(logger.enabled(Level::Error));
    assert!(logger.enabled(Level::Warn));
    assert!(logger.enabled(Level::Info));
    assert!(!logger.enabled(Level::Debug));
    assert!(!logger.enabled(Level::Trace));
    assert!(WasmLogger(Level::Trace).enabled(Level::Trace));
    assert!(!WasmLogger(Level::Error).enabled(Level::Warn));
}

#[test]
fn logger_line_is_exact() {
    let logger = WasmLogger::init();
    assert_eq!(
        logger.log(Level::Info, "Hello ESP32 from rust-wasm-unknown!"),
        Some("\rINFO - Hello ESP32 from rust-wasm-unknown!\r\n".to_string())
    );
    assert_eq!(logger.log(Level::Error, ""), Some("\rERROR - \r\n".to_string()));
    assert_eq!(logger.log(Level::Warn, "w"), Some("\rWARN - w\r\n".to_string()));
    assert_eq!(logger.log(Level::Debug, "hidden"), None);
    assert_eq!(logger.log(Level::Trace, "hidden"), None);
    assert_eq!(
        WasmLogger(Level::Trace).log(Level::Trace, "t"),
        Some("\rTRACE - t\r\n".to_string())
    );
    assert_eq!(
        WasmLogger(Level::Debug).log(Level::Debug, "d"),
        Some("\rDEBUG - d\r\n".to_string())
    );
}

#[test]
fn level_ranks_and_names() {
    let levels = [
        (Level::Error, 1u8, "ERROR"),
        (Level::Warn, 2, "WARN"),
        (Level::Info, 3, "INFO"),
        (Level::Debug, 4, "DEBUG"),
        (Level::Trace, 5, "TRACE"),
    ];
    for (level, rank, name) in levels {
        assert_eq!(level.rank(), rank);
        assert_eq!(level.name(), name);
    }
}
