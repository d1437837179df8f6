//! Operator-side control of an ESP32 that hosts a small WASM runtime: the
//! command model, the wire codec, chunked file transfer and the task
//! lifecycle, together with the device-side helpers a guest program uses.

pub mod args;
pub mod board;
pub mod checksum;
pub mod codec;
pub mod device;
pub mod error;
pub mod exchange;
pub mod i2c;
pub mod logger;
pub mod loopback;
pub mod message;
pub mod options;
pub mod session;
pub mod task;
pub mod transfer;
pub mod wire;
