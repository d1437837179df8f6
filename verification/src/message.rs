//! What travels between the operator and the device: requests, each
//! carrying its command and the part of the exchange it stands for, and the
//! responses that answer them.

use crate::error::Error;
use crate::options::{Command, CommandView};
use crate::task::TaskState;
use vstd::prelude::*;
use vstd::string::*;

verus! {

/// The part of a command's exchange that one request stands for.
#[derive(Clone, Debug, PartialEq, Eq)]
pub enum Part {
    /// The command as a whole, answered by a single response.
    Whole,
    /// One chunk of an upload. The bytes belong at offset
    /// `sequence * chunk_size` of the file.
    Chunk { sequence: u32, chunk_size: u32, data: Vec<u8> },
    /// Asks for one chunk of a download: up to `chunk_size` bytes from
    /// offset `sequence * chunk_size` of the file.
    Fetch { sequence: u32, chunk_size: u32 },
    /// Ends a transfer: asks for the checksum of the file as the device
    /// holds it.
    Finalize,
}

/// A part as the contracts see it.
pub enum PartView {
    Whole,
    Chunk { sequence: u32, chunk_size: u32, data: Seq<u8> },
    Fetch { sequence: u32, chunk_size: u32 },
    Finalize,
}

impl View for Part {
    type V = PartView;

    open spec fn view(&self) -> PartView {
        match self {
            Part::Whole => PartView::Whole,
            Part::Chunk { sequence, chunk_size, data } => PartView::Chunk {
                sequence: *sequence,
                chunk_size: *chunk_size,
                data: data@,
            },
            Part::Fetch { sequence, chunk_size } => PartView::Fetch {
                sequence: *sequence,
                chunk_size: *chunk_size,
            },
            Part::Finalize => PartView::Finalize,
        }
    }
}

/// One request to the device.
#[derive(Clone, Debug, PartialEq, Eq)]
pub struct Request {
    /// Identifies the request; the response repeats it.
    pub id: u32,
    pub command: Command,
    pub part: Part,
}

/// A request as the contracts see it.
pub struct RequestView {
    pub id: u32,
    pub command: CommandView,
    pub part: PartView,
}

impl View for Request {
    type V = RequestView;

    open spec fn view(&self) -> RequestView {
        RequestView { id: self.id, command: self.command@, part: self.part@ }
    }
}

/// One entry of a directory listing.
#[derive(Clone, Debug, PartialEq, Eq)]
pub struct DirEntry {
    pub name: String,
    pub size: u64,
}

/// A directory entry as the contracts see it.
pub struct DirEntryView {
    pub name: Seq<char>,
    pub size: u64,
}

impl View for DirEntry {
    type V = DirEntryView;

    open spec fn view(&self) -> DirEntryView {
        DirEntryView { name: self.name@, size: self.size }
    }
}

/// The views of the entries of a listing, in order.
pub open spec fn entries_view(entries: Seq<DirEntry>) -> Seq<DirEntryView> {
    Seq::new(entries.len(), |i: int| entries[i]@)
}

/// What a successful response carries.
#[derive(Clone, Debug, PartialEq, Eq)]
pub enum Payload {
    /// The entries of a directory, in the device's order.
    Listing(Vec<DirEntry>),
    /// The chunk with this sequence number was stored.
    Ack { sequence: u32 },
    /// The chunk with this sequence number; `last` marks the end of the
    /// file.
    Data { sequence: u32, last: bool, data: Vec<u8> },
    /// The checksum of the file as the device holds it.
    Checksum(u32),
    /// The state of the task slot.
    Task(TaskState),
}

/// A payload as the contracts see it.
pub enum PayloadView {
    Listing(Seq<DirEntryView>),
    Ack { sequence: u32 },
    Data { sequence: u32, last: bool, data: Seq<u8> },
    Checksum(u32),
    Task(TaskState),
}

impl View for Payload {
    type V = PayloadView;

    open spec fn view(&self) -> PayloadView {
        match self {
            Payload::Listing(entries) => PayloadView::Listing(entries_view(entries@)),
            Payload::Ack { sequence } => PayloadView::Ack { sequence: *sequence },
            Payload::Data { sequence, last, data } => PayloadView::Data {
                sequence: *sequence,
                last: *last,
                data: data@,
            },
            Payload::Checksum(sum) => PayloadView::Checksum(*sum),
            Payload::Task(state) => PayloadView::Task(*state),
        }
    }
}

/// How a request ended on the device.
#[derive(Clone, Debug, PartialEq, Eq)]
pub enum Reply {
    Success(Payload),
    /// The kind of failure and the device's words for it.
    Failure(Error, String),
}

/// A reply as the contracts see it.
pub enum ReplyView {
    Success(PayloadView),
    Failure(Error, Seq<char>),
}

impl View for Reply {
    type V = ReplyView;

    open spec fn view(&self) -> ReplyView {
        match self {
            Reply::Success(p) => ReplyView::Success(p@),
            Reply::Failure(kind, message) => ReplyView::Failure(*kind, message@),
        }
    }
}

/// The answer to the request with the same identifier.
#[derive(Clone, Debug, PartialEq, Eq)]
pub struct Response {
    pub id: u32,
    pub reply: Reply,
}

/// A response as the contracts see it.
pub struct ResponseView {
    pub id: u32,
    pub reply: ReplyView,
}

impl View for Response {
    type V = ResponseView;

    open spec fn view(&self) -> ResponseView {
        ResponseView { id: self.id, reply: self.reply@ }
    }
}

} // verus!
