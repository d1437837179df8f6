//! The transport codec: how requests and responses become frames and how
//! frames are read back.
//!
//! A frame is the request identifier (4 bytes, little-endian), one tag byte
//! and the body behind its 32-bit length. The tag of a request names its
//! command; the tag of a response says whether it succeeded. Reading is
//! total: whatever bytes arrive, the result is a message or a refusal.

use crate::error::Error;
use crate::message::{
    DirEntry, DirEntryView, Part, PartView, Payload, PayloadView, Reply, ReplyView, Request,
    RequestView, Response, ResponseView, entries_view,
};
use crate::options::{
    Command, CommandView, FileCommand, FileCommandView, FileOptions, FileOptionsView, ListOptions,
    ListOptionsView, TaskCommand, TaskCommandView, TaskOptions, TaskOptionsView,
};
use crate::task::TaskState;
use crate::wire::{
    MAX_LEN, Reader, lemma_put_lengths, lemma_take_put_bool, lemma_take_put_bytes,
    lemma_take_put_text, lemma_take_put_u32, lemma_take_put_u64, lemma_take_put_u8, put_bool,
    put_bytes, put_text, put_u32, put_u64, put_u8, take_bool, take_bytes, take_text, take_u32,
    take_u64, take_u8, write_bool, write_bytes, write_text, write_u32, write_u64, write_u8,
};
use vstd::bytes::*;
use vstd::prelude::*;
use vstd::slice::*;
use vstd::string::*;
use vstd::utf8::*;

verus! {

/// The bytes of a frame that precede its body.
pub const HEADER_LEN: usize = 9;

/// Tag of a request to list a directory.
pub const TAG_LIST_DIR: u8 = 1;

/// Tag of a request that belongs to an upload.
pub const TAG_UPLOAD: u8 = 2;

/// Tag of a request that belongs to a download.
pub const TAG_DOWNLOAD: u8 = 3;

/// Tag of a request to load a task.
pub const TAG_LOAD: u8 = 4;

/// Tag of a request to start the task.
pub const TAG_START: u8 = 5;

/// Tag of a request to stop the task.
pub const TAG_STOP: u8 = 6;

/// Tag of a request to unload the task.
pub const TAG_UNLOAD: u8 = 7;

/// Tag of a request for the state of the task slot.
pub const TAG_STATUS: u8 = 8;

/// Tag of a response that reports success.
pub const TAG_SUCCESS: u8 = 0x80;

/// Tag of a response that reports a failure.
pub const TAG_FAILURE: u8 = 0x81;

/// Marks a request that stands for its command as a whole.
pub const PART_WHOLE: u8 = 0;

/// Marks a request that carries a chunk.
pub const PART_CHUNK: u8 = 1;

/// Marks a request that asks for a chunk.
pub const PART_FETCH: u8 = 2;

/// Marks the closing request of a transfer.
pub const PART_FINALIZE: u8 = 3;

/// Marks a payload that holds a directory listing.
pub const PAYLOAD_LISTING: u8 = 1;

/// Marks a payload that acknowledges a chunk.
pub const PAYLOAD_ACK: u8 = 2;

/// Marks a payload that holds a chunk.
pub const PAYLOAD_DATA: u8 = 3;

/// Marks a payload that holds a checksum.
pub const PAYLOAD_CHECKSUM: u8 = 4;

/// Marks a payload that holds the state of the task slot.
pub const PAYLOAD_TASK: u8 = 5;

/// The tag byte of a request that carries `c`.
pub open spec fn command_tag(c: CommandView) -> u8 {
    match c {
        CommandView::File(FileCommandView::ListDir(_)) => TAG_LIST_DIR,
        CommandView::File(FileCommandView::Upload(_)) => TAG_UPLOAD,
        CommandView::File(FileCommandView::Download(_)) => TAG_DOWNLOAD,
        CommandView::Task(TaskCommandView::Load(_)) => TAG_LOAD,
        CommandView::Task(TaskCommandView::Start) => TAG_START,
        CommandView::Task(TaskCommandView::Stop) => TAG_STOP,
        CommandView::Task(TaskCommandView::Unload) => TAG_UNLOAD,
        CommandView::Task(TaskCommandView::Status) => TAG_STATUS,
    }
}

/// The parameters of `c`, in the order of its fields.
pub open spec fn put_command(c: CommandView) -> Seq<u8> {
    match c {
        CommandView::File(FileCommandView::ListDir(o)) => put_text(o.base_path),
        CommandView::File(FileCommandView::Upload(o)) => put_text(o.file_name) + put_text(
            o.base_path,
        ),
        CommandView::File(FileCommandView::Download(o)) => put_text(o.file_name) + put_text(
            o.base_path,
        ),
        CommandView::Task(TaskCommandView::Load(o)) => put_text(o.task_name) + put_text(
            o.file_path,
        ),
        CommandView::Task(_) => Seq::empty(),
    }
}

/// Reads a file name and a base path.
pub open spec fn take_file_options(s: Seq<u8>) -> Option<(FileOptionsView, Seq<u8>)> {
    match take_text(s) {
        Some((file_name, rest)) => match take_text(rest) {
            Some((base_path, rest)) => Some((FileOptionsView { file_name, base_path }, rest)),
            None => None,
        },
        None => None,
    }
}

/// Reads the parameters of the command that `tag` names.
pub open spec fn take_command(tag: u8, s: Seq<u8>) -> Option<(CommandView, Seq<u8>)> {
    if tag == TAG_LIST_DIR {
        match take_text(s) {
            Some((base_path, rest)) => Some(
                (CommandView::File(FileCommandView::ListDir(ListOptionsView { base_path })), rest),
            ),
            None => None,
        }
    } else if tag == TAG_UPLOAD {
        match take_file_options(s) {
            Some((o, rest)) => Some((CommandView::File(FileCommandView::Upload(o)), rest)),
            None => None,
        }
    } else if tag == TAG_DOWNLOAD {
        match take_file_options(s) {
            Some((o, rest)) => Some((CommandView::File(FileCommandView::Download(o)), rest)),
            None => None,
        }
    } else if tag == TAG_LOAD {
        match take_text(s) {
            Some((task_name, rest)) => match take_text(rest) {
                Some((file_path, rest)) => Some(
                    (
                        CommandView::Task(
                            TaskCommandView::Load(TaskOptionsView { task_name, file_path }),
                        ),
                        rest,
                    ),
                ),
                None => None,
            },
            None => None,
        }
    } else if tag == TAG_START {
        Some((CommandView::Task(TaskCommandView::Start), s))
    } else if tag == TAG_STOP {
        Some((CommandView::Task(TaskCommandView::Stop), s))
    } else if tag == TAG_UNLOAD {
        Some((CommandView::Task(TaskCommandView::Unload), s))
    } else if tag == TAG_STATUS {
        Some((CommandView::Task(TaskCommandView::Status), s))
    } else {
        None
    }
}

/// The bytes of a part: its mark, then its fields.
pub open spec fn put_part(p: PartView) -> Seq<u8> {
    match p {
        PartView::Whole => put_u8(PART_WHOLE),
        PartView::Chunk { sequence, chunk_size, data } => put_u8(PART_CHUNK) + put_u32(sequence)
            + put_u32(chunk_size) + put_bytes(data),
        PartView::Fetch { sequence, chunk_size } => put_u8(PART_FETCH) + put_u32(sequence)
            + put_u32(chunk_size),
        PartView::Finalize => put_u8(PART_FINALIZE),
    }
}

/// Reads a part.
pub open spec fn take_part(s: Seq<u8>) -> Option<(PartView, Seq<u8>)> {
    match take_u8(s) {
        Some((kind, rest)) => if kind == PART_WHOLE {
            Some((PartView::Whole, rest))
        } else if kind == PART_FINALIZE {
            Some((PartView::Finalize, rest))
        } else if kind == PART_CHUNK || kind == PART_FETCH {
            match take_u32(rest) {
                Some((sequence, rest)) => match take_u32(rest) {
                    Some((chunk_size, rest)) => if kind == PART_FETCH {
                        Some((PartView::Fetch { sequence, chunk_size }, rest))
                    } else {
                        match take_bytes(rest) {
                            Some((data, rest)) => Some(
                                (PartView::Chunk { sequence, chunk_size, data }, rest),
                            ),
                            None => None,
                        }
                    },
                    None => None,
                },
                None => None,
            }
        } else {
            None
        },
        None => None,
    }
}

/// A frame: identifier, tag, and the body behind its length.
pub open spec fn frame(id: u32, tag: u8, body: Seq<u8>) -> Seq<u8> {
    put_u32(id) + put_u8(tag) + put_bytes(body)
}

/// Splits a frame into identifier, tag and body. Bytes after the body are
/// refused.
pub open spec fn parse_frame(s: Seq<u8>) -> Option<(u32, u8, Seq<u8>)> {
    match take_u32(s) {
        Some((id, rest)) => match take_u8(rest) {
            Some((tag, rest)) => match take_bytes(rest) {
                Some((body, rest)) => if rest.len() == 0 {
                    Some((id, tag, body))
                } else {
                    None
                },
                None => None,
            },
            None => None,
        },
        None => None,
    }
}

/// The body of the frame of `r`: the command's parameters, then the part.
pub open spec fn request_body(r: RequestView) -> Seq<u8> {
    put_command(r.command) + put_part(r.part)
}

/// Whether `r` can be framed: its body fits the length field.
pub open spec fn request_fits(r: RequestView) -> bool {
    request_body(r).len() <= u32::MAX
}

/// The frame of `r`.
#[verifier::opaque]
pub open spec fn request_frame(r: RequestView) -> Seq<u8> {
    frame(r.id, command_tag(r.command), request_body(r))
}

/// The request that a frame holds, if it holds one.
#[verifier::opaque]
pub open spec fn parse_request(s: Seq<u8>) -> Option<RequestView> {
    match parse_frame(s) {
        Some((id, tag, body)) => match take_command(tag, body) {
            Some((command, rest)) => match take_part(rest) {
                Some((part, rest)) => if rest.len() == 0 {
                    Some(RequestView { id, command, part })
                } else {
                    None
                },
                None => None,
            },
            None => None,
        },
        None => None,
    }
}

/// The bytes of a directory entry: its name, then its size.
pub open spec fn put_entry(e: DirEntryView) -> Seq<u8> {
    put_text(e.name) + put_u64(e.size)
}

/// Reads a directory entry.
pub open spec fn take_entry(s: Seq<u8>) -> Option<(DirEntryView, Seq<u8>)> {
    match take_text(s) {
        Some((name, rest)) => match take_u64(rest) {
            Some((size, rest)) => Some((DirEntryView { name, size }, rest)),
            None => None,
        },
        None => None,
    }
}

/// The entries one after another.
pub open spec fn put_entries(es: Seq<DirEntryView>) -> Seq<u8>
    decreases es.len(),
{
    if es.len() == 0 {
        Seq::empty()
    } else {
        put_entry(es[0]) + put_entries(es.drop_first())
    }
}

/// Reads `n` entries.
pub open spec fn take_entries(n: nat, s: Seq<u8>) -> Option<(Seq<DirEntryView>, Seq<u8>)>
    decreases n,
{
    if n == 0 {
        Some((Seq::empty(), s))
    } else {
        match take_entry(s) {
            Some((e, rest)) => match take_entries((n - 1) as nat, rest) {
                Some((es, rest)) => Some((seq![e] + es, rest)),
                None => None,
            },
            None => None,
        }
    }
}

/// The bytes of a payload: its mark, then its fields.
pub open spec fn put_payload(p: PayloadView) -> Seq<u8> {
    match p {
        PayloadView::Listing(es) => put_u8(PAYLOAD_LISTING) + put_u32(es.len() as u32)
            + put_entries(es),
        PayloadView::Ack { sequence } => put_u8(PAYLOAD_ACK) + put_u32(sequence),
        PayloadView::Data { sequence, last, data } => put_u8(PAYLOAD_DATA) + put_u32(sequence)
            + put_bool(last) + put_bytes(data),
        PayloadView::Checksum(sum) => put_u8(PAYLOAD_CHECKSUM) + put_u32(sum),
        PayloadView::Task(state) => put_u8(PAYLOAD_TASK) + put_u8(state.spec_code()),
    }
}

/// Reads a payload.
pub open spec fn take_payload(s: Seq<u8>) -> Option<(PayloadView, Seq<u8>)> {
    match take_u8(s) {
        Some((kind, rest)) => if kind == PAYLOAD_LISTING {
            match take_u32(rest) {
                Some((n, rest)) => match take_entries(n as nat, rest) {
                    Some((es, rest)) => Some((PayloadView::Listing(es), rest)),
                    None => None,
                },
                None => None,
            }
        } else if kind == PAYLOAD_ACK {
            match take_u32(rest) {
                Some((sequence, rest)) => Some((PayloadView::Ack { sequence }, rest)),
                None => None,
            }
        } else if kind == PAYLOAD_DATA {
            match take_u32(rest) {
                Some((sequence, rest)) => match take_bool(rest) {
                    Some((last, rest)) => match take_bytes(rest) {
                        Some((data, rest)) => Some(
                            (PayloadView::Data { sequence, last, data }, rest),
                        ),
                        None => None,
                    },
                    None => None,
                },
                None => None,
            }
        } else if kind == PAYLOAD_CHECKSUM {
            match take_u32(rest) {
                Some((sum, rest)) => Some((PayloadView::Checksum(sum), rest)),
                None => None,
            }
        } else if kind == PAYLOAD_TASK {
            match take_u8(rest) {
                Some((code, rest)) => match TaskState::spec_from_code(code) {
                    Some(state) => Some((PayloadView::Task(state), rest)),
                    None => None,
                },
                None => None,
            }
        } else {
            None
        },
        None => None,
    }
}

/// The tag byte of a response that carries `r`.
pub open spec fn reply_tag(r: ReplyView) -> u8 {
    match r {
        ReplyView::Success(_) => TAG_SUCCESS,
        ReplyView::Failure(_, _) => TAG_FAILURE,
    }
}

/// The body of a response: the payload of a success, or the kind and the
/// message of a failure.
pub open spec fn put_reply(r: ReplyView) -> Seq<u8> {
    match r {
        ReplyView::Success(p) => put_payload(p),
        ReplyView::Failure(kind, message) => put_u8(kind.spec_code()) + put_text(message),
    }
}

/// Reads the body of the response that `tag` announces.
pub open spec fn take_reply(tag: u8, s: Seq<u8>) -> Option<(ReplyView, Seq<u8>)> {
    if tag == TAG_SUCCESS {
        match take_payload(s) {
            Some((p, rest)) => Some((ReplyView::Success(p), rest)),
            None => None,
        }
    } else if tag == TAG_FAILURE {
        match take_u8(s) {
            Some((code, rest)) => match Error::spec_from_code(code) {
                Some(kind) => match take_text(rest) {
                    Some((message, rest)) => Some((ReplyView::Failure(kind, message), rest)),
                    None => None,
                },
                None => None,
            },
            None => None,
        }
    } else {
        None
    }
}

/// Whether `r` can be framed: its body fits the length field.
pub open spec fn response_fits(r: ResponseView) -> bool {
    put_reply(r.reply).len() <= u32::MAX
}

/// The frame of `r`.
#[verifier::opaque]
pub open spec fn response_frame(r: ResponseView) -> Seq<u8> {
    frame(r.id, reply_tag(r.reply), put_reply(r.reply))
}

/// The response that a frame holds, if it holds one.
#[verifier::opaque]
pub open spec fn parse_response(s: Seq<u8>) -> Option<ResponseView> {
    match parse_frame(s) {
        Some((id, tag, body)) => match take_reply(tag, body) {
            Some((reply, rest)) => if rest.len() == 0 {
                Some(ResponseView { id, reply })
            } else {
                None
            },
            None => None,
        },
        None => None,
    }
}

/// Whether every text of `c` fits its length field.
pub open spec fn command_fits(c: CommandView) -> bool {
    match c {
        CommandView::File(FileCommandView::ListDir(o)) => encode_utf8(o.base_path).len()
            <= u32::MAX,
        CommandView::File(FileCommandView::Upload(o)) => encode_utf8(o.file_name).len()
            <= u32::MAX && encode_utf8(o.base_path).len() <= u32::MAX,
        CommandView::File(FileCommandView::Download(o)) => encode_utf8(o.file_name).len()
            <= u32::MAX && encode_utf8(o.base_path).len() <= u32::MAX,
        CommandView::Task(TaskCommandView::Load(o)) => encode_utf8(o.task_name).len()
            <= u32::MAX && encode_utf8(o.file_path).len() <= u32::MAX,
        CommandView::Task(_) => true,
    }
}

/// Whether the data of `p` fits its length field.
pub open spec fn part_fits(p: PartView) -> bool {
    match p {
        PartView::Chunk { data, .. } => data.len() <= u32::MAX,
        _ => true,
    }
}

/// Reading the parameters of a command gives the command back and leaves
/// what follows them.
pub proof fn lemma_take_put_command(c: CommandView, rest: Seq<u8>)
    requires
        command_fits(c),
    ensures
        take_command(command_tag(c), put_command(c) + rest) == Some((c, rest)),
{
    match c {
        CommandView::File(FileCommandView::ListDir(o)) => {
            lemma_take_put_text(o.base_path, rest);
        },
        CommandView::File(FileCommandView::Upload(o)) => {
            assert(put_command(c) + rest =~= put_text(o.file_name) + (put_text(o.base_path)
                + rest));
            lemma_take_put_text(o.file_name, put_text(o.base_path) + rest);
            lemma_take_put_text(o.base_path, rest);
        },
        CommandView::File(FileCommandView::Download(o)) => {
            assert(put_command(c) + rest =~= put_text(o.file_name) + (put_text(o.base_path)
                + rest));
            lemma_take_put_text(o.file_name, put_text(o.base_path) + rest);
            lemma_take_put_text(o.base_path, rest);
        },
        CommandView::Task(TaskCommandView::Load(o)) => {
            assert(put_command(c) + rest =~= put_text(o.task_name) + (put_text(o.file_path)
                + rest));
            lemma_take_put_text(o.task_name, put_text(o.file_path) + rest);
            lemma_take_put_text(o.file_path, rest);
        },
        CommandView::Task(_) => {
            assert(put_command(c) + rest =~= rest);
        },
    }
}

/// Reading a part gives it back and leaves what follows it.
pub proof fn lemma_take_put_part(p: PartView, rest: Seq<u8>)
    requires
        part_fits(p),
    ensures
        take_part(put_part(p) + rest) == Some((p, rest)),
{
    match p {
        PartView::Whole => {
            lemma_take_put_u8(PART_WHOLE, rest);
        },
        PartView::Finalize => {
            lemma_take_put_u8(PART_FINALIZE, rest);
        },
        PartView::Fetch { sequence, chunk_size } => {
            let r2 = put_u32(chunk_size) + rest;
            let r1 = put_u32(sequence) + r2;
            assert(put_part(p) + rest =~= put_u8(PART_FETCH) + r1);
            lemma_take_put_u8(PART_FETCH, r1);
            lemma_take_put_u32(sequence, r2);
            lemma_take_put_u32(chunk_size, rest);
        },
        PartView::Chunk { sequence, chunk_size, data } => {
            let r3 = put_bytes(data) + rest;
            let r2 = put_u32(chunk_size) + r3;
            let r1 = put_u32(sequence) + r2;
            assert(put_part(p) + rest =~= put_u8(PART_CHUNK) + r1);
            lemma_take_put_u8(PART_CHUNK, r1);
            lemma_take_put_u32(sequence, r2);
            lemma_take_put_u32(chunk_size, r3);
            lemma_take_put_bytes(data, rest);
        },
    }
}

/// Splitting a frame gives back its identifier, tag and body. The frame is
/// its body and nine bytes more, and bytes 5 to 8 hold the body's length.
pub proof fn lemma_parse_frame(id: u32, tag: u8, body: Seq<u8>)
    requires
        body.len() <= u32::MAX,
    ensures
        parse_frame(frame(id, tag, body)) == Some((id, tag, body)),
        frame(id, tag, body).len() == HEADER_LEN + body.len(),
        spec_u32_from_le_bytes(frame(id, tag, body).subrange(5, 9)) == body.len(),
{
    lemma_put_lengths();
    let r2 = put_bytes(body) + Seq::<u8>::empty();
    let r1 = put_u8(tag) + r2;
    assert(frame(id, tag, body) =~= put_u32(id) + r1);
    lemma_take_put_u32(id, r1);
    lemma_take_put_u8(tag, r2);
    lemma_take_put_bytes(body, Seq::empty());
    lemma_take_put_u32(body.len() as u32, body);
    assert(frame(id, tag, body).subrange(5, 9) =~= (put_bytes(body)).take(4));
}

/// The size of each part of a body is bounded by the size of the body.
pub proof fn lemma_request_parts_fit(r: RequestView)
    requires
        request_fits(r),
    ensures
        command_fits(r.command),
        part_fits(r.part),
{
    lemma_put_lengths();
}

/// Reading the frame of a request gives the request back.
pub proof fn lemma_request_round_trip(r: RequestView)
    requires
        request_fits(r),
    ensures
        parse_request(request_frame(r)) == Some(r),
{
    reveal(request_frame);
    reveal(parse_request);
    lemma_request_parts_fit(r);
    lemma_parse_frame(r.id, command_tag(r.command), request_body(r));
    lemma_take_put_command(r.command, put_part(r.part));
    assert(put_part(r.part) =~= put_part(r.part) + Seq::<u8>::empty());
    lemma_take_put_part(r.part, Seq::empty());
}

/// Whether the name of every entry fits its length field.
pub open spec fn entries_fit(es: Seq<DirEntryView>) -> bool {
    forall|i: int| 0 <= i < es.len() ==> encode_utf8(#[trigger] es[i].name).len() <= u32::MAX
}

/// Whether every length in `p` fits its length field.
pub open spec fn payload_fits(p: PayloadView) -> bool {
    match p {
        PayloadView::Listing(es) => es.len() <= u32::MAX && entries_fit(es),
        PayloadView::Data { data, .. } => data.len() <= u32::MAX,
        _ => true,
    }
}

/// Whether every length in `r` fits its length field.
pub open spec fn reply_fits(r: ReplyView) -> bool {
    match r {
        ReplyView::Success(p) => payload_fits(p),
        ReplyView::Failure(_, message) => encode_utf8(message).len() <= u32::MAX,
    }
}

/// Appending an entry to a listing appends its bytes.
pub proof fn lemma_put_entries_push(es: Seq<DirEntryView>, e: DirEntryView)
    ensures
        put_entries(es.push(e)) == put_entries(es) + put_entry(e),
    decreases es.len(),
{
    let pushed = es.push(e);
    if es.len() == 0 {
        assert(pushed[0] == e);
        assert(pushed.drop_first() =~= Seq::<DirEntryView>::empty());
        assert(put_entries(pushed.drop_first()) =~= Seq::<u8>::empty());
        assert(put_entries(es) =~= Seq::<u8>::empty());
        assert(put_entries(pushed) =~= put_entry(e) + put_entries(pushed.drop_first()));
        assert(put_entries(pushed) =~= put_entries(es) + put_entry(e));
    } else {
        assert(pushed[0] == es[0]);
        assert(pushed.drop_first() =~= es.drop_first().push(e));
        lemma_put_entries_push(es.drop_first(), e);
        assert(put_entries(pushed) =~= put_entry(es[0]) + (put_entries(es.drop_first())
            + put_entry(e)));
        assert(put_entries(pushed) =~= put_entries(es) + put_entry(e));
    }
}

/// A listing takes at least twelve bytes for each entry, and at least as
/// many as any one of its entries.
pub proof fn lemma_entries_length(es: Seq<DirEntryView>)
    ensures
        put_entries(es).len() >= 12 * es.len(),
        forall|i: int| 0 <= i < es.len() ==> put_entries(es).len() >= #[trigger] put_entry(es[i]).len(),
    decreases es.len(),
{
    lemma_put_lengths();
    if es.len() > 0 {
        lemma_entries_length(es.drop_first());
        assert forall|i: int| 0 <= i < es.len() implies put_entries(es).len() >= #[trigger] put_entry(
            es[i],
        ).len() by {
            if i > 0 {
                assert(es.drop_first()[i - 1] == es[i]);
            }
        }
    }
}

/// Reading a directory entry gives it back and leaves what follows it.
pub proof fn lemma_take_put_entry(e: DirEntryView, rest: Seq<u8>)
    requires
        encode_utf8(e.name).len() <= u32::MAX,
    ensures
        take_entry(put_entry(e) + rest) == Some((e, rest)),
{
    assert(put_entry(e) + rest =~= put_text(e.name) + (put_u64(e.size) + rest));
    lemma_take_put_text(e.name, put_u64(e.size) + rest);
    lemma_take_put_u64(e.size, rest);
}

proof fn lemma_entries_fit_tail(es: Seq<DirEntryView>)
    requires
        entries_fit(es),
        es.len() > 0,
    ensures
        entries_fit(es.drop_first()),
        encode_utf8(es[0].name).len() <= u32::MAX,
{
    let tail = es.drop_first();
    assert forall|i: int| 0 <= i < tail.len() implies encode_utf8(#[trigger] tail[i].name).len()
        <= u32::MAX by {
        assert(tail[i] == es[i + 1]);
    }
}

/// Reading a listing gives it back and leaves what follows it.
pub proof fn lemma_take_put_entries(es: Seq<DirEntryView>, rest: Seq<u8>)
    requires
        entries_fit(es),
    ensures
        take_entries(es.len(), put_entries(es) + rest) == Some((es, rest)),
    decreases es.len(),
{
    if es.len() == 0 {
        assert(put_entries(es) + rest =~= rest);
        assert(es =~= Seq::<DirEntryView>::empty());
    } else {
        let tail = es.drop_first();
        let r1 = put_entries(tail) + rest;
        lemma_entries_fit_tail(es);
        assert(put_entries(es) + rest =~= put_entry(es[0]) + r1);
        lemma_take_put_entry(es[0], r1);
        lemma_take_put_entries(tail, rest);
        assert(take_entries((es.len() - 1) as nat, r1) == Some((tail, rest)));
        assert(seq![es[0]] + tail =~= es);
    }
}

/// Reading a payload gives it back and leaves what follows it.
pub proof fn lemma_take_put_payload(p: PayloadView, rest: Seq<u8>)
    requires
        payload_fits(p),
    ensures
        take_payload(put_payload(p) + rest) == Some((p, rest)),
{
    match p {
        PayloadView::Listing(es) => {
            let r2 = put_entries(es) + rest;
            let r1 = put_u32(es.len() as u32) + r2;
            assert(put_payload(p) + rest =~= put_u8(PAYLOAD_LISTING) + r1);
            lemma_take_put_u8(PAYLOAD_LISTING, r1);
            lemma_take_put_u32(es.len() as u32, r2);
            lemma_take_put_entries(es, rest);
        },
        PayloadView::Ack { sequence } => {
            let r1 = put_u32(sequence) + rest;
            assert(put_payload(p) + rest =~= put_u8(PAYLOAD_ACK) + r1);
            lemma_take_put_u8(PAYLOAD_ACK, r1);
            lemma_take_put_u32(sequence, rest);
        },
        PayloadView::Data { sequence, last, data } => {
            let r3 = put_bytes(data) + rest;
            let r2 = put_bool(last) + r3;
            let r1 = put_u32(sequence) + r2;
            assert(put_payload(p) + rest =~= put_u8(PAYLOAD_DATA) + r1);
            lemma_take_put_u8(PAYLOAD_DATA, r1);
            lemma_take_put_u32(sequence, r2);
            lemma_take_put_bool(last, r3);
            lemma_take_put_bytes(data, rest);
        },
        PayloadView::Checksum(sum) => {
            let r1 = put_u32(sum) + rest;
            assert(put_payload(p) + rest =~= put_u8(PAYLOAD_CHECKSUM) + r1);
            lemma_take_put_u8(PAYLOAD_CHECKSUM, r1);
            lemma_take_put_u32(sum, rest);
        },
        PayloadView::Task(state) => {
            let r1 = put_u8(state.spec_code()) + rest;
            assert(put_payload(p) + rest =~= put_u8(PAYLOAD_TASK) + r1);
            lemma_take_put_u8(PAYLOAD_TASK, r1);
            lemma_take_put_u8(state.spec_code(), rest);
        },
    }
}

/// Reading the body of a response gives it back and leaves what follows
/// it.
pub proof fn lemma_take_put_reply(r: ReplyView, rest: Seq<u8>)
    requires
        reply_fits(r),
    ensures
        take_reply(reply_tag(r), put_reply(r) + rest) == Some((r, rest)),
{
    match r {
        ReplyView::Success(p) => {
            lemma_take_put_payload(p, rest);
        },
        ReplyView::Failure(kind, message) => {
            let r1 = put_text(message) + rest;
            assert(put_reply(r) + rest =~= put_u8(kind.spec_code()) + r1);
            lemma_take_put_u8(kind.spec_code(), r1);
            lemma_take_put_text(message, rest);
        },
    }
}

/// The size of each part of a body is bounded by the size of the body.
pub proof fn lemma_response_parts_fit(r: ResponseView)
    requires
        response_fits(r),
    ensures
        reply_fits(r.reply),
{
    lemma_put_lengths();
    match r.reply {
        ReplyView::Success(PayloadView::Listing(es)) => {
            lemma_entries_length(es);
            assert forall|i: int| 0 <= i < es.len() implies encode_utf8(
                #[trigger] es[i].name,
            ).len() <= u32::MAX by {
                assert(put_entries(es).len() >= put_entry(es[i]).len());
            }
        },
        _ => {},
    }
}

/// Reading the frame of a response gives the response back.
pub proof fn lemma_response_round_trip(r: ResponseView)
    requires
        response_fits(r),
    ensures
        parse_response(response_frame(r)) == Some(r),
{
    reveal(response_frame);
    reveal(parse_response);
    lemma_response_parts_fit(r);
    lemma_parse_frame(r.id, reply_tag(r.reply), put_reply(r.reply));
    assert(put_reply(r.reply) =~= put_reply(r.reply) + Seq::<u8>::empty());
    lemma_take_put_reply(r.reply, Seq::empty());
}

fn tag_of(c: &Command) -> (tag: u8)
    ensures
        tag == command_tag(c@),
{
    match c {
        Command::File(FileCommand::ListDir(_)) => TAG_LIST_DIR,
        Command::File(FileCommand::Upload(_)) => TAG_UPLOAD,
        Command::File(FileCommand::Download(_)) => TAG_DOWNLOAD,
        Command::Task(TaskCommand::Load(_)) => TAG_LOAD,
        Command::Task(TaskCommand::Start) => TAG_START,
        Command::Task(TaskCommand::Stop) => TAG_STOP,
        Command::Task(TaskCommand::Unload) => TAG_UNLOAD,
        Command::Task(TaskCommand::Status) => TAG_STATUS,
    }
}

fn write_two_texts(out: &mut Vec<u8>, first: &str, second: &str) -> (ok: bool)
    ensures
        ok == (encode_utf8(first@).len() <= u32::MAX && encode_utf8(second@).len() <= u32::MAX),
        ok ==> final(out)@ == old(out)@ + (put_text(first@) + put_text(second@)),
{
    if !write_text(out, first) {
        return false;
    }
    if !write_text(out, second) {
        return false;
    }
    assert(out@ =~= old(out)@ + (put_text(first@) + put_text(second@)));
    true
}

fn write_command(out: &mut Vec<u8>, c: &Command) -> (ok: bool)
    ensures
        ok == command_fits(c@),
        ok ==> final(out)@ == old(out)@ + put_command(c@),
{
    match c {
        Command::File(FileCommand::ListDir(o)) => write_text(out, o.base_path.as_str()),
        Command::File(FileCommand::Upload(o)) => write_two_texts(
            out,
            o.file_name.as_str(),
            o.base_path.as_str(),
        ),
        Command::File(FileCommand::Download(o)) => write_two_texts(
            out,
            o.file_name.as_str(),
            o.base_path.as_str(),
        ),
        Command::Task(TaskCommand::Load(o)) => write_two_texts(
            out,
            o.task_name.as_str(),
            o.file_path.as_str(),
        ),
        Command::Task(_) => {
            assert(out@ =~= old(out)@ + put_command(c@));
            true
        },
    }
}

fn write_part(out: &mut Vec<u8>, p: &Part) -> (ok: bool)
    ensures
        ok == part_fits(p@),
        ok ==> final(out)@ == old(out)@ + put_part(p@),
{
    match p {
        Part::Whole => {
            write_u8(out, PART_WHOLE);
            true
        },
        Part::Finalize => {
            write_u8(out, PART_FINALIZE);
            true
        },
        Part::Fetch { sequence, chunk_size } => {
            write_u8(out, PART_FETCH);
            write_u32(out, *sequence);
            write_u32(out, *chunk_size);
            assert(out@ =~= old(out)@ + put_part(p@));
            true
        },
        Part::Chunk { sequence, chunk_size, data } => {
            write_u8(out, PART_CHUNK);
            write_u32(out, *sequence);
            write_u32(out, *chunk_size);
            let ok = write_bytes(out, data.as_slice());
            assert(ok ==> out@ =~= old(out)@ + put_part(p@));
            ok
        },
    }
}

fn build_frame(id: u32, tag: u8, body: &Vec<u8>) -> (r: Option<Vec<u8>>)
    ensures
        match r {
            Some(f) => body@.len() <= u32::MAX && f@ == frame(id, tag, body@),
            None => body@.len() > u32::MAX,
        },
{
    let mut out: Vec<u8> = Vec::new();
    write_u32(&mut out, id);
    write_u8(&mut out, tag);
    if !write_bytes(&mut out, body.as_slice()) {
        return None;
    }
    assert(out@ =~= frame(id, tag, body@));
    Some(out)
}

/// Frames a request. `None` is returned exactly when the request's body is
/// too long for the length field of a frame.
pub fn encode_request(r: &Request) -> (out: Option<Vec<u8>>)
    ensures
        match out {
            Some(f) => request_fits(r@) && f@ == request_frame(r@),
            None => !request_fits(r@),
        },
{
    proof {
        reveal(request_frame);
        if request_fits(r@) {
            lemma_request_parts_fit(r@);
        }
    }
    let mut body: Vec<u8> = Vec::new();
    if !write_command(&mut body, &r.command) {
        return None;
    }
    if !write_part(&mut body, &r.part) {
        return None;
    }
    assert(body@ =~= request_body(r@));
    build_frame(r.id, tag_of(&r.command), &body)
}

fn read_file_options(reader: &mut Reader) -> (r: Option<FileOptions>)
    ensures
        match take_file_options(old(reader).remaining()) {
            Some((v, rest)) => r is Some && r->0@ == v && final(reader).remaining() == rest,
            None => r is None,
        },
{
    let file_name = reader.read_text()?;
    let base_path = reader.read_text()?;
    Some(FileOptions { file_name, base_path })
}

fn read_command(tag: u8, reader: &mut Reader) -> (r: Option<Command>)
    ensures
        match take_command(tag, old(reader).remaining()) {
            Some((v, rest)) => r is Some && r->0@ == v && final(reader).remaining() == rest,
            None => r is None,
        },
{
    if tag == TAG_LIST_DIR {
        let base_path = reader.read_text()?;
        Some(Command::File(FileCommand::ListDir(ListOptions { base_path })))
    } else if tag == TAG_UPLOAD {
        let o = read_file_options(reader)?;
        Some(Command::File(FileCommand::Upload(o)))
    } else if tag == TAG_DOWNLOAD {
        let o = read_file_options(reader)?;
        Some(Command::File(FileCommand::Download(o)))
    } else if tag == TAG_LOAD {
        let task_name = reader.read_text()?;
        let file_path = reader.read_text()?;
        Some(Command::Task(TaskCommand::Load(TaskOptions { task_name, file_path })))
    } else if tag == TAG_START {
        Some(Command::Task(TaskCommand::Start))
    } else if tag == TAG_STOP {
        Some(Command::Task(TaskCommand::Stop))
    } else if tag == TAG_UNLOAD {
        Some(Command::Task(TaskCommand::Unload))
    } else if tag == TAG_STATUS {
        Some(Command::Task(TaskCommand::Status))
    } else {
        None
    }
}

fn read_part(reader: &mut Reader) -> (r: Option<Part>)
    ensures
        match take_part(old(reader).remaining()) {
            Some((v, rest)) => r is Some && r->0@ == v && final(reader).remaining() == rest,
            None => r is None,
        },
{
    let kind = reader.read_u8()?;
    if kind == PART_WHOLE {
        Some(Part::Whole)
    } else if kind == PART_FINALIZE {
        Some(Part::Finalize)
    } else if kind == PART_CHUNK || kind == PART_FETCH {
        let sequence = reader.read_u32()?;
        let chunk_size = reader.read_u32()?;
        if kind == PART_FETCH {
            Some(Part::Fetch { sequence, chunk_size })
        } else {
            let data = reader.read_bytes()?;
            Some(Part::Chunk { sequence, chunk_size, data })
        }
    } else {
        None
    }
}

fn split_frame(bytes: &[u8]) -> (r: Option<(u32, u8, Vec<u8>)>)
    ensures
        match (parse_frame(bytes@), r) {
            (Some((id, tag, body)), Some((i, t, b))) => i == id && t == tag && b@ == body,
            (None, None) => true,
            _ => false,
        },
{
    let mut reader = Reader::new(bytes);
    let id = reader.read_u32()?;
    let tag = reader.read_u8()?;
    let body = reader.read_bytes()?;
    if reader.left() != 0 {
        return None;
    }
    Some((id, tag, body))
}

fn read_request(bytes: &[u8]) -> (r: Option<Request>)
    ensures
        match parse_request(bytes@) {
            Some(v) => r is Some && r->0@ == v,
            None => r is None,
        },
{
    proof {
        reveal(parse_request);
    }
    let (id, tag, body) = split_frame(bytes)?;
    let mut reader = Reader::new(body.as_slice());
    let command = read_command(tag, &mut reader)?;
    let part = read_part(&mut reader)?;
    if reader.left() != 0 {
        return None;
    }
    Some(Request { id, command, part })
}

/// Reads a request from a frame. Any bytes that are not the frame of a
/// request are refused with `ProtocolError`.
pub fn decode_request(bytes: &[u8]) -> (r: Result<Request, Error>)
    ensures
        match parse_request(bytes@) {
            Some(v) => r is Ok && r->Ok_0@ == v,
            None => r is Err && r->Err_0 == Error::ProtocolError,
        },
{
    match read_request(bytes) {
        Some(request) => Ok(request),
        None => Err(Error::ProtocolError),
    }
}

/// Frames `command` as a request of its own, answered by one response.
pub fn encode_command(id: u32, command: &Command) -> (out: Option<Vec<u8>>)
    ensures
        ({
            let r = RequestView { id, command: command@, part: PartView::Whole };
            match out {
                Some(f) => request_fits(r) && f@ == request_frame(r),
                None => !request_fits(r),
            }
        }),
{
    let ghost r = RequestView { id, command: command@, part: PartView::Whole };
    proof {
        reveal(request_frame);
        if request_fits(r) {
            lemma_request_parts_fit(r);
        }
    }
    let mut body: Vec<u8> = Vec::new();
    if !write_command(&mut body, command) {
        return None;
    }
    write_u8(&mut body, PART_WHOLE);
    assert(body@ =~= request_body(r));
    build_frame(id, tag_of(command), &body)
}

fn write_entries(out: &mut Vec<u8>, entries: &Vec<DirEntry>) -> (ok: bool)
    ensures
        ok == entries_fit(entries_view(entries@)),
        ok ==> final(out)@ == old(out)@ + put_entries(entries_view(entries@)),
{
    let ghost es = entries_view(entries@);
    let mut i: usize = 0;
    assert(es.take(0) =~= Seq::<DirEntryView>::empty());
    assert(out@ =~= old(out)@ + put_entries(es.take(0)));
    while i < entries.len()
        invariant
            i <= entries.len(),
            es == entries_view(entries@),
            es.len() == entries.len(),
            out@ == old(out)@ + put_entries(es.take(i as int)),
            forall|j: int| 0 <= j < i ==> encode_utf8(#[trigger] es[j].name).len() <= u32::MAX,
        decreases entries.len() - i,
    {
        let entry = &entries[i];
        assert(es[i as int] == entry@);
        let ghost before = out@;
        if !write_text(out, entry.name.as_str()) {
            assert(encode_utf8(es[i as int].name).len() > u32::MAX);
            return false;
        }
        write_u64(out, entry.size);
        proof {
            lemma_put_entries_push(es.take(i as int), es[i as int]);
            assert(es.take(i as int).push(es[i as int]) =~= es.take(i + 1));
            assert(out@ =~= before + put_entry(es[i as int]));
            assert(out@ =~= old(out)@ + put_entries(es.take(i + 1)));
        }
        i += 1;
    }
    assert(es.take(i as int) =~= es);
    true
}

fn read_entries(n: u32, reader: &mut Reader) -> (r: Option<Vec<DirEntry>>)
    ensures
        match take_entries(n as nat, old(reader).remaining()) {
            Some((v, rest)) => r is Some && entries_view(r->0@) == v && final(reader).remaining()
                == rest,
            None => r is None,
        },
{
    let ghost start = reader.remaining();
    let mut entries: Vec<DirEntry> = Vec::new();
    let mut i: u32 = 0;
    assert(entries_view(entries@) =~= Seq::<DirEntryView>::empty());
    proof {
        match take_entries(n as nat, start) {
            Some((tail, rest)) => {
                assert(entries_view(entries@) + tail =~= tail);
            },
            None => {},
        }
    }
    while i < n
        invariant
            i <= n,
            start == old(reader).remaining(),
            take_entries(n as nat, start) == match take_entries(
                (n - i) as nat,
                reader.remaining(),
            ) {
                Some((tail, rest)) => Some((entries_view(entries@) + tail, rest)),
                None => None,
            },
        decreases n - i,
    {
        let ghost here = reader.remaining();
        let ghost done = entries_view(entries@);
        let name = match reader.read_text() {
            Some(name) => name,
            None => {
                assert(take_entry(here) is None);
                assert(take_entries((n - i) as nat, here) is None);
                return None;
            },
        };
        let size = match reader.read_u64() {
            Some(size) => size,
            None => {
                assert(take_entry(here) is None);
                assert(take_entries((n - i) as nat, here) is None);
                return None;
            },
        };
        let entry = DirEntry { name, size };
        proof {
            assert(take_entry(here) == Some((entry@, reader.remaining())));
            assert(entries_view(entries@.push(entry)) =~= done.push(entry@));
            match take_entries((n - i - 1) as nat, reader.remaining()) {
                Some((tail, rest)) => {
                    assert(done + (seq![entry@] + tail) =~= done.push(entry@) + tail);
                },
                None => {},
            }
        }
        entries.push(entry);
        i += 1;
    }
    proof {
        assert(entries_view(entries@) + Seq::<DirEntryView>::empty() =~= entries_view(entries@));
    }
    Some(entries)
}

fn write_payload(out: &mut Vec<u8>, p: &Payload) -> (ok: bool)
    ensures
        ok == payload_fits(p@),
        ok ==> final(out)@ == old(out)@ + put_payload(p@),
{
    match p {
        Payload::Listing(entries) => {
            if entries.len() > MAX_LEN {
                return false;
            }
            write_u8(out, PAYLOAD_LISTING);
            write_u32(out, entries.len() as u32);
            let ok = write_entries(out, entries);
            assert(ok ==> out@ =~= old(out)@ + put_payload(p@));
            ok
        },
        Payload::Ack { sequence } => {
            write_u8(out, PAYLOAD_ACK);
            write_u32(out, *sequence);
            assert(out@ =~= old(out)@ + put_payload(p@));
            true
        },
        Payload::Data { sequence, last, data } => {
            write_u8(out, PAYLOAD_DATA);
            write_u32(out, *sequence);
            write_bool(out, *last);
            let ok = write_bytes(out, data.as_slice());
            assert(ok ==> out@ =~= old(out)@ + put_payload(p@));
            ok
        },
        Payload::Checksum(sum) => {
            write_u8(out, PAYLOAD_CHECKSUM);
            write_u32(out, *sum);
            assert(out@ =~= old(out)@ + put_payload(p@));
            true
        },
        Payload::Task(state) => {
            write_u8(out, PAYLOAD_TASK);
            write_u8(out, state.code());
            assert(out@ =~= old(out)@ + put_payload(p@));
            true
        },
    }
}

fn read_payload(reader: &mut Reader) -> (r: Option<Payload>)
    ensures
        match take_payload(old(reader).remaining()) {
            Some((v, rest)) => r is Some && r->0@ == v && final(reader).remaining() == rest,
            None => r is None,
        },
{
    let kind = reader.read_u8()?;
    if kind == PAYLOAD_LISTING {
        let n = reader.read_u32()?;
        let entries = read_entries(n, reader)?;
        Some(Payload::Listing(entries))
    } else if kind == PAYLOAD_ACK {
        let sequence = reader.read_u32()?;
        Some(Payload::Ack { sequence })
    } else if kind == PAYLOAD_DATA {
        let sequence = reader.read_u32()?;
        let last = reader.read_bool()?;
        let data = reader.read_bytes()?;
        Some(Payload::Data { sequence, last, data })
    } else if kind == PAYLOAD_CHECKSUM {
        let sum = reader.read_u32()?;
        Some(Payload::Checksum(sum))
    } else if kind == PAYLOAD_TASK {
        let code = reader.read_u8()?;
        let state = TaskState::from_code(code)?;
        Some(Payload::Task(state))
    } else {
        None
    }
}

fn write_reply(out: &mut Vec<u8>, r: &Reply) -> (ok: bool)
    ensures
        ok == reply_fits(r@),
        ok ==> final(out)@ == old(out)@ + put_reply(r@),
{
    match r {
        Reply::Success(p) => write_payload(out, p),
        Reply::Failure(kind, message) => {
            write_u8(out, kind.code());
            let ok = write_text(out, message.as_str());
            assert(ok ==> out@ =~= old(out)@ + put_reply(r@));
            ok
        },
    }
}

fn read_reply(tag: u8, reader: &mut Reader) -> (r: Option<Reply>)
    ensures
        match take_reply(tag, old(reader).remaining()) {
            Some((v, rest)) => r is Some && r->0@ == v && final(reader).remaining() == rest,
            None => r is None,
        },
{
    if tag == TAG_SUCCESS {
        let p = read_payload(reader)?;
        Some(Reply::Success(p))
    } else if tag == TAG_FAILURE {
        let code = reader.read_u8()?;
        let kind = Error::from_code(code)?;
        let message = reader.read_text()?;
        Some(Reply::Failure(kind, message))
    } else {
        None
    }
}

/// Frames a response. `None` is returned exactly when the response's body
/// is too long for the length field of a frame.
pub fn encode_response(r: &Response) -> (out: Option<Vec<u8>>)
    ensures
        match out {
            Some(f) => response_fits(r@) && f@ == response_frame(r@),
            None => !response_fits(r@),
        },
{
    proof {
        reveal(response_frame);
        if response_fits(r@) {
            lemma_response_parts_fit(r@);
        }
    }
    let mut body: Vec<u8> = Vec::new();
    if !write_reply(&mut body, &r.reply) {
        return None;
    }
    assert(body@ =~= put_reply(r@.reply));
    let tag = match &r.reply {
        Reply::Success(_) => TAG_SUCCESS,
        Reply::Failure(_, _) => TAG_FAILURE,
    };
    build_frame(r.id, tag, &body)
}

fn read_response(bytes: &[u8]) -> (r: Option<Response>)
    ensures
        match parse_response(bytes@) {
            Some(v) => r is Some && r->0@ == v,
            None => r is None,
        },
{
    proof {
        reveal(parse_response);
    }
    let (id, tag, body) = split_frame(bytes)?;
    let mut reader = Reader::new(body.as_slice());
    let reply = read_reply(tag, &mut reader)?;
    if reader.left() != 0 {
        return None;
    }
    Some(Response { id, reply })
}

/// Reads a response from a frame. Any bytes that are not the frame of a
/// response are refused with `ProtocolError`.
pub fn decode_response(bytes: &[u8]) -> (r: Result<Response, Error>)
    ensures
        match parse_response(bytes@) {
            Some(v) => r is Ok && r->Ok_0@ == v,
            None => r is Err && r->Err_0 == Error::ProtocolError,
        },
{
    match read_response(bytes) {
        Some(response) => Ok(response),
        None => Err(Error::ProtocolError),
    }
}

/// The length of the whole frame whose first bytes are `header`, for a
/// reader that takes frames off a stream. `None` is returned when fewer
/// than `HEADER_LEN` bytes are given or the length does not fit `usize`.
pub fn frame_len(header: &[u8]) -> (r: Option<usize>)
    ensures
        match r {
            Some(n) => header@.len() >= HEADER_LEN && n == HEADER_LEN + spec_u32_from_le_bytes(
                header@.subrange(5, 9),
            ),
            None => header@.len() < HEADER_LEN || HEADER_LEN + spec_u32_from_le_bytes(
                header@.subrange(5, 9),
            ) > usize::MAX,
        },
{
    if header.len() < HEADER_LEN {
        return None;
    }
    let n = u32_from_le_bytes(slice_subrange(header, 5, 9));
    if n as u64 + HEADER_LEN as u64 > usize::MAX as u64 {
        return None;
    }
    Some(n as usize + HEADER_LEN)
}

} // verus!
