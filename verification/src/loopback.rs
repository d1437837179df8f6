//! A session run against a device held in memory: every frame that the
//! session sends is handed to the device, and the device's answer is handed
//! back, until the command has resolved.

use crate::checksum::{checksum_of, lemma_checksum_fits};
use crate::codec::{
    lemma_request_round_trip, lemma_response_round_trip, parse_request, request_fits,
    request_frame, response_fits, response_frame,
};
use crate::device::{
    Device, DeviceView, content_of, distinct, holds, lemma_with_content, listing, read_chunk,
    with_content,
};
use crate::error::Error;
use crate::exchange::{
    chunk_request, device_after_upload, download_start, fetched_after,
    lemma_device_takes_upload, lemma_download_fetches, lemma_upload_schedule, upload_after,
    upload_start,
};
use crate::message::{PartView, PayloadView, ReplyView, RequestView, ResponseView};
use crate::options::{
    Command, CommandView, FileCommandView, FileOptionsView, ListOptionsView, TaskCommandView,
};
use crate::session::{
    Action, ActionView, Client, ClientView, ExchangeView, Outcome, OutcomeView, Step,
    lemma_begun_valid, lemma_every_step_makes_progress,
};
use crate::task::TaskState;
use crate::transfer::{
    Progress, chunk_at, chunk_count, chunk_start, lemma_chunk_count, lemma_chunk_start_step,
    lemma_chunks_join,
};
use crate::wire::lemma_put_lengths;
use vstd::prelude::*;
use vstd::string::*;
use vstd::utf8::is_ascii_chars_encode_utf8;

verus! {

/// Why a command failed: the kind of failure and, where the device
/// reported it, the device's words.
#[derive(Clone, Debug, PartialEq, Eq)]
pub struct Failure {
    pub kind: Error,
    pub message: String,
}

/// A failure as the contracts see it.
pub struct FailureView {
    pub kind: Error,
    pub message: Seq<char>,
}

impl View for Failure {
    type V = FailureView;

    open spec fn view(&self) -> FailureView {
        FailureView { kind: self.kind, message: self.message@ }
    }
}

/// A command that has resolved: the session and the device as it left
/// them, and what it brought back.
pub struct Played {
    pub client: ClientView,
    pub device: DeviceView,
    pub result: Result<OutcomeView, FailureView>,
}

/// What becomes of a command in flight when the caller does what `action`
/// asks, against the device `d`: a frame to send is answered by the device
/// and the answer handed to the session; a wait ends in a timeout. This goes
/// on until the session reports the command done or failed.
pub open spec fn play(c: ClientView, d: DeviceView, action: ActionView) -> Played
    decreases
            c.work_left(),
            c.tries_left(),
            (if action is Send {
                1nat
            } else {
                0nat
            }),
    when c.valid() && c.exchange is Some && (action is Send || action is Wait)
{
    let step = match action {
        ActionView::Send(frame) => c.received(d.answer(frame)),
        _ => c.timed_out(),
    };
    let device = match action {
        ActionView::Send(frame) => d.served(frame),
        _ => d,
    };
    proof {
        lemma_every_step_makes_progress(
            c,
            match action {
                ActionView::Send(frame) => d.answer(frame),
                _ => Seq::empty(),
            },
        );
    }
    match step.action {
        ActionView::Done(outcome) => Played { client: step.client, device, result: Ok(outcome) },
        ActionView::Fail(kind, message) => Played {
            client: step.client,
            device,
            result: Err(FailureView { kind, message }),
        },
        next => play(step.client, device, next),
    }
}

/// What becomes of `command` when the session `c` runs it against the
/// device `d`.
pub open spec fn ran(c: ClientView, d: DeviceView, command: CommandView, content: Seq<u8>) -> Played {
    let step = c.begun(command, content);
    match step.action {
        ActionView::Done(outcome) => Played { client: step.client, device: d, result: Ok(outcome) },
        ActionView::Fail(kind, message) => Played {
            client: step.client,
            device: d,
            result: Err(FailureView { kind, message }),
        },
        next => play(step.client, d, next),
    }
}

impl Client {
    /// Runs `command` against `device`. `content` is the local file for an
    /// upload. The command resolves whatever the device answers.
    pub fn run_on(&mut self, device: &mut Device, command: &Command, content: Vec<u8>) -> (r:
        Result<Outcome, Failure>)
        requires
            old(self).wf(),
            old(device).wf(),
        ensures
            final(self).wf(),
            final(device).wf(),
            (Played {
                client: final(self)@,
                device: final(device)@,
                result: match r {
                    Ok(outcome) => Ok(outcome@),
                    Err(failure) => Err(failure@),
                },
            }) == ran(old(self)@, old(device)@, command@, content@),
    {
        proof {
            self.lemma_wf_valid();
            lemma_begun_valid(self@, command@, content@);
        }
        let ghost goal = ran(self@, device@, command@, content@);
        let mut action = self.begin(command, content);
        loop
            invariant
                self.wf(),
                device.wf(),
                self@.valid(),
                action@ is Send || action@ is Wait ==> self@.exchange is Some,
                goal == ran(old(self)@, old(device)@, command@, content@),
                goal == match action@ {
                    ActionView::Done(outcome) => Played {
                        client: self@,
                        device: device@,
                        result: Ok(outcome),
                    },
                    ActionView::Fail(kind, message) => Played {
                        client: self@,
                        device: device@,
                        result: Err(FailureView { kind, message }),
                    },
                    next => play(self@, device@, next),
                },
            decreases
                    self@.work_left(),
                    self@.tries_left(),
                    (if action@ is Send {
                        1nat
                    } else {
                        0nat
                    }),
                    (if action@ is Send || action@ is Wait {
                        1nat
                    } else {
                        0nat
                    }),
        {
            match action {
                Action::Send(frame) => {
                    proof {
                        lemma_every_step_makes_progress(self@, device@.answer(frame@));
                    }
                    let answer = device.handle(frame.as_slice());
                    action = self.on_frame(answer.as_slice());
                },
                Action::Wait => {
                    proof {
                        lemma_every_step_makes_progress(self@, Seq::empty());
                    }
                    action = self.on_timeout();
                },
                Action::Done(outcome) => {
                    return Ok(outcome);
                },
                Action::Fail(kind, message) => {
                    return Err(Failure { kind, message });
                },
            }
        }
    }
}

/// The device reads the outstanding request of a session as the request
/// that the session made, and the session reads the device's answer as the
/// response that the device gave: a failure ends the command with the
/// device's kind and words, a success is taken as the payload it carries.
pub proof fn lemma_one_exchange(c: ClientView, d: DeviceView)
    requires
        c.valid(),
        c.exchange is Some,
    ensures
        ({
            let x = c.exchange->0;
            let frame = request_frame(x.request());
            let response = ResponseView { id: x.id, reply: d.reply(x.request()) };
            &&& parse_request(frame) == Some(x.request())
            &&& d.served(frame) == d.after(x.request())
            &&& response_fits(response) ==> d.answer(frame) == response_frame(response)
                && c.received(d.answer(frame)) == match response.reply {
                ReplyView::Failure(kind, message) => Step {
                    client: c.failed(kind),
                    action: ActionView::Fail(kind, message),
                },
                ReplyView::Success(p) => c.answered(x, p),
            }
        }),
{
    let x = c.exchange->0;
    let response = ResponseView { id: x.id, reply: d.reply(x.request()) };
    lemma_request_round_trip(x.request());
    if response_fits(response) {
        lemma_response_round_trip(response);
    }
}

/// The session `c` in the middle of an upload that it has begun: chunk `k`
/// is outstanding and has been sent once, or the closing request where `k`
/// is the number of chunks.
pub open spec fn uploading(
    c: ClientView,
    target: FileOptionsView,
    data: Seq<u8>,
    k: nat,
) -> ClientView {
    let session = upload_after(upload_start(target, data, c.chunk_size as nat), k);
    ClientView {
        next_id: (c.next_id + k + 1) as u32,
        exchange: Some(
            ExchangeView {
                command: CommandView::File(FileCommandView::Upload(target)),
                id: (c.next_id + k) as u32,
                attempts: 1,
                part: session.next_part(),
                transfer: Some(session),
            },
        ),
        ..c
    }
}

/// The session and the device after an upload that went through, and what
/// the upload brings back: the session has used one identifier for each
/// chunk and one for the closing request, the device holds the file under
/// the target's name, and the result is the file's size and checksum.
pub open spec fn uploaded(
    c: ClientView,
    d: DeviceView,
    target: FileOptionsView,
    data: Seq<u8>,
) -> Played {
    Played {
        client: ClientView {
            next_id: (c.next_id + chunk_count(data.len(), c.chunk_size as nat) + 1) as u32,
            ..c
        },
        device: DeviceView { files: with_content(d.files, target, data), ..d },
        result: Ok(
            OutcomeView::Uploaded { bytes: data.len(), checksum: checksum_of(data) as u32 },
        ),
    }
}

/// If the request that carries the first chunk of an upload fits a frame,
/// so does every later request of the upload.
pub proof fn lemma_upload_requests_fit(
    target: FileOptionsView,
    data: Seq<u8>,
    chunk_size: nat,
    first_id: u32,
    k: nat,
)
    requires
        0 < chunk_size <= u32::MAX,
        chunk_count(data.len(), chunk_size) <= u32::MAX,
        k <= chunk_count(data.len(), chunk_size),
        request_fits(chunk_request(target, data, chunk_size, first_id, 0)),
    ensures
        request_fits(chunk_request(target, data, chunk_size, first_id, k)),
{
    lemma_put_lengths();
    lemma_upload_schedule(target, data, chunk_size, 0);
    lemma_upload_schedule(target, data, chunk_size, k);
    lemma_chunk_start_step(data.len(), 0, chunk_size);
    lemma_chunk_start_step(data.len(), k, chunk_size);
    lemma_chunk_count(data.len(), 0, chunk_size);
    assert(chunk_at(data, k, chunk_size).len() <= chunk_at(data, 0, chunk_size).len());
}

/// A response that carries no more than a few numbers fits a frame.
proof fn lemma_small_responses_fit(id: u32, sequence: u32, sum: u32)
    ensures
        response_fits(
            ResponseView { id, reply: ReplyView::Success(PayloadView::Ack { sequence }) },
        ),
        response_fits(ResponseView { id, reply: ReplyView::Success(PayloadView::Checksum(sum)) }),
{
    lemma_put_lengths();
}

/// One step of an upload: the device stores the outstanding chunk and
/// acknowledges it, and the session moves on to the next request.
proof fn lemma_upload_step(
    c: ClientView,
    d: DeviceView,
    target: FileOptionsView,
    data: Seq<u8>,
    k: nat,
)
    requires
        c.valid(),
        c.exchange is None,
        distinct(d.files),
        chunk_count(data.len(), c.chunk_size as nat) <= u32::MAX,
        c.next_id + chunk_count(data.len(), c.chunk_size as nat) < u32::MAX,
        request_fits(chunk_request(target, data, c.chunk_size as nat, c.next_id, 0)),
        k < chunk_count(data.len(), c.chunk_size as nat),
    ensures
        ({
            let size = c.chunk_size as nat;
            let here = uploading(c, target, data, k);
            let device = device_after_upload(d, target, data, size, c.next_id, k);
            let frame = request_frame(chunk_request(target, data, size, c.next_id, k));
            &&& here.valid()
            &&& here.received(device.answer(frame)) == (Step {
                client: uploading(c, target, data, k + 1),
                action: ActionView::Send(
                    request_frame(chunk_request(target, data, size, c.next_id, k + 1)),
                ),
            })
            &&& device.served(frame) == device_after_upload(
                d,
                target,
                data,
                size,
                c.next_id,
                k + 1,
            )
        }),
{
    let size = c.chunk_size as nat;
    let here = uploading(c, target, data, k);
    let device = device_after_upload(d, target, data, size, c.next_id, k);
    let x = here.exchange->0;
    let request = chunk_request(target, data, size, c.next_id, k);
    let session = upload_after(upload_start(target, data, size), k);
    let ack = PayloadView::Ack { sequence: k as u32 };
    lemma_upload_schedule(target, data, size, k);
    lemma_upload_schedule(target, data, size, k + 1);
    lemma_upload_requests_fit(target, data, size, c.next_id, k);
    lemma_upload_requests_fit(target, data, size, c.next_id, k + 1);
    assert(x.request() == request);
    assert(here.valid());
    lemma_device_takes_upload(d, target, data, size, c.next_id, k + 1);
    lemma_small_responses_fit(x.id, k as u32, 0);
    lemma_one_exchange(here, device);
    assert(device.reply(request) == ReplyView::Success(ack));
    assert(here.received(device.answer(request_frame(request))) == here.answered(x, ack));
    assert(session.outcome(ack) == Ok::<Progress, Error>(Progress::Continue));
    assert(session.after(ack) == upload_after(upload_start(target, data, size), k + 1));
    assert(here.answered(x, ack) == here.moved_on(x, session.after(ack)));
}

/// The close of an upload: the device reports the checksum of what it
/// holds, which is the file's, and the session reports the upload done.
proof fn lemma_upload_close(
    c: ClientView,
    d: DeviceView,
    target: FileOptionsView,
    data: Seq<u8>,
)
    requires
        c.valid(),
        c.exchange is None,
        distinct(d.files),
        chunk_count(data.len(), c.chunk_size as nat) <= u32::MAX,
        c.next_id + chunk_count(data.len(), c.chunk_size as nat) < u32::MAX,
        request_fits(chunk_request(target, data, c.chunk_size as nat, c.next_id, 0)),
    ensures
        ({
            let size = c.chunk_size as nat;
            let count = chunk_count(data.len(), size);
            let here = uploading(c, target, data, count);
            let device = device_after_upload(d, target, data, size, c.next_id, count);
            let frame = request_frame(chunk_request(target, data, size, c.next_id, count));
            let end = uploaded(c, d, target, data);
            &&& here.valid()
            &&& here.received(device.answer(frame)) == (Step {
                client: end.client,
                action: ActionView::Done(end.result->Ok_0),
            })
            &&& device.served(frame) == end.device
        }),
{
    let size = c.chunk_size as nat;
    let count = chunk_count(data.len(), size);
    let here = uploading(c, target, data, count);
    let device = device_after_upload(d, target, data, size, c.next_id, count);
    let x = here.exchange->0;
    let request = chunk_request(target, data, size, c.next_id, count);
    let session = upload_after(upload_start(target, data, size), count);
    let sum = PayloadView::Checksum(checksum_of(data) as u32);
    lemma_chunk_count(data.len(), 0, size);
    lemma_upload_schedule(target, data, size, count);
    lemma_upload_requests_fit(target, data, size, c.next_id, count);
    assert(x.request() == request);
    assert(here.valid());
    lemma_device_takes_upload(d, target, data, size, c.next_id, count);
    lemma_chunks_join(data, count, size);
    lemma_checksum_fits(data);
    lemma_small_responses_fit(x.id, 0, checksum_of(data) as u32);
    lemma_one_exchange(here, device);
    assert(device.reply(request) == device.reply_finalize(target));
    assert(device.reply(request) == ReplyView::Success(sum));
    assert(here.received(device.answer(request_frame(request))) == here.answered(x, sum));
    assert(session.outcome(sum) == Ok::<Progress, Error>(Progress::Complete));
    assert(device.after(request) == device);
    assert(device == DeviceView { files: with_content(d.files, target, data), ..d });
}

proof fn lemma_upload_plays(
    c: ClientView,
    d: DeviceView,
    target: FileOptionsView,
    data: Seq<u8>,
    k: nat,
)
    requires
        c.valid(),
        c.exchange is None,
        distinct(d.files),
        chunk_count(data.len(), c.chunk_size as nat) <= u32::MAX,
        c.next_id + chunk_count(data.len(), c.chunk_size as nat) < u32::MAX,
        request_fits(chunk_request(target, data, c.chunk_size as nat, c.next_id, 0)),
        k <= chunk_count(data.len(), c.chunk_size as nat),
    ensures
        play(
            uploading(c, target, data, k),
            device_after_upload(d, target, data, c.chunk_size as nat, c.next_id, k),
            ActionView::Send(
                request_frame(chunk_request(target, data, c.chunk_size as nat, c.next_id, k)),
            ),
        ) == uploaded(c, d, target, data),
    decreases chunk_count(data.len(), c.chunk_size as nat) - k,
{
    let size = c.chunk_size as nat;
    let here = uploading(c, target, data, k);
    let device = device_after_upload(d, target, data, size, c.next_id, k);
    let frame = request_frame(chunk_request(target, data, size, c.next_id, k));
    if k < chunk_count(data.len(), size) {
        lemma_upload_step(c, d, target, data, k);
        lemma_upload_plays(c, d, target, data, k + 1);
    } else {
        lemma_upload_close(c, d, target, data);
    }
    lemma_every_step_makes_progress(here, device.answer(frame));
}

/// An upload that the session accepts and has identifiers enough for goes
/// through against the device: every chunk is stored and acknowledged, the
/// checksums agree, and the device then holds the file byte for byte in
/// place of whatever it held under that name.
pub proof fn lemma_upload_runs(
    c: ClientView,
    d: DeviceView,
    target: FileOptionsView,
    data: Seq<u8>,
)
    requires
        c.valid(),
        distinct(d.files),
        c.refusal(CommandView::File(FileCommandView::Upload(target)), data) is None,
        c.next_id + chunk_count(data.len(), c.chunk_size as nat) < u32::MAX,
    ensures
        ran(c, d, CommandView::File(FileCommandView::Upload(target)), data) == uploaded(
            c,
            d,
            target,
            data,
        ),
{
    let command = CommandView::File(FileCommandView::Upload(target));
    let size = c.chunk_size as nat;
    lemma_upload_schedule(target, data, size, 0);
    assert(c.first_request(command, data) == chunk_request(target, data, size, c.next_id, 0));
    assert(c.begun(command, data).client == uploading(c, target, data, 0));
    lemma_upload_plays(c, d, target, data, 0);
}

/// The request for chunk `k` of a download of `file`, as the session makes
/// it once the chunks before it have arrived, or the closing request where
/// `k` is the number of chunks.
pub open spec fn fetch_request(
    target: FileOptionsView,
    file: Seq<u8>,
    chunk_size: nat,
    first_id: u32,
    k: nat,
) -> RequestView {
    RequestView {
        id: (first_id + k) as u32,
        command: CommandView::File(FileCommandView::Download(target)),
        part: fetched_after(download_start(target, chunk_size), file, k).next_part(),
    }
}

/// The session `c` in the middle of a download of `file` that it has begun:
/// the request for chunk `k` is outstanding and has been sent once.
pub open spec fn downloading(
    c: ClientView,
    target: FileOptionsView,
    file: Seq<u8>,
    k: nat,
) -> ClientView {
    let session = fetched_after(download_start(target, c.chunk_size as nat), file, k);
    ClientView {
        next_id: (c.next_id + k + 1) as u32,
        exchange: Some(
            ExchangeView {
                command: CommandView::File(FileCommandView::Download(target)),
                id: (c.next_id + k) as u32,
                attempts: 1,
                part: session.next_part(),
                transfer: Some(session),
            },
        ),
        ..c
    }
}

/// The session and the device after a download that went through, and
/// what the download brings back: the session has used one identifier for
/// each chunk and one for the closing request, the device is as it was, and
/// the result is the file as the device holds it, with its checksum.
pub open spec fn downloaded(c: ClientView, d: DeviceView, target: FileOptionsView) -> Played {
    let file = content_of(d.files, target);
    Played {
        client: ClientView {
            next_id: (c.next_id + chunk_count(file.len(), c.chunk_size as nat) + 1) as u32,
            ..c
        },
        device: d,
        result: Ok(OutcomeView::Downloaded { content: file, checksum: checksum_of(file) as u32 }),
    }
}

/// Every request of a download fits a frame if the first does.
proof fn lemma_download_requests_fit(
    target: FileOptionsView,
    file: Seq<u8>,
    chunk_size: nat,
    first_id: u32,
    k: nat,
)
    requires
        0 < chunk_size <= u32::MAX,
        chunk_count(file.len(), chunk_size) <= u32::MAX,
        k <= chunk_count(file.len(), chunk_size),
        request_fits(fetch_request(target, file, chunk_size, first_id, 0)),
    ensures
        request_fits(fetch_request(target, file, chunk_size, first_id, k)),
{
    lemma_put_lengths();
    lemma_download_fetches(target, file, chunk_size, 0);
    lemma_download_fetches(target, file, chunk_size, k);
    lemma_chunk_count(file.len(), 0, chunk_size);
}

/// A response that carries one chunk fits a frame if the chunk leaves room
/// for the ten bytes around it.
proof fn lemma_data_response_fits(id: u32, sequence: u32, last: bool, data: Seq<u8>)
    requires
        data.len() + 10 <= u32::MAX,
    ensures
        response_fits(
            ResponseView {
                id,
                reply: ReplyView::Success(PayloadView::Data { sequence, last, data }),
            },
        ),
{
    lemma_put_lengths();
}

/// The device answers the request for chunk `k` of a file it holds with
/// that chunk, no longer than asked for, and marks the chunk that reaches
/// the end of the file.
proof fn lemma_device_gives_back(d: DeviceView, target: FileOptionsView, size: nat, k: nat)
    requires
        0 < size <= u32::MAX,
        holds(d.files, target),
        k < chunk_count(content_of(d.files, target).len(), size),
    ensures
        ({
            let file = content_of(d.files, target);
            match read_chunk(file, k, size) {
                Some((data, last)) => data == chunk_at(file, k, size) && data.len() <= size
                    && last == (k + 1 == chunk_count(file.len(), size)),
                None => false,
            }
        }),
{
    let file = content_of(d.files, target);
    lemma_chunk_count(file.len(), k, size);
    lemma_chunk_count(file.len(), k + 1, size);
    lemma_chunk_start_step(file.len(), k, size);
    let offset = k * size;
    assert(offset == chunk_start(file.len(), k, size)) by {
        if k == 0 {
            assert(0 * size == 0) by (nonlinear_arith);
        }
    }
    assert((k + 1) * size == offset + size) by (nonlinear_arith)
        requires
            offset == k * size,
    ;
    match read_chunk(file, k, size) {
        Some((data, last)) => {
            assert(data =~= chunk_at(file, k, size));
        },
        None => {},
    }
}

/// One step of a download: the device hands out the chunk asked for, and
/// the session appends it and moves on to the next request.
proof fn lemma_download_step(c: ClientView, d: DeviceView, target: FileOptionsView, k: nat)
    requires
        c.valid(),
        c.exchange is None,
        c.chunk_size + 10 <= u32::MAX,
        holds(d.files, target),
        chunk_count(content_of(d.files, target).len(), c.chunk_size as nat) <= u32::MAX,
        c.next_id + chunk_count(content_of(d.files, target).len(), c.chunk_size as nat)
            < u32::MAX,
        request_fits(
            fetch_request(target, content_of(d.files, target), c.chunk_size as nat, c.next_id, 0),
        ),
        k < chunk_count(content_of(d.files, target).len(), c.chunk_size as nat),
    ensures
        ({
            let size = c.chunk_size as nat;
            let file = content_of(d.files, target);
            let here = downloading(c, target, file, k);
            let frame = request_frame(fetch_request(target, file, size, c.next_id, k));
            &&& here.valid()
            &&& here.received(d.answer(frame)) == (Step {
                client: downloading(c, target, file, k + 1),
                action: ActionView::Send(
                    request_frame(fetch_request(target, file, size, c.next_id, k + 1)),
                ),
            })
            &&& d.served(frame) == d
        }),
{
    let size = c.chunk_size as nat;
    let file = content_of(d.files, target);
    let here = downloading(c, target, file, k);
    let x = here.exchange->0;
    let request = fetch_request(target, file, size, c.next_id, k);
    let session = fetched_after(download_start(target, size), file, k);
    lemma_download_fetches(target, file, size, k);
    lemma_download_fetches(target, file, size, k + 1);
    lemma_download_requests_fit(target, file, size, c.next_id, k);
    lemma_download_requests_fit(target, file, size, c.next_id, k + 1);
    lemma_chunk_count(file.len(), k, size);
    assert(x.request() == request);
    assert(here.valid());
    assert(request.part == PartView::Fetch { sequence: k as u32, chunk_size: size as u32 });
    lemma_device_gives_back(d, target, size, k);
    match read_chunk(file, k, size) {
        Some((data, last)) => {
            let payload = PayloadView::Data { sequence: k as u32, last, data };
            lemma_data_response_fits(x.id, k as u32, last, data);
            lemma_one_exchange(here, d);
            assert(d.reply(request) == ReplyView::Success(payload));
            assert(here.received(d.answer(request_frame(request))) == here.answered(x, payload));
            assert(session.outcome(payload) == Ok::<Progress, Error>(Progress::Continue));
            assert(session.after(payload) == fetched_after(
                download_start(target, size),
                file,
                k + 1,
            ));
            assert(here.answered(x, payload) == here.moved_on(x, session.after(payload)));
            assert(d.after(request) == d);
        },
        None => {},
    }
}

/// The close of a download: the device reports the checksum of the file,
/// and the session, which holds the file whole, reports the download done.
proof fn lemma_download_close(c: ClientView, d: DeviceView, target: FileOptionsView)
    requires
        c.valid(),
        c.exchange is None,
        c.chunk_size + 10 <= u32::MAX,
        holds(d.files, target),
        chunk_count(content_of(d.files, target).len(), c.chunk_size as nat) <= u32::MAX,
        c.next_id + chunk_count(content_of(d.files, target).len(), c.chunk_size as nat)
            < u32::MAX,
        request_fits(
            fetch_request(target, content_of(d.files, target), c.chunk_size as nat, c.next_id, 0),
        ),
    ensures
        ({
            let size = c.chunk_size as nat;
            let file = content_of(d.files, target);
            let count = chunk_count(file.len(), size);
            let here = downloading(c, target, file, count);
            let frame = request_frame(fetch_request(target, file, size, c.next_id, count));
            let end = downloaded(c, d, target);
            &&& here.valid()
            &&& here.received(d.answer(frame)) == (Step {
                client: end.client,
                action: ActionView::Done(end.result->Ok_0),
            })
            &&& d.served(frame) == d
        }),
{
    let size = c.chunk_size as nat;
    let file = content_of(d.files, target);
    let count = chunk_count(file.len(), size);
    let here = downloading(c, target, file, count);
    let x = here.exchange->0;
    let request = fetch_request(target, file, size, c.next_id, count);
    let session = fetched_after(download_start(target, size), file, count);
    let sum = PayloadView::Checksum(checksum_of(file) as u32);
    lemma_chunk_count(file.len(), 0, size);
    lemma_download_fetches(target, file, size, count);
    lemma_download_requests_fit(target, file, size, c.next_id, count);
    lemma_chunks_join(file, count, size);
    lemma_checksum_fits(file);
    assert(x.request() == request);
    assert(here.valid());
    lemma_small_responses_fit(x.id, 0, checksum_of(file) as u32);
    lemma_one_exchange(here, d);
    assert(d.reply(request) == d.reply_finalize(target));
    assert(d.reply(request) == ReplyView::Success(sum));
    assert(here.received(d.answer(request_frame(request))) == here.answered(x, sum));
    assert(session.content == file);
    assert(session.outcome(sum) == Ok::<Progress, Error>(Progress::Complete));
    assert(d.after(request) == d);
}

proof fn lemma_download_plays(c: ClientView, d: DeviceView, target: FileOptionsView, k: nat)
    requires
        c.valid(),
        c.exchange is None,
        c.chunk_size + 10 <= u32::MAX,
        holds(d.files, target),
        chunk_count(content_of(d.files, target).len(), c.chunk_size as nat) <= u32::MAX,
        c.next_id + chunk_count(content_of(d.files, target).len(), c.chunk_size as nat)
            < u32::MAX,
        request_fits(
            fetch_request(target, content_of(d.files, target), c.chunk_size as nat, c.next_id, 0),
        ),
        k <= chunk_count(content_of(d.files, target).len(), c.chunk_size as nat),
    ensures
        play(
            downloading(c, target, content_of(d.files, target), k),
            d,
            ActionView::Send(
                request_frame(
                    fetch_request(
                        target,
                        content_of(d.files, target),
                        c.chunk_size as nat,
                        c.next_id,
                        k,
                    ),
                ),
            ),
        ) == downloaded(c, d, target),
    decreases chunk_count(content_of(d.files, target).len(), c.chunk_size as nat) - k,
{
    let file = content_of(d.files, target);
    let size = c.chunk_size as nat;
    let here = downloading(c, target, file, k);
    let frame = request_frame(fetch_request(target, file, size, c.next_id, k));
    if k < chunk_count(file.len(), size) {
        lemma_download_step(c, d, target, k);
        lemma_download_plays(c, d, target, k + 1);
    } else {
        lemma_download_close(c, d, target);
    }
    lemma_every_step_makes_progress(here, d.answer(frame));
}

/// A download that the session accepts and has identifiers enough for, of
/// a file that the device holds, goes through: the chunks arrive in order,
/// the checksums agree, and the result is the file byte for byte. The
/// device is left as it was.
pub proof fn lemma_download_runs(
    c: ClientView,
    d: DeviceView,
    target: FileOptionsView,
    content: Seq<u8>,
)
    requires
        c.valid(),
        c.chunk_size + 10 <= u32::MAX,
        holds(d.files, target),
        c.refusal(CommandView::File(FileCommandView::Download(target)), content) is None,
        chunk_count(content_of(d.files, target).len(), c.chunk_size as nat) <= u32::MAX,
        c.next_id + chunk_count(content_of(d.files, target).len(), c.chunk_size as nat)
            < u32::MAX,
    ensures
        ran(c, d, CommandView::File(FileCommandView::Download(target)), content) == downloaded(
            c,
            d,
            target,
        ),
{
    let command = CommandView::File(FileCommandView::Download(target));
    let size = c.chunk_size as nat;
    let file = content_of(d.files, target);
    lemma_download_fetches(target, file, size, 0);
    lemma_chunk_count(file.len(), 0, size);
    assert(c.first_request(command, content) == fetch_request(target, file, size, c.next_id, 0));
    assert(c.begun(command, content).client == downloading(c, target, file, 0));
    lemma_download_plays(c, d, target, 0);
}

/// A file that one session uploads and another downloads from the same
/// device comes back byte for byte and with the checksum of the upload,
/// whatever the two chunk sizes are and whatever the device held under that
/// name before.
pub proof fn lemma_upload_then_download_runs(
    sender: ClientView,
    receiver: ClientView,
    d: DeviceView,
    target: FileOptionsView,
    data: Seq<u8>,
    ignored: Seq<u8>,
)
    requires
        sender.valid(),
        receiver.valid(),
        receiver.chunk_size + 10 <= u32::MAX,
        distinct(d.files),
        sender.refusal(CommandView::File(FileCommandView::Upload(target)), data) is None,
        receiver.refusal(CommandView::File(FileCommandView::Download(target)), ignored) is None,
        sender.next_id + chunk_count(data.len(), sender.chunk_size as nat) < u32::MAX,
        chunk_count(data.len(), receiver.chunk_size as nat) <= u32::MAX,
        receiver.next_id + chunk_count(data.len(), receiver.chunk_size as nat) < u32::MAX,
    ensures
        ({
            let sent = ran(sender, d, CommandView::File(FileCommandView::Upload(target)), data);
            let got = ran(
                receiver,
                sent.device,
                CommandView::File(FileCommandView::Download(target)),
                ignored,
            );
            &&& sent.result == Ok::<OutcomeView, FailureView>(
                OutcomeView::Uploaded { bytes: data.len(), checksum: checksum_of(data) as u32 },
            )
            &&& got.result == Ok::<OutcomeView, FailureView>(
                OutcomeView::Downloaded { content: data, checksum: checksum_of(data) as u32 },
            )
            &&& got.device == sent.device
        }),
{
    lemma_upload_runs(sender, d, target, data);
    let held = DeviceView { files: with_content(d.files, target, data), ..d };
    lemma_with_content(d.files, target, data);
    lemma_download_runs(receiver, held, target, ignored);
}

/// The refusals that the device words itself fit a frame.
proof fn lemma_refusals_fit(id: u32, kind: Error)
    ensures
        response_fits(ResponseView { id, reply: ReplyView::Failure(kind, "no such file"@) }),
        response_fits(
            ResponseView { id, reply: ReplyView::Failure(kind, "task slot refuses the command"@) },
        ),
        response_fits(ResponseView { id, reply: ReplyView::Failure(kind, "response too long"@) }),
        forall|state: TaskState| #[trigger]
            response_fits(
                ResponseView { id, reply: ReplyView::Success(PayloadView::Task(state)) },
            ),
{
    lemma_put_lengths();
    reveal_strlit("no such file");
    reveal_strlit("task slot refuses the command");
    reveal_strlit("response too long");
    is_ascii_chars_encode_utf8("no such file"@);
    is_ascii_chars_encode_utf8("task slot refuses the command"@);
    is_ascii_chars_encode_utf8("response too long"@);
}

/// A task command that the session accepts is answered by the device's
/// own task slot: where the device makes the transition, both the device
/// and the session move to the state it reports; where the device refuses,
/// the command fails with the device's kind and words, and neither moves.
pub proof fn lemma_task_command_runs(
    c: ClientView,
    d: DeviceView,
    command: TaskCommandView,
    content: Seq<u8>,
)
    requires
        c.valid(),
        c.refusal(CommandView::Task(command), content) is None,
    ensures
        ran(c, d, CommandView::Task(command), content) == match d.reply_task(command) {
            ReplyView::Success(p) => Played {
                client: ClientView {
                    next_id: (c.next_id + 1) as u32,
                    task: c.task.acknowledged(command, p->Task_0),
                    ..c
                },
                device: DeviceView {
                    task: d.task.moved(command, d.task.state().step(command.op())),
                    ..d
                },
                result: Ok(OutcomeView::Task(p->Task_0)),
            },
            ReplyView::Failure(kind, message) => Played {
                client: (ClientView { next_id: (c.next_id + 1) as u32, ..c }).failed(kind),
                device: d,
                result: Err(FailureView { kind, message }),
            },
        },
        d.reply_task(command) is Success ==> d.reply_task(command)->Success_0 is Task,
{
    let whole = CommandView::Task(command);
    let begun = c.begun(whole, content);
    let here = begun.client;
    let x = here.exchange->0;
    lemma_begun_valid(c, whole, content);
    lemma_one_exchange(here, d);
    lemma_refusals_fit(x.id, Error::InvalidState);
    lemma_refusals_fit(x.id, Error::DeviceError);
    let frame = request_frame(x.request());
    assert(d.reply(x.request()) == d.reply_task(command));
    lemma_every_step_makes_progress(here, d.answer(frame));
}

/// A listing that the session accepts brings back the entries of the
/// directory as the device holds them, in the device's order, provided they
/// fit a frame; where they do not, the command fails with the device's
/// refusal. The device is left as it was.
pub proof fn lemma_list_dir_runs(
    c: ClientView,
    d: DeviceView,
    o: ListOptionsView,
    content: Seq<u8>,
)
    requires
        c.valid(),
        c.refusal(CommandView::File(FileCommandView::ListDir(o)), content) is None,
    ensures
        ({
            let entries = listing(d.files, o.base_path);
            let response = ResponseView {
                id: c.next_id,
                reply: ReplyView::Success(PayloadView::Listing(entries)),
            };
            let after = ClientView { next_id: (c.next_id + 1) as u32, ..c };
            ran(c, d, CommandView::File(FileCommandView::ListDir(o)), content) == if response_fits(
                response,
            ) {
                Played { client: after, device: d, result: Ok(OutcomeView::Listing(entries)) }
            } else {
                Played {
                    client: after,
                    device: d,
                    result: Err(
                        FailureView { kind: Error::DeviceError, message: "response too long"@ },
                    ),
                }
            }
        }),
{
    let whole = CommandView::File(FileCommandView::ListDir(o));
    let begun = c.begun(whole, content);
    let here = begun.client;
    let x = here.exchange->0;
    let frame = request_frame(x.request());
    let entries = listing(d.files, o.base_path);
    let response = ResponseView { id: x.id, reply: ReplyView::Success(PayloadView::Listing(entries)) };
    lemma_begun_valid(c, whole, content);
    lemma_one_exchange(here, d);
    lemma_every_step_makes_progress(here, d.answer(frame));
    assert(d.reply(x.request()) == response.reply);
    if !response_fits(response) {
        let refusal = ResponseView {
            id: x.id,
            reply: ReplyView::Failure(Error::DeviceError, "response too long"@),
        };
        lemma_refusals_fit(x.id, Error::DeviceError);
        lemma_response_round_trip(refusal);
        assert(d.answer(frame) == response_frame(refusal));
    }
}

} // verus!
