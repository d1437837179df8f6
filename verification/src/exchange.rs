//! What holds of a whole transfer between a session and a truthful device:
//! which requests an upload makes, what the device then holds, and what a
//! download of it brings back.

use crate::checksum::{checksum_of, lemma_checksum_fits, lemma_one_byte_changes_checksum};
use crate::device::{
    DeviceView, content_of, distinct, holds, lemma_with_content, lemma_with_content_twice,
    read_chunk, store_chunk, with_content,
};
use crate::error::Error;
use crate::message::{PartView, PayloadView, ReplyView, RequestView};
use crate::options::{CommandView, FileCommandView, FileOptionsView};
use crate::transfer::{
    Direction, Progress, TransferView, chunk_at, chunk_count, chunk_start, lemma_chunk_count,
    lemma_chunk_start_step, lemma_chunks_join,
};
use vstd::prelude::*;

verus! {

/// An upload of `data` before its first request.
pub open spec fn upload_start(
    target: FileOptionsView,
    data: Seq<u8>,
    chunk_size: nat,
) -> TransferView {
    TransferView {
        target,
        direction: Direction::Upload,
        content: data,
        chunk_size,
        next: 0,
        ended: false,
    }
}

/// A download before its first request.
pub open spec fn download_start(target: FileOptionsView, chunk_size: nat) -> TransferView {
    TransferView {
        target,
        direction: Direction::Download,
        content: Seq::empty(),
        chunk_size,
        next: 0,
        ended: false,
    }
}

/// An upload after its first `n` chunks were acknowledged, each under its
/// own sequence number.
pub open spec fn upload_after(start: TransferView, n: nat) -> TransferView
    decreases n,
{
    if n == 0 {
        start
    } else {
        let before = upload_after(start, (n - 1) as nat);
        before.after(PayloadView::Ack { sequence: before.next as u32 })
    }
}

/// The file on the device after the first `n` chunks of an upload of `data`
/// were written to `file` in order. A chunk that the device refuses leaves
/// the file as it was.
pub open spec fn stored_after(file: Seq<u8>, data: Seq<u8>, chunk_size: nat, n: nat) -> Seq<u8>
    decreases n,
{
    if n == 0 {
        file
    } else {
        let before = stored_after(file, data, chunk_size, (n - 1) as nat);
        match store_chunk(
            before,
            (n - 1) as nat,
            chunk_size,
            chunk_at(data, (n - 1) as nat, chunk_size),
        ) {
            Some(stored) => stored,
            None => before,
        }
    }
}

/// A download after `n` requests, each answered by the device with the
/// chunk of `file` that was asked for.
pub open spec fn fetched_after(start: TransferView, file: Seq<u8>, n: nat) -> TransferView
    decreases n,
{
    if n == 0 {
        start
    } else {
        let before = fetched_after(start, file, (n - 1) as nat);
        match read_chunk(file, before.next, before.chunk_size) {
            Some((data, last)) => before.after(
                PayloadView::Data { sequence: before.next as u32, last, data },
            ),
            None => before,
        }
    }
}

/// An upload whose chunks are acknowledged in order makes one chunk request
/// for each chunk of the file, each with its sequence number and its bytes,
/// and then the closing request: `chunk_count` chunk requests and one more.
pub proof fn lemma_upload_schedule(
    target: FileOptionsView,
    data: Seq<u8>,
    chunk_size: nat,
    n: nat,
)
    requires
        0 < chunk_size <= u32::MAX,
        chunk_count(data.len(), chunk_size) <= u32::MAX,
        n <= chunk_count(data.len(), chunk_size),
    ensures
        ({
            let session = upload_after(upload_start(target, data, chunk_size), n);
            &&& session.valid()
            &&& session.next == n
            &&& session.content == data
            &&& session.chunk_size == chunk_size
            &&& session.direction == Direction::Upload
            &&& session.next_part() == if n < chunk_count(data.len(), chunk_size) {
                PartView::Chunk {
                    sequence: n as u32,
                    chunk_size: chunk_size as u32,
                    data: chunk_at(data, n, chunk_size),
                }
            } else {
                PartView::Finalize
            }
        }),
    decreases n,
{
    lemma_chunk_count(data.len(), n, chunk_size);
    if n > 0 {
        lemma_upload_schedule(target, data, chunk_size, (n - 1) as nat);
    }
}

/// The device holds the file's bytes up to the end of the last chunk it
/// wrote, whatever the file held before the upload; after the last chunk it
/// holds the file.
pub proof fn lemma_upload_stores(file: Seq<u8>, data: Seq<u8>, chunk_size: nat, n: nat)
    requires
        chunk_size > 0,
        1 <= n <= chunk_count(data.len(), chunk_size),
    ensures
        store_chunk(
            stored_after(file, data, chunk_size, (n - 1) as nat),
            (n - 1) as nat,
            chunk_size,
            chunk_at(data, (n - 1) as nat, chunk_size),
        ) is Some,
        stored_after(file, data, chunk_size, n) == data.take(
            chunk_start(data.len(), n, chunk_size) as int,
        ),
        n == chunk_count(data.len(), chunk_size) ==> stored_after(file, data, chunk_size, n)
            == data,
    decreases n,
{
    let k = (n - 1) as nat;
    let chunk = chunk_at(data, k, chunk_size);
    lemma_chunks_join(data, k, chunk_size);
    lemma_chunks_join(data, n, chunk_size);
    lemma_chunk_start_step(data.len(), k, chunk_size);
    lemma_chunk_count(data.len(), k, chunk_size);
    let before = stored_after(file, data, chunk_size, k);
    if k == 0 {
        assert(0 * chunk_size == 0) by (nonlinear_arith);
        assert(before.take(0) + chunk =~= data.take(0) + chunk);
    } else {
        lemma_upload_stores(file, data, chunk_size, k);
        assert(before.take((k * chunk_size) as int) =~= before);
    }
}

/// A download from a truthful device holds, after each answer, the file's
/// bytes up to the end of the chunk that arrived, and ends with the chunk
/// that reaches the file's end.
pub proof fn lemma_download_fetches(
    target: FileOptionsView,
    file: Seq<u8>,
    chunk_size: nat,
    n: nat,
)
    requires
        0 < chunk_size <= u32::MAX,
        chunk_count(file.len(), chunk_size) <= u32::MAX,
        n <= chunk_count(file.len(), chunk_size),
    ensures
        ({
            let session = fetched_after(download_start(target, chunk_size), file, n);
            &&& session.valid()
            &&& session.next == n
            &&& session.chunk_size == chunk_size
            &&& session.direction == Direction::Download
            &&& session.content == file.take(chunk_start(file.len(), n, chunk_size) as int)
            &&& session.ended == (n == chunk_count(file.len(), chunk_size))
        }),
    decreases n,
{
    lemma_chunk_count(file.len(), n, chunk_size);
    lemma_chunk_start_step(file.len(), n, chunk_size);
    if n == 0 {
        assert(0 * chunk_size == 0) by (nonlinear_arith);
        assert(file.take(0) =~= Seq::<u8>::empty());
    } else {
        let k = (n - 1) as nat;
        lemma_download_fetches(target, file, chunk_size, k);
        lemma_chunk_count(file.len(), k, chunk_size);
        lemma_chunk_start_step(file.len(), k, chunk_size);
        lemma_chunks_join(file, k, chunk_size);
        let before = fetched_after(download_start(target, chunk_size), file, k);
        let offset = k * chunk_size;
        assert(offset == chunk_start(file.len(), k, chunk_size)) by {
            if k == 0 {
                assert(0 * chunk_size == 0) by (nonlinear_arith);
            }
        }
        assert((k + 1) * chunk_size == offset + chunk_size) by (nonlinear_arith)
            requires
                offset == k * chunk_size,
        ;
        assert(read_chunk(file, k, chunk_size) is Some);
        match read_chunk(file, k, chunk_size) {
            Some((data, last)) => {
                assert(data =~= chunk_at(file, k, chunk_size));
                assert(last == (n == chunk_count(file.len(), chunk_size)));
            },
            None => {},
        }
    }
}

/// A file that was uploaded and is then downloaded comes back byte for
/// byte, and both transfers close on the same checksum, whatever the two
/// chunk sizes are and whatever the device held under that name before.
pub proof fn lemma_upload_then_download(
    target: FileOptionsView,
    data: Seq<u8>,
    held_before: Seq<u8>,
    upload_chunk: nat,
    download_chunk: nat,
)
    requires
        0 < upload_chunk <= u32::MAX,
        0 < download_chunk <= u32::MAX,
        chunk_count(data.len(), upload_chunk) <= u32::MAX,
        chunk_count(data.len(), download_chunk) <= u32::MAX,
    ensures
        ({
            let chunks_up = chunk_count(data.len(), upload_chunk);
            let upload = upload_after(upload_start(target, data, upload_chunk), chunks_up);
            let stored = stored_after(held_before, data, upload_chunk, chunks_up);
            let chunks_down = chunk_count(stored.len(), download_chunk);
            let download = fetched_after(download_start(target, download_chunk), stored, chunks_down);
            let sum = PayloadView::Checksum(checksum_of(stored) as u32);
            &&& stored == data
            &&& download.content == data
            &&& upload.ended && download.ended
            &&& upload.outcome(sum) == Ok::<Progress, Error>(Progress::Complete)
            &&& download.outcome(sum) == Ok::<Progress, Error>(Progress::Complete)
        }),
{
    let chunks_up = chunk_count(data.len(), upload_chunk);
    lemma_chunk_count(data.len(), 0, upload_chunk);
    lemma_upload_schedule(target, data, upload_chunk, chunks_up);
    lemma_upload_stores(held_before, data, upload_chunk, chunks_up);
    let chunks_down = chunk_count(data.len(), download_chunk);
    lemma_download_fetches(target, data, download_chunk, chunks_down);
    lemma_chunks_join(data, chunks_down, download_chunk);
    lemma_checksum_fits(data);
}

/// A transfer does not complete where one byte was changed on the way: if
/// the file on the one side differs in one byte from the file on the other,
/// the closing checksum is refused with `IntegrityError`, and the session
/// stays as it was.
pub proof fn lemma_changed_byte_is_refused(t: TransferView, i: int, byte: u8)
    requires
        t.ended,
        0 <= i < t.content.len(),
        byte != t.content[i],
    ensures
        ({
            let reported = PayloadView::Checksum(checksum_of(t.content.update(i, byte)) as u32);
            &&& t.outcome(reported) == Err::<Progress, Error>(Error::IntegrityError)
            &&& t.after(reported) == t
        }),
{
    lemma_one_byte_changes_checksum(t.content, i, byte);
    lemma_checksum_fits(t.content);
    lemma_checksum_fits(t.content.update(i, byte));
}

/// The request that carries chunk `k` of an upload, as the session makes
/// it once the chunks before it are acknowledged, where `first_id` is the
/// identifier of the request that carries the first chunk.
pub open spec fn chunk_request(
    target: FileOptionsView,
    data: Seq<u8>,
    chunk_size: nat,
    first_id: u32,
    k: nat,
) -> RequestView {
    RequestView {
        id: (first_id + k) as u32,
        command: CommandView::File(FileCommandView::Upload(target)),
        part: upload_after(upload_start(target, data, chunk_size), k).next_part(),
    }
}

/// The device after it has served the first `n` chunk requests of an
/// upload.
pub open spec fn device_after_upload(
    d: DeviceView,
    target: FileOptionsView,
    data: Seq<u8>,
    chunk_size: nat,
    first_id: u32,
    n: nat,
) -> DeviceView
    decreases n,
{
    if n == 0 {
        d
    } else {
        device_after_upload(d, target, data, chunk_size, first_id, (n - 1) as nat).after(
            chunk_request(target, data, chunk_size, first_id, (n - 1) as nat),
        )
    }
}

/// The device acknowledges each chunk of an upload under its sequence
/// number and then holds, under the target's name, the file's bytes up to
/// the end of that chunk. Its other files and its task slot are untouched.
pub proof fn lemma_device_takes_upload(
    d: DeviceView,
    target: FileOptionsView,
    data: Seq<u8>,
    chunk_size: nat,
    first_id: u32,
    n: nat,
)
    requires
        distinct(d.files),
        0 < chunk_size <= u32::MAX,
        chunk_count(data.len(), chunk_size) <= u32::MAX,
        1 <= n <= chunk_count(data.len(), chunk_size),
    ensures
        ({
            let before = device_after_upload(
                d,
                target,
                data,
                chunk_size,
                first_id,
                (n - 1) as nat,
            );
            let after = device_after_upload(d, target, data, chunk_size, first_id, n);
            &&& before.reply(chunk_request(target, data, chunk_size, first_id, (n - 1) as nat))
                == ReplyView::Success(PayloadView::Ack { sequence: (n - 1) as u32 })
            &&& distinct(after.files)
            &&& holds(after.files, target)
            &&& content_of(after.files, target) == stored_after(
                content_of(d.files, target),
                data,
                chunk_size,
                n,
            )
            &&& content_of(after.files, target) == data.take(
                chunk_start(data.len(), n, chunk_size) as int,
            )
            &&& after.files == with_content(
                d.files,
                target,
                data.take(chunk_start(data.len(), n, chunk_size) as int),
            )
            &&& after.task == d.task
            &&& forall|other: FileOptionsView|
                other != target ==> holds(after.files, other) == holds(d.files, other)
                    && content_of(after.files, other) == content_of(d.files, other)
        }),
    decreases n,
{
    let k = (n - 1) as nat;
    let before = device_after_upload(d, target, data, chunk_size, first_id, k);
    let held = content_of(d.files, target);
    if k > 0 {
        lemma_device_takes_upload(d, target, data, chunk_size, first_id, k);
    }
    lemma_upload_schedule(target, data, chunk_size, k);
    lemma_upload_stores(held, data, chunk_size, n);
    lemma_chunks_join(data, k, chunk_size);
    let chunk = chunk_at(data, k, chunk_size);
    let stored = store_chunk(content_of(before.files, target), k, chunk_size, chunk);
    assert(stored is Some);
    lemma_with_content(before.files, target, stored->0);
    if k > 0 {
        let so_far = data.take(chunk_start(data.len(), k, chunk_size) as int);
        lemma_with_content(d.files, target, so_far);
        lemma_with_content_twice(d.files, target, so_far, stored->0);
    }
}

/// A file that was uploaded to the device is there byte for byte; the
/// device closes the upload with the file's checksum, answers each request
/// of a download with the chunk asked for, marks the chunk that reaches the
/// end, and closes the download with the same checksum.
pub proof fn lemma_device_gives_back_upload(
    d: DeviceView,
    target: FileOptionsView,
    data: Seq<u8>,
    upload_chunk: nat,
    download_chunk: nat,
    first_id: u32,
    k: nat,
)
    requires
        distinct(d.files),
        0 < upload_chunk <= u32::MAX,
        0 < download_chunk <= u32::MAX,
        chunk_count(data.len(), upload_chunk) <= u32::MAX,
        chunk_count(data.len(), download_chunk) <= u32::MAX,
        k < chunk_count(data.len(), download_chunk),
    ensures
        ({
            let after = device_after_upload(
                d,
                target,
                data,
                upload_chunk,
                first_id,
                chunk_count(data.len(), upload_chunk),
            );
            let sum = ReplyView::Success(PayloadView::Checksum(checksum_of(data) as u32));
            let fetch = RequestView {
                id: 0,
                command: CommandView::File(FileCommandView::Download(target)),
                part: PartView::Fetch { sequence: k as u32, chunk_size: download_chunk as u32 },
            };
            &&& content_of(after.files, target) == data
            &&& after.reply_finalize(target) == sum
            &&& after.reply(fetch) == ReplyView::Success(
                PayloadView::Data {
                    sequence: k as u32,
                    last: k + 1 == chunk_count(data.len(), download_chunk),
                    data: chunk_at(data, k, download_chunk),
                },
            )
            &&& after.after(fetch) == after
        }),
{
    let chunks_up = chunk_count(data.len(), upload_chunk);
    lemma_chunk_count(data.len(), 0, upload_chunk);
    lemma_device_takes_upload(d, target, data, upload_chunk, first_id, chunks_up);
    lemma_upload_stores(content_of(d.files, target), data, upload_chunk, chunks_up);
    lemma_chunk_count(data.len(), k, download_chunk);
    lemma_chunk_count(data.len(), k + 1, download_chunk);
    lemma_chunk_start_step(data.len(), k, download_chunk);
    let offset = k * download_chunk;
    assert(offset == chunk_start(data.len(), k, download_chunk)) by {
        if k == 0 {
            assert(0 * download_chunk == 0) by (nonlinear_arith);
        }
    }
    assert((k + 1) * download_chunk == offset + download_chunk) by (nonlinear_arith)
        requires
            offset == k * download_chunk,
    ;
    match read_chunk(data, k, download_chunk) {
        Some((chunk, last)) => {
            assert(chunk =~= chunk_at(data, k, download_chunk));
        },
        None => {},
    }
}

} // verus!
