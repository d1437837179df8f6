//! A device held in memory: the behaviour that the protocol asks of the
//! peer, written down as code. It stores files by directory and name, holds
//! the one task slot, and answers each request as a truthful device would.
//! It serves as the peer in dry runs and stands for the device in the laws
//! about transfers.
//!
//! Chunks are written straight into the file they belong to. The first
//! chunk of an upload replaces whatever the file held, every later chunk
//! continues it, and a chunk that arrives twice overwrites itself. An upload
//! that is given up leaves the chunks that arrived: listings, downloads and
//! `Load` see them, and only a new upload of the whole file replaces them.
//! The closing request changes nothing; it reports the checksum of the file
//! as it stands.

use crate::checksum::{checksum, checksum_of};
use crate::codec::{
    decode_request, encode_response, parse_request, response_fits, response_frame,
};
use crate::error::Error;
use crate::message::{
    DirEntry, DirEntryView, Part, PartView, Payload, PayloadView, Reply, ReplyView, Request,
    RequestView, Response, ResponseView, entries_view,
};
use crate::options::{
    Command, CommandView, FileCommand, FileCommandView, FileOptions, FileOptionsView,
    TaskCommand, TaskCommandView,
};
use crate::task::{TaskController, TaskControllerView, TaskState};
use crate::wire::lemma_put_lengths;
use vstd::prelude::*;
use vstd::slice::*;
use vstd::string::*;
use vstd::utf8::{encode_utf8, is_ascii_chars_encode_utf8};

verus! {

/// A file on the device.
pub struct StoredFile {
    pub base_path: String,
    pub file_name: String,
    pub content: Vec<u8>,
}

/// A file as the contracts see it.
pub struct StoredFileView {
    pub base_path: Seq<char>,
    pub file_name: Seq<char>,
    pub content: Seq<u8>,
}

impl View for StoredFile {
    type V = StoredFileView;

    open spec fn view(&self) -> StoredFileView {
        StoredFileView {
            base_path: self.base_path@,
            file_name: self.file_name@,
            content: self.content@,
        }
    }
}

impl StoredFileView {
    /// Whether this is the file that `target` names.
    pub open spec fn is(self, target: FileOptionsView) -> bool {
        self.base_path == target.base_path && self.file_name == target.file_name
    }

    /// The file's full path: its directory, a slash, its name.
    pub open spec fn path(self) -> Seq<char> {
        self.base_path + seq!['/'] + self.file_name
    }

    /// The file's entry in a listing: its name and its size.
    pub open spec fn entry(self) -> DirEntryView {
        DirEntryView { name: self.file_name, size: self.content.len() as u64 }
    }
}

/// The file after a chunk was written to it: its first
/// `sequence * chunk_size` bytes, then the chunk. A chunk of more than
/// `chunk_size` bytes, or one that would leave a gap, is not written.
pub open spec fn store_chunk(
    file: Seq<u8>,
    sequence: nat,
    chunk_size: nat,
    data: Seq<u8>,
) -> Option<Seq<u8>> {
    if data.len() <= chunk_size && sequence * chunk_size <= file.len() {
        Some(file.take((sequence * chunk_size) as int) + data)
    } else {
        None
    }
}

/// The chunk read from a file, and whether it reaches the file's end. No
/// chunk begins beyond the end.
pub open spec fn read_chunk(file: Seq<u8>, sequence: nat, chunk_size: nat) -> Option<
    (Seq<u8>, bool),
> {
    let offset = sequence * chunk_size;
    if offset > file.len() {
        None
    } else if offset + chunk_size >= file.len() {
        Some((file.skip(offset as int), true))
    } else {
        Some((file.subrange(offset as int, (offset + chunk_size) as int), false))
    }
}

/// Writing the same chunk a second time changes nothing: the file is as it
/// was after the first write.
pub proof fn lemma_chunk_resend_is_idempotent(
    file: Seq<u8>,
    sequence: nat,
    chunk_size: nat,
    data: Seq<u8>,
)
    requires
        store_chunk(file, sequence, chunk_size, data) is Some,
    ensures
        store_chunk(store_chunk(file, sequence, chunk_size, data)->0, sequence, chunk_size, data)
            == store_chunk(file, sequence, chunk_size, data),
{
    let offset = (sequence * chunk_size) as int;
    let once = file.take(offset) + data;
    assert(once.take(offset) =~= file.take(offset));
}

/// Whether the file that `target` names exists.
pub open spec fn holds(files: Seq<StoredFileView>, target: FileOptionsView) -> bool {
    exists|i: int| 0 <= i < files.len() && #[trigger] files[i].is(target)
}

/// The place of the file that `target` names.
pub open spec fn place_of(files: Seq<StoredFileView>, target: FileOptionsView) -> int {
    choose|i: int| 0 <= i < files.len() && #[trigger] files[i].is(target)
}

/// The content of the file that `target` names; a file that does not exist
/// has none.
pub open spec fn content_of(files: Seq<StoredFileView>, target: FileOptionsView) -> Seq<u8> {
    if holds(files, target) {
        files[place_of(files, target)].content
    } else {
        Seq::empty()
    }
}

/// The files after the one that `target` names was given `content`: in
/// place if it existed, as the last file if it did not.
pub open spec fn with_content(
    files: Seq<StoredFileView>,
    target: FileOptionsView,
    content: Seq<u8>,
) -> Seq<StoredFileView> {
    if holds(files, target) {
        let i = place_of(files, target);
        files.update(i, StoredFileView { content, ..files[i] })
    } else {
        files.push(
            StoredFileView { base_path: target.base_path, file_name: target.file_name, content },
        )
    }
}

/// No two files share directory and name.
pub open spec fn distinct(files: Seq<StoredFileView>) -> bool {
    forall|i: int, j: int|
        0 <= i < files.len() && 0 <= j < files.len() && files[i].base_path == files[j].base_path
            && files[i].file_name == files[j].file_name ==> i == j
}

/// The entries of the directory `base_path`, in the order of the files.
pub open spec fn listing(files: Seq<StoredFileView>, base_path: Seq<char>) -> Seq<DirEntryView>
    decreases files.len(),
{
    if files.len() == 0 {
        Seq::empty()
    } else if files.last().base_path == base_path {
        listing(files.drop_last(), base_path).push(files.last().entry())
    } else {
        listing(files.drop_last(), base_path)
    }
}

/// Whether some file has the full path `path`.
pub open spec fn has_path(files: Seq<StoredFileView>, path: Seq<char>) -> bool {
    exists|i: int| 0 <= i < files.len() && #[trigger] files[i].path() == path
}

/// Giving a file a content leaves the names distinct, makes the file read
/// back as that content, and leaves every other file as it was.
pub proof fn lemma_with_content(
    files: Seq<StoredFileView>,
    target: FileOptionsView,
    content: Seq<u8>,
)
    requires
        distinct(files),
    ensures
        distinct(with_content(files, target, content)),
        holds(with_content(files, target, content), target),
        content_of(with_content(files, target, content), target) == content,
        forall|other: FileOptionsView|
            other != target ==> holds(with_content(files, target, content), other) == holds(
                files,
                other,
            ) && content_of(with_content(files, target, content), other) == content_of(
                files,
                other,
            ),
{
    let now = with_content(files, target, content);
    let at = if holds(files, target) {
        place_of(files, target)
    } else {
        files.len() as int
    };
    assert(now.len() > at >= 0 && now[at].is(target) && now[at].content == content);
    assert forall|i: int| 0 <= i < now.len() && i != at implies !(#[trigger] now[i]).is(target)
        && i < files.len() && now[i] == files[i] by {
        if holds(files, target) {
            assert(files[at].is(target));
        } else {
            assert(!files[i].is(target));
        }
    }
    assert forall|i: int| 0 <= i < files.len() && i != at implies now[i] == #[trigger] files[i] by {}
    assert(distinct(now)) by {
        assert forall|i: int, j: int|
            0 <= i < now.len() && 0 <= j < now.len() && now[i].base_path == now[j].base_path
                && now[i].file_name == now[j].file_name implies i == j by {
            if i != at && j != at {
                assert(now[i] == files[i]);
                assert(now[j] == files[j]);
            } else if i == at && j != at {
                assert(now[j].is(target));
            } else if j == at && i != at {
                assert(now[i].is(target));
            }
        }
    }
    assert(place_of(now, target) == at) by {
        let p = place_of(now, target);
        assert(now[p].is(target));
    }
    assert forall|other: FileOptionsView| other != target implies holds(now, other) == holds(
        files,
        other,
    ) && content_of(now, other) == content_of(files, other) by {
        if holds(files, other) {
            let i = place_of(files, other);
            assert(files[i].is(other));
            assert(i != at);
            assert(now[i].is(other));
            let j = place_of(now, other);
            assert(now[j].is(other));
            assert(j == i);
        }
        if holds(now, other) {
            let j = place_of(now, other);
            assert(now[j].is(other));
            assert(j != at);
            assert(files[j].is(other));
        }
    }
}

/// Giving a file a content and then another leaves the files as if only
/// the second had been given.
pub proof fn lemma_with_content_twice(
    files: Seq<StoredFileView>,
    target: FileOptionsView,
    first: Seq<u8>,
    second: Seq<u8>,
)
    requires
        distinct(files),
    ensures
        with_content(with_content(files, target, first), target, second) == with_content(
            files,
            target,
            second,
        ),
{
    let once = with_content(files, target, first);
    lemma_with_content(files, target, first);
    let at = place_of(once, target);
    assert(once[at].is(target));
    if holds(files, target) {
        let i = place_of(files, target);
        assert(files[i].is(target));
        assert(once[i].is(target));
        assert(at == i);
    } else {
        assert(forall|i: int| 0 <= i < files.len() ==> once[i] == #[trigger] files[i]);
        if at < files.len() {
            assert(files[at].is(target));
        }
        assert(at == files.len());
    }
    assert(with_content(once, target, second) =~= with_content(files, target, second));
}

/// The device as the contracts see it.
pub struct DeviceView {
    pub files: Seq<StoredFileView>,
    pub task: TaskControllerView,
}

/// A refusal of `kind`, in the device's words.
pub open spec fn failure(kind: Error, message: Seq<char>) -> ReplyView {
    ReplyView::Failure(kind, message)
}

impl DeviceView {
    /// The device's answer to a chunk of an upload.
    pub open spec fn reply_chunk(
        self,
        target: FileOptionsView,
        sequence: u32,
        chunk_size: u32,
        data: Seq<u8>,
    ) -> ReplyView {
        if chunk_size == 0 || data.len() > chunk_size {
            failure(Error::InvalidArgument, "bad chunk"@)
        } else if store_chunk(
            content_of(self.files, target),
            sequence as nat,
            chunk_size as nat,
            data,
        ) is None {
            failure(Error::DeviceError, "chunk out of order"@)
        } else {
            ReplyView::Success(PayloadView::Ack { sequence })
        }
    }

    /// The device's answer to a request for a chunk of a download.
    pub open spec fn reply_fetch(
        self,
        target: FileOptionsView,
        sequence: u32,
        chunk_size: u32,
    ) -> ReplyView {
        if chunk_size == 0 {
            failure(Error::InvalidArgument, "bad chunk"@)
        } else if !holds(self.files, target) {
            failure(Error::DeviceError, "no such file"@)
        } else {
            match read_chunk(content_of(self.files, target), sequence as nat, chunk_size as nat) {
                Some((data, last)) => ReplyView::Success(
                    PayloadView::Data { sequence, last, data },
                ),
                None => failure(Error::DeviceError, "chunk out of order"@),
            }
        }
    }

    /// The device's answer to the closing request of a transfer.
    pub open spec fn reply_finalize(self, target: FileOptionsView) -> ReplyView {
        if !holds(self.files, target) {
            failure(Error::DeviceError, "no such file"@)
        } else {
            ReplyView::Success(
                PayloadView::Checksum(checksum_of(content_of(self.files, target)) as u32),
            )
        }
    }

    /// The device's answer to a task command.
    pub open spec fn reply_task(self, command: TaskCommandView) -> ReplyView {
        match self.task.state().spec_after(command.op()) {
            None => failure(Error::InvalidState, "task slot refuses the command"@),
            Some(next) => match command {
                TaskCommandView::Load(o) => if has_path(self.files, o.file_path) {
                    ReplyView::Success(PayloadView::Task(next))
                } else {
                    failure(Error::DeviceError, "no such file"@)
                },
                _ => ReplyView::Success(PayloadView::Task(next)),
            },
        }
    }

    /// The device's answer to `r`.
    pub open spec fn reply(self, r: RequestView) -> ReplyView {
        match (r.command, r.part) {
            (CommandView::File(FileCommandView::ListDir(o)), PartView::Whole) => ReplyView::Success(
                PayloadView::Listing(listing(self.files, o.base_path)),
            ),
            (
                CommandView::File(FileCommandView::Upload(o)),
                PartView::Chunk { sequence, chunk_size, data },
            ) => self.reply_chunk(o, sequence, chunk_size, data),
            (CommandView::File(FileCommandView::Upload(o)), PartView::Finalize) => self.reply_finalize(
                o,
            ),
            (
                CommandView::File(FileCommandView::Download(o)),
                PartView::Fetch { sequence, chunk_size },
            ) => self.reply_fetch(o, sequence, chunk_size),
            (
                CommandView::File(FileCommandView::Download(o)),
                PartView::Finalize,
            ) => self.reply_finalize(o),
            (CommandView::Task(c), PartView::Whole) => self.reply_task(c),
            _ => failure(Error::ProtocolError, "unexpected part"@),
        }
    }

    /// The device after it has answered `r`. Only a request that succeeds
    /// changes anything: a chunk changes its file, a task command the slot.
    pub open spec fn after(self, r: RequestView) -> DeviceView {
        if self.reply(r) is Success {
            match (r.command, r.part) {
                (
                    CommandView::File(FileCommandView::Upload(o)),
                    PartView::Chunk { sequence, chunk_size, data },
                ) => DeviceView {
                    files: with_content(
                        self.files,
                        o,
                        store_chunk(
                            content_of(self.files, o),
                            sequence as nat,
                            chunk_size as nat,
                            data,
                        )->0,
                    ),
                    ..self
                },
                (CommandView::Task(c), PartView::Whole) => DeviceView {
                    task: self.task.moved(c, self.task.state().step(c.op())),
                    ..self
                },
                _ => self,
            }
        } else {
            self
        }
    }
}

impl DeviceView {
    /// The frame with which the device answers `frame`. Bytes that hold no
    /// request are answered by a refusal under the identifier 0; a response
    /// too long for a frame gives way to a refusal.
    pub open spec fn answer(self, frame: Seq<u8>) -> Seq<u8> {
        match parse_request(frame) {
            Some(r) => {
                let response = ResponseView { id: r.id, reply: self.reply(r) };
                if response_fits(response) {
                    response_frame(response)
                } else {
                    response_frame(
                        ResponseView {
                            id: r.id,
                            reply: failure(Error::DeviceError, "response too long"@),
                        },
                    )
                }
            },
            None => response_frame(
                ResponseView { id: 0, reply: failure(Error::ProtocolError, "malformed frame"@) },
            ),
        }
    }

    /// The device after it has answered `frame`.
    pub open spec fn served(self, frame: Seq<u8>) -> DeviceView {
        match parse_request(frame) {
            Some(r) => self.after(r),
            None => self,
        }
    }
}

/// A chunk request that the device serves a second time gets the answer it
/// got the first time and leaves the device as the first time left it.
pub proof fn lemma_chunk_resend(d: DeviceView, r: RequestView)
    requires
        distinct(d.files),
        r.command is File,
        r.command->File_0 is Upload,
        r.part is Chunk,
    ensures
        d.after(r).reply(r) == d.reply(r),
        d.after(r).after(r) == d.after(r),
{
    let target = r.command->File_0->Upload_0;
    match r.part {
        PartView::Chunk { sequence, chunk_size, data } => {
            if d.reply(r) is Success {
                let held = content_of(d.files, target);
                let stored = store_chunk(held, sequence as nat, chunk_size as nat, data)->0;
                let files = with_content(d.files, target, stored);
                lemma_with_content(d.files, target, stored);
                lemma_chunk_resend_is_idempotent(held, sequence as nat, chunk_size as nat, data);
                let at = place_of(files, target);
                assert(files[at].is(target));
                assert(with_content(files, target, stored) =~= files);
            }
        },
        _ => {},
    }
}

/// The device: its files and its task slot.
pub struct Device {
    files: Vec<StoredFile>,
    task: TaskController,
}

/// The views of the files, in order.
pub open spec fn files_view(files: Seq<StoredFile>) -> Seq<StoredFileView> {
    Seq::new(files.len(), |i: int| files[i]@)
}

impl View for Device {
    type V = DeviceView;

    closed spec fn view(&self) -> DeviceView {
        DeviceView { files: files_view(self.files@), task: self.task@ }
    }
}

fn refuse(kind: Error, message: &str) -> (r: Reply)
    ensures
        r@ == failure(kind, message@),
{
    Reply::Failure(kind, message.to_owned())
}

impl Device {
    /// No two files share directory and name.
    pub closed spec fn wf(&self) -> bool {
        distinct(files_view(self.files@))
    }

    /// A device without files and with an empty task slot.
    pub fn new() -> (d: Device)
        ensures
            d.wf(),
            d@.files.len() == 0,
            d@.task.session is None,
    {
        Device { files: Vec::new(), task: TaskController::new() }
    }

    /// The state of the task slot.
    pub fn task_state(&self) -> (s: TaskState)
        ensures
            s == self@.task.state(),
    {
        self.task.state()
    }

    fn find(&self, target: &FileOptions) -> (r: Option<usize>)
        requires
            self.wf(),
        ensures
            match r {
                Some(i) => holds(self@.files, target@) && i == place_of(self@.files, target@) && i
                    < self.files@.len(),
                None => !holds(self@.files, target@),
            },
    {
        let ghost files = files_view(self.files@);
        let mut i: usize = 0;
        while i < self.files.len()
            invariant
                i <= self.files.len(),
                files == files_view(self.files@),
                distinct(files),
                forall|j: int| 0 <= j < i ==> !(#[trigger] files[j]).is(target@),
            decreases self.files.len() - i,
        {
            let f = &self.files[i];
            if f.base_path == target.base_path && f.file_name == target.file_name {
                proof {
                    assert(files[i as int].is(target@));
                    let j = place_of(files, target@);
                    assert(files[j].is(target@));
                }
                return Some(i);
            }
            i += 1;
        }
        None
    }

    /// The content of the file that `target` names, if the device has it.
    pub fn file(&self, target: &FileOptions) -> (r: Option<Vec<u8>>)
        requires
            self.wf(),
        ensures
            match r {
                Some(content) => holds(self@.files, target@) && content@ == content_of(
                    self@.files,
                    target@,
                ),
                None => !holds(self@.files, target@),
            },
    {
        match self.find(target) {
            Some(i) => Some(self.files[i].content.clone()),
            None => None,
        }
    }

    fn replace(&mut self, target: &FileOptions, place: Option<usize>, content: Vec<u8>)
        requires
            old(self).wf(),
            match place {
                Some(i) => holds(old(self)@.files, target@) && i == place_of(
                    old(self)@.files,
                    target@,
                ) && i < old(self).files@.len(),
                None => !holds(old(self)@.files, target@),
            },
        ensures
            final(self).wf(),
            final(self)@.files == with_content(old(self)@.files, target@, content@),
            final(self)@.task == old(self)@.task,
    {
        let ghost before = files_view(self.files@);
        match place {
            Some(i) => {
                let file = StoredFile {
                    base_path: target.base_path.clone(),
                    file_name: target.file_name.clone(),
                    content,
                };
                self.files[i] = file;
                proof {
                    let now = files_view(self.files@);
                    assert(now =~= with_content(before, target@, content@));
                    assert forall|a: int, b: int|
                        0 <= a < now.len() && 0 <= b < now.len() && now[a].base_path
                            == now[b].base_path && now[a].file_name
                            == now[b].file_name implies a == b by {
                        assert(now[a].base_path == before[a].base_path);
                        assert(now[b].base_path == before[b].base_path);
                        assert(now[a].file_name == before[a].file_name);
                        assert(now[b].file_name == before[b].file_name);
                    }
                }
            },
            None => {
                let file = StoredFile {
                    base_path: target.base_path.clone(),
                    file_name: target.file_name.clone(),
                    content,
                };
                self.files.push(file);
                proof {
                    let now = files_view(self.files@);
                    assert(now =~= with_content(before, target@, content@));
                    assert forall|a: int, b: int|
                        0 <= a < now.len() && 0 <= b < now.len() && now[a].base_path
                            == now[b].base_path && now[a].file_name
                            == now[b].file_name implies a == b by {
                        if a < before.len() {
                            assert(now[a] == before[a]);
                        }
                        if b < before.len() {
                            assert(now[b] == before[b]);
                        }
                        if a < before.len() && b == before.len() {
                            assert(before[a].is(target@));
                        }
                        if b < before.len() && a == before.len() {
                            assert(before[b].is(target@));
                        }
                    }
                }
            },
        }
    }

    /// Puts a file on the device, in place of any file of the same name.
    pub fn put_file(&mut self, target: &FileOptions, content: Vec<u8>)
        requires
            old(self).wf(),
        ensures
            final(self).wf(),
            final(self)@.files == with_content(old(self)@.files, target@, content@),
            final(self)@.task == old(self)@.task,
    {
        let place = self.find(target);
        self.replace(target, place, content);
    }

    fn store(&mut self, target: &FileOptions, sequence: u32, chunk_size: u32, data: &Vec<u8>) -> (r:
        Reply)
        requires
            old(self).wf(),
        ensures
            final(self).wf(),
            r@ == old(self)@.reply_chunk(target@, sequence, chunk_size, data@),
            final(self)@.task == old(self)@.task,
            final(self)@.files == if r@ is Success {
                with_content(
                    old(self)@.files,
                    target@,
                    store_chunk(
                        content_of(old(self)@.files, target@),
                        sequence as nat,
                        chunk_size as nat,
                        data@,
                    )->0,
                )
            } else {
                old(self)@.files
            },
    {
        if chunk_size == 0 || data.len() > chunk_size as usize {
            return refuse(Error::InvalidArgument, "bad chunk");
        }
        assert(sequence * chunk_size <= 0xffff_ffff * 0xffff_ffff) by (nonlinear_arith)
            requires
                sequence <= 0xffff_ffff,
                chunk_size <= 0xffff_ffff,
        ;
        let offset: u64 = sequence as u64 * chunk_size as u64;
        let place = self.find(target);
        let held: usize = match place {
            Some(i) => self.files[i].content.len(),
            None => 0,
        };
        if offset > held as u64 {
            return refuse(Error::DeviceError, "chunk out of order");
        }
        let mut content: Vec<u8> = match place {
            Some(i) => slice_to_vec(
                slice_subrange(self.files[i].content.as_slice(), 0, offset as usize),
            ),
            None => Vec::new(),
        };
        content.extend_from_slice(data.as_slice());
        proof {
            let file = content_of(self@.files, target@);
            assert(content@ =~= file.take(offset as int) + data@);
        }
        self.replace(target, place, content);
        Reply::Success(Payload::Ack { sequence })
    }

    fn fetch(&self, target: &FileOptions, sequence: u32, chunk_size: u32) -> (r: Reply)
        requires
            self.wf(),
        ensures
            r@ == self@.reply_fetch(target@, sequence, chunk_size),
    {
        if chunk_size == 0 {
            return refuse(Error::InvalidArgument, "bad chunk");
        }
        let i = match self.find(target) {
            Some(i) => i,
            None => {
                return refuse(Error::DeviceError, "no such file");
            },
        };
        let content = &self.files[i].content;
        assert(sequence * chunk_size <= 0xffff_ffff * 0xffff_ffff) by (nonlinear_arith)
            requires
                sequence <= 0xffff_ffff,
                chunk_size <= 0xffff_ffff,
        ;
        let offset: u64 = sequence as u64 * chunk_size as u64;
        if offset > content.len() as u64 {
            return refuse(Error::DeviceError, "chunk out of order");
        }
        let start = offset as usize;
        let left = content.len() - start;
        let last = left <= chunk_size as usize;
        let end = if last {
            content.len()
        } else {
            start + chunk_size as usize
        };
        let data = slice_to_vec(slice_subrange(content.as_slice(), start, end));
        proof {
            assert(content@.skip(start as int) =~= content@.subrange(
                start as int,
                content@.len() as int,
            ));
        }
        Reply::Success(Payload::Data { sequence, last, data })
    }

    fn finalize(&self, target: &FileOptions) -> (r: Reply)
        requires
            self.wf(),
        ensures
            r@ == self@.reply_finalize(target@),
    {
        match self.find(target) {
            Some(i) => Reply::Success(Payload::Checksum(checksum(self.files[i].content.as_slice()))),
            None => refuse(Error::DeviceError, "no such file"),
        }
    }

    fn has_file_at(&self, path: &String) -> (r: bool)
        ensures
            r == has_path(self@.files, path@),
    {
        let ghost files = files_view(self.files@);
        let mut i: usize = 0;
        while i < self.files.len()
            invariant
                i <= self.files.len(),
                files == files_view(self.files@),
                forall|j: int| 0 <= j < i ==> (#[trigger] files[j]).path() != path@,
            decreases self.files.len() - i,
        {
            let f = &self.files[i];
            let mut full = f.base_path.clone();
            full.append("/");
            full.append(f.file_name.as_str());
            proof {
                reveal_strlit("/");
                assert("/"@ =~= seq!['/']);
                assert(full@ == files[i as int].path());
            }
            if full == *path {
                return true;
            }
            i += 1;
        }
        false
    }

    fn list(&self, base_path: &String) -> (r: Vec<DirEntry>)
        ensures
            entries_view(r@) == listing(self@.files, base_path@),
    {
        let ghost files = files_view(self.files@);
        let mut entries: Vec<DirEntry> = Vec::new();
        let mut i: usize = 0;
        assert(files.take(0) =~= Seq::<StoredFileView>::empty());
        assert(entries_view(entries@) =~= listing(files.take(0), base_path@));
        while i < self.files.len()
            invariant
                i <= self.files.len(),
                files == files_view(self.files@),
                entries_view(entries@) == listing(files.take(i as int), base_path@),
            decreases self.files.len() - i,
        {
            let f = &self.files[i];
            proof {
                let upto = files.take(i + 1);
                assert(upto.drop_last() =~= files.take(i as int));
                assert(upto.last() == f@);
            }
            if f.base_path == *base_path {
                let entry = DirEntry { name: f.file_name.clone(), size: f.content.len() as u64 };
                assert(entries_view(entries@.push(entry)) =~= entries_view(entries@).push(entry@));
                entries.push(entry);
            }
            i += 1;
        }
        assert(files.take(i as int) =~= files);
        entries
    }

    fn run_task(&mut self, command: &TaskCommand) -> (r: Reply)
        requires
            old(self).wf(),
        ensures
            final(self).wf(),
            r@ == old(self)@.reply_task(command@),
            final(self)@.files == old(self)@.files,
            final(self)@.task == if r@ is Success {
                old(self)@.task.moved(command@, old(self)@.task.state().step(command@.op()))
            } else {
                old(self)@.task
            },
    {
        if self.task.check(command).is_err() {
            return refuse(Error::InvalidState, "task slot refuses the command");
        }
        if let TaskCommand::Load(o) = command {
            if !self.has_file_at(&o.file_path) {
                return refuse(Error::DeviceError, "no such file");
            }
        }
        match self.task.apply(command) {
            Ok(next) => Reply::Success(Payload::Task(next)),
            Err(kind) => refuse(kind, "task slot refuses the command"),
        }
    }

    /// Answers one request.
    pub fn serve(&mut self, request: &Request) -> (response: Response)
        requires
            old(self).wf(),
        ensures
            final(self).wf(),
            response@ == (ResponseView { id: request.id, reply: old(self)@.reply(request@) }),
            final(self)@ == old(self)@.after(request@),
    {
        let reply = match (&request.command, &request.part) {
            (Command::File(FileCommand::ListDir(o)), Part::Whole) => Reply::Success(
                Payload::Listing(self.list(&o.base_path)),
            ),
            (
                Command::File(FileCommand::Upload(o)),
                Part::Chunk { sequence, chunk_size, data },
            ) => self.store(o, *sequence, *chunk_size, data),
            (Command::File(FileCommand::Upload(o)), Part::Finalize) => self.finalize(o),
            (Command::File(FileCommand::Download(o)), Part::Fetch { sequence, chunk_size }) => self.fetch(
                o,
                *sequence,
                *chunk_size,
            ),
            (Command::File(FileCommand::Download(o)), Part::Finalize) => self.finalize(o),
            (Command::Task(c), Part::Whole) => self.run_task(c),
            _ => refuse(Error::ProtocolError, "unexpected part"),
        };
        Response { id: request.id, reply }
    }
}

/// The frame of a refusal whose message is short.
fn refusal_frame(id: u32, kind: Error, message: &str) -> (out: Vec<u8>)
    requires
        encode_utf8(message@).len() <= 64,
    ensures
        out@ == response_frame(ResponseView { id, reply: failure(kind, message@) }),
{
    let response = Response { id, reply: refuse(kind, message) };
    proof {
        lemma_put_lengths();
    }
    match encode_response(&response) {
        Some(frame) => frame,
        None => Vec::new(),
    }
}

impl Device {
    /// Answers the request in `frame` with the frame of the response.
    pub fn handle(&mut self, frame: &[u8]) -> (out: Vec<u8>)
        requires
            old(self).wf(),
        ensures
            final(self).wf(),
            out@ == old(self)@.answer(frame@),
            final(self)@ == old(self)@.served(frame@),
    {
        let request = match decode_request(frame) {
            Ok(request) => request,
            Err(_) => {
                proof {
                    reveal_strlit("malformed frame");
                    is_ascii_chars_encode_utf8("malformed frame"@);
                }
                return refusal_frame(0, Error::ProtocolError, "malformed frame");
            },
        };
        let response = self.serve(&request);
        match encode_response(&response) {
            Some(out) => out,
            None => {
                proof {
                    reveal_strlit("response too long");
                    is_ascii_chars_encode_utf8("response too long"@);
                }
                refusal_frame(request.id, Error::DeviceError, "response too long")
            },
        }
    }
}

} // verus!
