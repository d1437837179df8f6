//! The file transfer engine: how a file is cut into chunks, and the
//! session that walks an upload or a download through its chunks and its
//! closing checksum, one acknowledged request at a time.

use crate::checksum::{Checksum, checksum_of};
use crate::error::Error;
use crate::message::{Part, PartView, Payload, PayloadView};
use crate::options::{FileOptions, FileOptionsView};
use vstd::arithmetic::div_mod::{lemma_fundamental_div_mod, lemma_mod_bound};
use vstd::prelude::*;
use vstd::slice::*;

verus! {

/// How many chunk requests carry a file of `len` bytes: one for each
/// started run of `chunk_size` bytes, and one, empty, for an empty file.
pub open spec fn chunk_count(len: nat, chunk_size: nat) -> nat {
    if len == 0 {
        1
    } else {
        ((len - 1) / (chunk_size as int) + 1) as nat
    }
}

/// Where chunk `sequence` begins: at `sequence * chunk_size`, or at the end
/// of the file if that lies beyond it.
pub open spec fn chunk_start(len: nat, sequence: nat, chunk_size: nat) -> nat {
    if sequence * chunk_size <= len {
        sequence * chunk_size
    } else {
        len
    }
}

/// The bytes of chunk `sequence`.
pub open spec fn chunk_at(data: Seq<u8>, sequence: nat, chunk_size: nat) -> Seq<u8> {
    data.subrange(
        chunk_start(data.len(), sequence, chunk_size) as int,
        chunk_start(data.len(), sequence + 1, chunk_size) as int,
    )
}

/// Each chunk begins where the one before it ends, `chunk_size` bytes on or
/// at the end of the file.
pub proof fn lemma_chunk_start_step(len: nat, sequence: nat, chunk_size: nat)
    requires
        chunk_size > 0,
    ensures
        chunk_start(len, 0, chunk_size) == 0,
        chunk_start(len, sequence, chunk_size) <= chunk_start(len, sequence + 1, chunk_size)
            <= len,
        chunk_start(len, sequence + 1, chunk_size) == if chunk_start(len, sequence, chunk_size)
            + chunk_size <= len {
            chunk_start(len, sequence, chunk_size) + chunk_size
        } else {
            len
        },
{
    assert((sequence + 1) * chunk_size == sequence * chunk_size + chunk_size)
        by (nonlinear_arith);
    assert(0 * chunk_size == 0) by (nonlinear_arith);
    assert(sequence * chunk_size >= 0) by (nonlinear_arith);
}

/// The chunks reach the end of the file exactly when `chunk_count` of them
/// are through.
pub proof fn lemma_chunk_count(len: nat, sequence: nat, chunk_size: nat)
    requires
        chunk_size > 0,
    ensures
        chunk_count(len, chunk_size) >= 1,
        sequence >= chunk_count(len, chunk_size) ==> chunk_start(len, sequence, chunk_size)
            == len,
        1 <= sequence < chunk_count(len, chunk_size) ==> chunk_start(len, sequence, chunk_size)
            < len,
{
    let cs = chunk_size as int;
    if len > 0 {
        let q = (len - 1) / cs;
        let r = (len - 1) % cs;
        lemma_fundamental_div_mod(len - 1, cs);
        lemma_mod_bound(len - 1, cs);
        assert(len - 1 == cs * q + r);
        assert(q >= 0) by (nonlinear_arith)
            requires
                len - 1 == cs * q + r,
                0 <= r < cs,
                len >= 1,
        ;
        if sequence >= q + 1 {
            assert(sequence * cs >= len) by (nonlinear_arith)
                requires
                    sequence >= q + 1,
                    len - 1 == cs * q + r,
                    0 <= r < cs,
            ;
        } else {
            assert(sequence * cs < len) by (nonlinear_arith)
                requires
                    0 <= sequence <= q,
                    len - 1 == cs * q + r,
                    0 <= r < cs,
            ;
        }
    } else {
        assert(sequence * cs >= 0) by (nonlinear_arith)
            requires
                sequence >= 0,
                cs > 0,
        ;
    }
}

/// The first `n` chunks, one after another, are the file up to where chunk
/// `n` begins; all `chunk_count` of them are the whole file.
pub proof fn lemma_chunks_join(data: Seq<u8>, n: nat, chunk_size: nat)
    requires
        chunk_size > 0,
    ensures
        data.take(chunk_start(data.len(), n, chunk_size) as int) + chunk_at(data, n, chunk_size)
            == data.take(chunk_start(data.len(), n + 1, chunk_size) as int),
        n >= chunk_count(data.len(), chunk_size) ==> data.take(
            chunk_start(data.len(), n, chunk_size) as int,
        ) == data,
        chunk_at(data, n, chunk_size).len() <= chunk_size,
{
    lemma_chunk_start_step(data.len(), n, chunk_size);
    lemma_chunk_count(data.len(), n, chunk_size);
    let a = chunk_start(data.len(), n, chunk_size) as int;
    let b = chunk_start(data.len(), n + 1, chunk_size) as int;
    assert(data.take(a) + data.subrange(a, b) =~= data.take(b));
    if n >= chunk_count(data.len(), chunk_size) {
        assert(data.take(a) =~= data);
    }
}

/// Which way the file travels.
#[derive(Clone, Copy, Debug, PartialEq, Eq, Structural)]
pub enum Direction {
    Upload,
    Download,
}

/// What a session wants after it has taken a response.
#[derive(Clone, Copy, Debug, PartialEq, Eq, Structural)]
pub enum Progress {
    /// The response was the one awaited: send the next part.
    Continue,
    /// The response answers another chunk than the one outstanding: send
    /// the same part again.
    Retry,
    /// The checksums agree: the transfer is complete.
    Complete,
}

/// A transfer as the contracts see it.
pub struct TransferView {
    pub target: FileOptionsView,
    pub direction: Direction,
    /// An upload's source, whole; a download's bytes as far as they have
    /// arrived.
    pub content: Seq<u8>,
    pub chunk_size: nat,
    /// The sequence number of the chunk that is outstanding: as many chunks
    /// are through. It stops at the largest sequence number.
    pub next: nat,
    /// Every chunk is through; the checksum is outstanding.
    pub ended: bool,
}

impl TransferView {
    /// How many chunks an upload has.
    pub open spec fn count(self) -> nat {
        chunk_count(self.content.len(), self.chunk_size)
    }

    /// The bytes that are through.
    pub open spec fn transferred(self) -> nat {
        match self.direction {
            Direction::Upload => chunk_start(self.content.len(), self.next, self.chunk_size),
            Direction::Download => self.content.len(),
        }
    }

    /// The size of the file, where it is known: an upload's from the start,
    /// a download's once the device has marked the end.
    pub open spec fn total(self) -> Option<nat> {
        match self.direction {
            Direction::Upload => Some(self.content.len()),
            Direction::Download => if self.ended {
                Some(self.content.len())
            } else {
                None
            },
        }
    }

    /// What holds of every session: the chunk size is positive, sequence
    /// numbers fit 32 bits, an upload has ended exactly when all its chunks
    /// are through, and a download that has not ended holds only full
    /// chunks.
    pub open spec fn valid(self) -> bool {
        &&& 0 < self.chunk_size <= u32::MAX
        &&& self.next <= u32::MAX
        &&& match self.direction {
            Direction::Upload => {
                &&& self.count() <= u32::MAX
                &&& self.next <= self.count()
                &&& self.ended == (self.next == self.count())
            },
            Direction::Download => !self.ended ==> self.content.len() == self.next
                * self.chunk_size,
        }
    }

    /// The part to send next: the outstanding chunk, or the closing request
    /// once every chunk is through.
    pub open spec fn next_part(self) -> PartView {
        if self.ended {
            PartView::Finalize
        } else {
            match self.direction {
                Direction::Upload => PartView::Chunk {
                    sequence: self.next as u32,
                    chunk_size: self.chunk_size as u32,
                    data: chunk_at(self.content, self.next, self.chunk_size),
                },
                Direction::Download => PartView::Fetch {
                    sequence: self.next as u32,
                    chunk_size: self.chunk_size as u32,
                },
            }
        }
    }

    /// What the session makes of the payload `p` of a successful response.
    pub open spec fn outcome(self, p: PayloadView) -> Result<Progress, Error> {
        if self.ended {
            match p {
                PayloadView::Checksum(sum) => if sum == checksum_of(self.content) {
                    Ok(Progress::Complete)
                } else {
                    Err(Error::IntegrityError)
                },
                _ => Err(Error::ProtocolError),
            }
        } else {
            match self.direction {
                Direction::Upload => match p {
                    PayloadView::Ack { sequence } => if sequence == self.next {
                        Ok(Progress::Continue)
                    } else {
                        Ok(Progress::Retry)
                    },
                    _ => Err(Error::ProtocolError),
                },
                Direction::Download => match p {
                    PayloadView::Data { sequence, last, data } => if sequence != self.next {
                        Ok(Progress::Retry)
                    } else if data.len() > self.chunk_size {
                        Err(Error::ProtocolError)
                    } else if !last && data.len() == self.chunk_size && self.next == u32::MAX {
                        Err(Error::ProtocolError)
                    } else {
                        Ok(Progress::Continue)
                    },
                    _ => Err(Error::ProtocolError),
                },
            }
        }
    }

    /// The session after it has taken `p`. Only a response that lets the
    /// transfer continue changes anything.
    pub open spec fn after(self, p: PayloadView) -> TransferView {
        if self.outcome(p) == Ok::<Progress, Error>(Progress::Continue) {
            match self.direction {
                Direction::Upload => TransferView {
                    next: self.next + 1,
                    ended: self.next + 1 == self.count(),
                    ..self
                },
                Direction::Download => match p {
                    PayloadView::Data { sequence, last, data } => TransferView {
                        content: self.content + data,
                        next: if self.next < u32::MAX {
                            self.next + 1
                        } else {
                            self.next
                        },
                        ended: last || data.len() < self.chunk_size,
                        ..self
                    },
                    _ => self,
                },
            }
        } else {
            self
        }
    }
}

/// A valid session stays valid whatever payload it takes.
pub proof fn lemma_transfer_stays_valid(t: TransferView, p: PayloadView)
    requires
        t.valid(),
    ensures
        t.after(p).valid(),
{
    lemma_chunk_count(t.content.len(), t.next, t.chunk_size);
    if t.outcome(p) == Ok::<Progress, Error>(Progress::Continue) {
        match t.direction {
            Direction::Upload => {},
            Direction::Download => {
                assert((t.next + 1) * t.chunk_size == t.next * t.chunk_size + t.chunk_size)
                    by (nonlinear_arith);
            },
        }
    }
}

/// One upload or download in progress. It is made for one file, follows it
/// to the closing checksum, and is dropped when the transfer completes or
/// fails.
pub struct FileTransferSession {
    target: FileOptions,
    direction: Direction,
    content: Vec<u8>,
    chunk_size: u32,
    next: u32,
    transferred: usize,
    ended: bool,
    checksum: Checksum,
}

impl View for FileTransferSession {
    type V = TransferView;

    closed spec fn view(&self) -> TransferView {
        TransferView {
            target: self.target@,
            direction: self.direction,
            content: self.content@,
            chunk_size: self.chunk_size as nat,
            next: self.next as nat,
            ended: self.ended,
        }
    }
}

impl FileTransferSession {
    /// The session is well formed: its view is valid, the count of bytes
    /// through is the one its view gives, never more than the file holds,
    /// and the running checksum has taken exactly those bytes.
    pub closed spec fn wf(&self) -> bool {
        &&& self@.valid()
        &&& self.transferred == self@.transferred()
        &&& self.transferred <= self.content@.len()
        &&& self.checksum@ == self.content@.take(self.transferred as int)
    }

    /// A well-formed session has a valid view.
    pub proof fn lemma_wf_valid(self)
        requires
            self.wf(),
        ensures
            self@.valid(),
            self@.transferred() <= self@.content.len(),
    {
    }

    /// Begins the upload of `data` to `target` in chunks of `chunk_size`
    /// bytes. A chunk size of zero is refused, and so is a file with more
    /// chunks than sequence numbers can count.
    pub fn upload(target: FileOptions, data: Vec<u8>, chunk_size: u32) -> (r: Result<
        FileTransferSession,
        Error,
    >)
        ensures
            match r {
                Ok(s) => {
                    &&& s.wf()
                    &&& chunk_size > 0
                    &&& chunk_count(data@.len(), chunk_size as nat) <= u32::MAX
                    &&& s@ == (TransferView {
                        target: target@,
                        direction: Direction::Upload,
                        content: data@,
                        chunk_size: chunk_size as nat,
                        next: 0,
                        ended: false,
                    })
                },
                Err(e) => e == Error::InvalidArgument && (chunk_size == 0 || chunk_count(
                    data@.len(),
                    chunk_size as nat,
                ) > u32::MAX),
            },
    {
        if chunk_size == 0 {
            return Err(Error::InvalidArgument);
        }
        let count = if data.len() == 0 {
            1
        } else {
            (data.len() - 1) / (chunk_size as usize) + 1
        };
        if count > 0xffff_ffff {
            return Err(Error::InvalidArgument);
        }
        proof {
            lemma_chunk_start_step(data@.len(), 0, chunk_size as nat);
            lemma_chunk_count(data@.len(), 0, chunk_size as nat);
            assert(data@.take(0) =~= Seq::<u8>::empty());
        }
        Ok(
            FileTransferSession {
                target,
                direction: Direction::Upload,
                content: data,
                chunk_size,
                next: 0,
                transferred: 0,
                ended: false,
                checksum: Checksum::new(),
            },
        )
    }

    /// Begins the download of `target` in chunks of `chunk_size` bytes. A
    /// chunk size of zero is refused.
    pub fn download(target: FileOptions, chunk_size: u32) -> (r: Result<
        FileTransferSession,
        Error,
    >)
        ensures
            match r {
                Ok(s) => {
                    &&& s.wf()
                    &&& chunk_size > 0
                    &&& s@ == (TransferView {
                        target: target@,
                        direction: Direction::Download,
                        content: Seq::<u8>::empty(),
                        chunk_size: chunk_size as nat,
                        next: 0,
                        ended: false,
                    })
                },
                Err(e) => e == Error::InvalidArgument && chunk_size == 0,
            },
    {
        if chunk_size == 0 {
            return Err(Error::InvalidArgument);
        }
        let content: Vec<u8> = Vec::new();
        proof {
            assert(0 * (chunk_size as nat) == 0) by (nonlinear_arith);
            assert(content@.take(0) =~= Seq::<u8>::empty());
        }
        Ok(
            FileTransferSession {
                target,
                direction: Direction::Download,
                content,
                chunk_size,
                next: 0,
                transferred: 0,
                ended: false,
                checksum: Checksum::new(),
            },
        )
    }

    /// The file that is transferred.
    pub fn target(&self) -> (t: &FileOptions)
        ensures
            t@ == self@.target,
    {
        &self.target
    }

    /// Which way the file travels.
    pub fn direction(&self) -> (d: Direction)
        ensures
            d == self@.direction,
    {
        self.direction
    }

    /// The size of a chunk.
    pub fn chunk_size(&self) -> (n: u32)
        ensures
            n == self@.chunk_size,
    {
        self.chunk_size
    }

    /// The bytes that are through. They never exceed the size of the file.
    pub fn transferred(&self) -> (n: usize)
        requires
            self.wf(),
        ensures
            n == self@.transferred(),
            n <= self@.content.len(),
            self@.total() is Some ==> n <= self@.total()->0,
    {
        self.transferred
    }

    /// The size of the file, where it is known.
    pub fn total(&self) -> (n: Option<usize>)
        ensures
            match n {
                Some(size) => self@.total() == Some(size as nat),
                None => self@.total() is None,
            },
    {
        match self.direction {
            Direction::Upload => Some(self.content.len()),
            Direction::Download => if self.ended {
                Some(self.content.len())
            } else {
                None
            },
        }
    }

    /// Whether every chunk is through and the checksum is outstanding.
    pub fn ended(&self) -> (b: bool)
        ensures
            b == self@.ended,
    {
        self.ended
    }

    /// The running checksum: that of the bytes that are through.
    pub fn running_checksum(&self) -> (sum: u32)
        requires
            self.wf(),
        ensures
            sum == checksum_of(self@.content.take(self@.transferred() as int)),
    {
        self.checksum.value()
    }

    /// The part to send next.
    pub fn next_part(&self) -> (part: Part)
        requires
            self.wf(),
        ensures
            part@ == self@.next_part(),
    {
        if self.ended {
            return Part::Finalize;
        }
        match self.direction {
            Direction::Upload => {
                proof {
                    lemma_chunk_start_step(
                        self.content@.len(),
                        self.next as nat,
                        self.chunk_size as nat,
                    );
                }
                let left = self.content.len() - self.transferred;
                let size = if left < self.chunk_size as usize {
                    left
                } else {
                    self.chunk_size as usize
                };
                let data = slice_to_vec(
                    slice_subrange(
                        self.content.as_slice(),
                        self.transferred,
                        self.transferred + size,
                    ),
                );
                Part::Chunk { sequence: self.next, chunk_size: self.chunk_size, data }
            },
            Direction::Download => Part::Fetch {
                sequence: self.next,
                chunk_size: self.chunk_size,
            },
        }
    }

    /// Takes the payload of a successful response. The session moves on
    /// only where the payload is the one awaited.
    pub fn accept(&mut self, payload: &Payload) -> (r: Result<Progress, Error>)
        requires
            old(self).wf(),
        ensures
            final(self).wf(),
            r == old(self)@.outcome(payload@),
            final(self)@ == old(self)@.after(payload@),
    {
        if self.ended {
            return match payload {
                Payload::Checksum(sum) => {
                    let own = self.closing_checksum();
                    if Some(*sum) == own {
                        Ok(Progress::Complete)
                    } else {
                        Err(Error::IntegrityError)
                    }
                },
                _ => Err(Error::ProtocolError),
            };
        }
        match self.direction {
            Direction::Upload => match payload {
                Payload::Ack { sequence } => {
                    if *sequence != self.next {
                        return Ok(Progress::Retry);
                    }
                    self.chunk_through();
                    Ok(Progress::Continue)
                },
                _ => Err(Error::ProtocolError),
            },
            Direction::Download => match payload {
                Payload::Data { sequence, last, data } => {
                    if *sequence != self.next {
                        return Ok(Progress::Retry);
                    }
                    if data.len() > self.chunk_size as usize {
                        return Err(Error::ProtocolError);
                    }
                    let ended = *last || data.len() < self.chunk_size as usize;
                    if !ended && self.next == 0xffff_ffff {
                        return Err(Error::ProtocolError);
                    }
                    self.chunk_arrived(data.as_slice(), ended);
                    Ok(Progress::Continue)
                },
                _ => Err(Error::ProtocolError),
            },
        }
    }

    /// The checksum of the whole content, once every chunk is through; until
    /// then there is none.
    pub fn closing_checksum(&self) -> (sum: Option<u32>)
        requires
            self.wf(),
        ensures
            match sum {
                Some(value) => self@.ended && value == checksum_of(self@.content),
                None => !self@.ended,
            },
    {
        if !self.ended {
            return None;
        }
        proof {
            if self.direction == Direction::Upload {
                lemma_chunk_count(self.content@.len(), self.next as nat, self.chunk_size as nat);
            }
            assert(self.content@.take(self.transferred as int) =~= self.content@);
        }
        Some(self.checksum.value())
    }

    /// Marks the outstanding chunk of an upload as stored.
    fn chunk_through(&mut self)
        requires
            old(self).wf(),
            old(self)@.direction == Direction::Upload,
            !old(self)@.ended,
        ensures
            final(self).wf(),
            final(self)@ == (TransferView {
                next: old(self)@.next + 1,
                ended: old(self)@.next + 1 == old(self)@.count(),
                ..old(self)@
            }),
    {
        let ghost len = self.content@.len();
        let ghost cs = self.chunk_size as nat;
        let ghost k = self.next as nat;
        proof {
            lemma_chunk_start_step(len, k, cs);
            lemma_chunk_count(len, k + 1, cs);
            lemma_chunks_join(self.content@, k, cs);
        }
        let left = self.content.len() - self.transferred;
        let size = if left < self.chunk_size as usize {
            left
        } else {
            self.chunk_size as usize
        };
        let end = self.transferred + size;
        self.checksum.update(slice_subrange(self.content.as_slice(), self.transferred, end));
        self.transferred = end;
        self.next = self.next + 1;
        self.ended = end == self.content.len();
    }

    /// Appends a chunk that a download has received.
    fn chunk_arrived(&mut self, data: &[u8], ended: bool)
        requires
            old(self).wf(),
            old(self)@.direction == Direction::Download,
            !old(self)@.ended,
            data@.len() <= old(self)@.chunk_size,
            !ended ==> data@.len() == old(self)@.chunk_size && old(self)@.next < u32::MAX,
        ensures
            final(self).wf(),
            final(self)@ == (TransferView {
                content: old(self)@.content + data@,
                next: if old(self)@.next < u32::MAX {
                    old(self)@.next + 1
                } else {
                    old(self)@.next
                },
                ended,
                ..old(self)@
            }),
    {
        let ghost cs = self.chunk_size as nat;
        let ghost k = self.next as nat;
        proof {
            assert((k + 1) * cs == k * cs + cs) by (nonlinear_arith);
        }
        self.content.extend_from_slice(data);
        self.checksum.update(data);
        self.transferred = self.content.len();
        self.next = if self.next == 0xffff_ffff {
            self.next
        } else {
            self.next + 1
        };
        self.ended = ended;
        proof {
            assert(self.content@.take(self.transferred as int) =~= self.content@);
            assert(old(self).content@.take(old(self).transferred as int) =~= old(self).content@);
            assert(self.checksum@ == self.content@);
        }
    }

    /// The content: an upload's source, or what a download has received.
    pub fn into_content(self) -> (content: Vec<u8>)
        ensures
            content@ == self@.content,
    {
        self.content
    }
}

} // verus!
