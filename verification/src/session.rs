//! The device session: it owns the connection's state, numbers the
//! requests, takes one command at a time through its exchange with the
//! device, and bounds the retries. It decides; the caller transmits. Each
//! step takes what happened (a command was given, a frame arrived, the
//! wait timed out) and returns what to do next.

use crate::checksum::{checksum_of, lemma_checksum_fits};
use crate::codec::{
    decode_response, encode_request, parse_response, request_fits, request_frame,
};
use crate::error::Error;
use crate::exchange::{download_start, upload_start};
use crate::message::{
    DirEntry, DirEntryView, Part, PartView, Payload, PayloadView, Reply, ReplyView, Request,
    RequestView, entries_view,
};
use crate::options::{
    ClientOptions, ClientOptionsView, Command, CommandView, FileCommand, FileCommandView,
};
use crate::task::{TaskController, TaskControllerView, TaskState};
use crate::transfer::{
    Direction, FileTransferSession, Progress, TransferView, chunk_count, lemma_chunk_count,
    lemma_transfer_stays_valid,
};
use vstd::prelude::*;
use vstd::string::*;

verus! {

/// How often a request is sent before the session gives up on it, unless
/// the caller sets another bound.
pub const DEFAULT_ATTEMPTS: u32 = 3;

/// The size of a chunk, unless the caller sets another.
pub const DEFAULT_CHUNK_SIZE: u32 = 512;

/// The state of the connection to the device.
#[derive(Clone, Copy, Debug, PartialEq, Eq, Structural)]
pub enum ConnectionState {
    Disconnected,
    Connecting,
    Connected,
    Faulted,
}

/// What a command that succeeded brings back.
#[derive(Clone, Debug, PartialEq, Eq)]
pub enum Outcome {
    /// The entries of the directory, in the device's order.
    Listing(Vec<DirEntry>),
    /// The file is on the device; its size and its checksum.
    Uploaded { bytes: usize, checksum: u32 },
    /// The file as the device holds it, and its checksum.
    Downloaded { content: Vec<u8>, checksum: u32 },
    /// The state of the task slot as the device reported it.
    Task(TaskState),
}

/// An outcome as the contracts see it.
pub enum OutcomeView {
    Listing(Seq<DirEntryView>),
    Uploaded { bytes: nat, checksum: u32 },
    Downloaded { content: Seq<u8>, checksum: u32 },
    Task(TaskState),
}

impl View for Outcome {
    type V = OutcomeView;

    open spec fn view(&self) -> OutcomeView {
        match self {
            Outcome::Listing(entries) => OutcomeView::Listing(entries_view(entries@)),
            Outcome::Uploaded { bytes, checksum } => OutcomeView::Uploaded {
                bytes: *bytes as nat,
                checksum: *checksum,
            },
            Outcome::Downloaded { content, checksum } => OutcomeView::Downloaded {
                content: content@,
                checksum: *checksum,
            },
            Outcome::Task(state) => OutcomeView::Task(*state),
        }
    }
}

/// What the caller is to do next.
#[derive(Clone, Debug, PartialEq, Eq)]
pub enum Action {
    /// Transmit this frame, then report the frame that arrives or the
    /// timeout.
    Send(Vec<u8>),
    /// Nothing to transmit: go on waiting.
    Wait,
    /// The command has succeeded.
    Done(Outcome),
    /// The command has failed: the kind of failure and, where the device
    /// reported it, the device's words.
    Fail(Error, String),
}

/// An action as the contracts see it.
pub enum ActionView {
    Send(Seq<u8>),
    Wait,
    Done(OutcomeView),
    Fail(Error, Seq<char>),
}

impl View for Action {
    type V = ActionView;

    open spec fn view(&self) -> ActionView {
        match self {
            Action::Send(frame) => ActionView::Send(frame@),
            Action::Wait => ActionView::Wait,
            Action::Done(outcome) => ActionView::Done(outcome@),
            Action::Fail(kind, message) => ActionView::Fail(*kind, message@),
        }
    }
}

/// The command in flight.
pub struct ExchangeView {
    pub command: CommandView,
    /// The identifier of the outstanding request.
    pub id: u32,
    /// How often the outstanding request has been sent.
    pub attempts: nat,
    /// The part of the command that the outstanding request stands for.
    pub part: PartView,
    /// The transfer, where the command is one.
    pub transfer: Option<TransferView>,
}

impl ExchangeView {
    /// The outstanding request.
    pub open spec fn request(self) -> RequestView {
        RequestView { id: self.id, command: self.command, part: self.part }
    }
}

/// The session as the contracts see it.
pub struct ClientView {
    pub opts: ClientOptionsView,
    pub connection: ConnectionState,
    /// The identifier that the next new request gets.
    pub next_id: u32,
    /// How often a request is sent before the session gives up on it.
    pub max_attempts: u32,
    pub chunk_size: u32,
    pub task: TaskControllerView,
    pub exchange: Option<ExchangeView>,
}

/// A session after a step, and what the step asks of the caller.
pub struct Step {
    pub client: ClientView,
    pub action: ActionView,
}

/// A failure that the session itself found.
pub open spec fn fail(kind: Error) -> ActionView {
    ActionView::Fail(kind, Seq::empty())
}

impl ClientView {
    /// The session with its command given up for a failure of `kind`. A
    /// failure of the transport or of the protocol leaves the connection
    /// faulted.
    pub open spec fn failed(self, kind: Error) -> ClientView {
        ClientView {
            exchange: None,
            connection: if kind == Error::TransportError || kind == Error::ProtocolError {
                ConnectionState::Faulted
            } else {
                self.connection
            },
            ..self
        }
    }

    /// The transfer that `command` begins with the local file `content`,
    /// where it is an upload or a download.
    pub open spec fn transfer_for(self, command: CommandView, content: Seq<u8>) -> Option<
        TransferView,
    > {
        match command {
            CommandView::File(FileCommandView::Upload(o)) => Some(
                upload_start(o, content, self.chunk_size as nat),
            ),
            CommandView::File(FileCommandView::Download(o)) => Some(
                download_start(o, self.chunk_size as nat),
            ),
            _ => None,
        }
    }

    /// Why `command` cannot be begun, if it cannot. The checks are made in
    /// this order: a command is in flight; the connection is not up; the
    /// command's parameters are malformed; the task slot does not permit
    /// it; the file has more chunks than can be numbered; the identifiers
    /// are used up; the first request does not fit a frame.
    pub open spec fn refusal(self, command: CommandView, content: Seq<u8>) -> Option<Error> {
        if self.exchange is Some {
            Some(Error::InvalidState)
        } else if self.connection != ConnectionState::Connected {
            Some(Error::TransportError)
        } else if !command.valid() {
            Some(Error::InvalidArgument)
        } else if command is Task && self.task.state().spec_after(command->Task_0.op()) is None {
            Some(Error::InvalidState)
        } else if command is File && command->File_0 is Upload && chunk_count(
            content.len(),
            self.chunk_size as nat,
        ) > u32::MAX {
            Some(Error::InvalidArgument)
        } else if self.next_id == u32::MAX {
            Some(Error::TransportError)
        } else if !request_fits(self.first_request(command, content)) {
            Some(Error::InvalidArgument)
        } else {
            None
        }
    }

    /// The first request of `command`.
    pub open spec fn first_request(self, command: CommandView, content: Seq<u8>) -> RequestView {
        RequestView {
            id: self.next_id,
            command,
            part: match self.transfer_for(command, content) {
                Some(t) => t.next_part(),
                None => PartView::Whole,
            },
        }
    }

    /// The step that begins `command`. A command that is refused changes
    /// nothing and sends nothing.
    pub open spec fn begun(self, command: CommandView, content: Seq<u8>) -> Step {
        match self.refusal(command, content) {
            Some(kind) => Step { client: self, action: fail(kind) },
            None => {
                let request = self.first_request(command, content);
                Step {
                    client: ClientView {
                        next_id: (self.next_id + 1) as u32,
                        exchange: Some(
                            ExchangeView {
                                command,
                                id: request.id,
                                attempts: 1,
                                part: request.part,
                                transfer: self.transfer_for(command, content),
                            },
                        ),
                        ..self
                    },
                    action: ActionView::Send(request_frame(request)),
                }
            },
        }
    }

    /// The step after the wait for a response timed out, or after a
    /// response answered another chunk than the outstanding one: the same
    /// request is sent again under the same identifier, until it has been
    /// sent `max_attempts` times; then the command fails with
    /// `TransportError`.
    pub open spec fn timed_out(self) -> Step {
        match self.exchange {
            None => Step { client: self, action: ActionView::Wait },
            Some(x) => if x.attempts < self.max_attempts {
                Step {
                    client: ClientView {
                        exchange: Some(ExchangeView { attempts: x.attempts + 1, ..x }),
                        ..self
                    },
                    action: ActionView::Send(request_frame(x.request())),
                }
            } else {
                Step {
                    client: self.failed(Error::TransportError),
                    action: fail(Error::TransportError),
                }
            },
        }
    }

    /// The step that moves a transfer on to its next part, sent as a new
    /// request.
    pub open spec fn moved_on(self, x: ExchangeView, transfer: TransferView) -> Step {
        let request = RequestView {
            id: self.next_id,
            command: x.command,
            part: transfer.next_part(),
        };
        if self.next_id == u32::MAX {
            Step { client: self.failed(Error::TransportError), action: fail(Error::TransportError) }
        } else if !request_fits(request) {
            Step {
                client: self.failed(Error::InvalidArgument),
                action: fail(Error::InvalidArgument),
            }
        } else {
            Step {
                client: ClientView {
                    next_id: (self.next_id + 1) as u32,
                    exchange: Some(
                        ExchangeView {
                            id: request.id,
                            attempts: 1,
                            part: request.part,
                            transfer: Some(transfer),
                            ..x
                        },
                    ),
                    ..self
                },
                action: ActionView::Send(request_frame(request)),
            }
        }
    }

    /// The step after the device answered the outstanding request of `x`
    /// with success and the payload `p`.
    pub open spec fn answered(self, x: ExchangeView, p: PayloadView) -> Step {
        match x.transfer {
            None => match (x.command, p) {
                (
                    CommandView::File(FileCommandView::ListDir(_)),
                    PayloadView::Listing(entries),
                ) => Step {
                    client: ClientView { exchange: None, ..self },
                    action: ActionView::Done(OutcomeView::Listing(entries)),
                },
                (CommandView::Task(c), PayloadView::Task(state)) => Step {
                    client: ClientView {
                        exchange: None,
                        task: self.task.acknowledged(c, state),
                        ..self
                    },
                    action: ActionView::Done(OutcomeView::Task(state)),
                },
                _ => Step {
                    client: self.failed(Error::ProtocolError),
                    action: fail(Error::ProtocolError),
                },
            },
            Some(t) => match t.outcome(p) {
                Err(kind) => Step { client: self.failed(kind), action: fail(kind) },
                Ok(Progress::Retry) => self.timed_out(),
                Ok(Progress::Continue) => self.moved_on(x, t.after(p)),
                Ok(Progress::Complete) => Step {
                    client: ClientView { exchange: None, ..self },
                    action: ActionView::Done(
                        match t.direction {
                            Direction::Upload => OutcomeView::Uploaded {
                                bytes: t.content.len(),
                                checksum: checksum_of(t.content) as u32,
                            },
                            Direction::Download => OutcomeView::Downloaded {
                                content: t.content,
                                checksum: checksum_of(t.content) as u32,
                            },
                        },
                    ),
                },
            },
        }
    }

    /// The step after `frame` arrived. With no command in flight, and for a
    /// response to another request than the outstanding one, nothing
    /// happens. Bytes that hold no response fail the command with
    /// `ProtocolError`; a failure that the device reports fails it with the
    /// device's kind and words, and is never retried.
    pub open spec fn received(self, frame: Seq<u8>) -> Step {
        match self.exchange {
            None => Step { client: self, action: ActionView::Wait },
            Some(x) => match parse_response(frame) {
                None => Step {
                    client: self.failed(Error::ProtocolError),
                    action: fail(Error::ProtocolError),
                },
                Some(response) => if response.id != x.id {
                    Step { client: self, action: ActionView::Wait }
                } else {
                    match response.reply {
                        ReplyView::Failure(kind, message) => Step {
                            client: self.failed(kind),
                            action: ActionView::Fail(kind, message),
                        },
                        ReplyView::Success(p) => self.answered(x, p),
                    }
                },
            },
        }
    }

    /// What holds of every session: the bounds are positive, and a command
    /// in flight has been sent at least once and no more often than the
    /// bound allows, its outstanding request fits a frame, and its transfer,
    /// if it has one, is valid.
    pub open spec fn valid(self) -> bool {
        &&& self.max_attempts >= 1
        &&& self.chunk_size >= 1
        &&& match self.exchange {
            Some(x) => {
                &&& 1 <= x.attempts <= self.max_attempts
                &&& request_fits(x.request())
                &&& match x.transfer {
                    Some(t) => t.valid(),
                    None => true,
                }
            },
            None => true,
        }
    }

    /// An upper bound on the new requests that the command in flight can
    /// still make, the outstanding one counted: one for a command without a
    /// transfer and for a transfer that has ended, else one for each chunk
    /// that may still come and one for the closing request.
    pub open spec fn work_left(self) -> nat {
        match self.exchange {
            None => 0,
            Some(x) => match x.transfer {
                None => 1,
                Some(t) => if t.ended {
                    1
                } else {
                    match t.direction {
                        Direction::Upload => (t.count() - t.next + 1) as nat,
                        Direction::Download => (u32::MAX - t.next + 2) as nat,
                    }
                },
            },
        }
    }

    /// How often the outstanding request may still be sent again.
    pub open spec fn tries_left(self) -> nat {
        match self.exchange {
            None => 0,
            Some(x) => (self.max_attempts - x.attempts) as nat,
        }
    }

    /// Whether `self` is nearer to the end of its command than `before`:
    /// less work is left, or the same work and fewer tries.
    pub open spec fn nearer_than(self, before: ClientView) -> bool {
        ||| self.work_left() < before.work_left()
        ||| self.work_left() == before.work_left() && self.tries_left() < before.tries_left()
    }

    /// The session after `n` timeouts in a row.
    pub open spec fn after_timeouts(self, n: nat) -> ClientView
        decreases n,
    {
        if n == 0 {
            self
        } else {
            self.after_timeouts((n - 1) as nat).timed_out().client
        }
    }
}

/// A request that is never answered is sent again at each timeout, the same
/// frame each time, until it has been sent `max_attempts` times in all; the
/// timeout after that fails the command with `TransportError` and leaves no
/// command in flight.
pub proof fn lemma_retry_bound(c: ClientView, n: nat)
    requires
        c.valid(),
        c.exchange is Some,
        c.exchange->0.attempts + n <= c.max_attempts,
    ensures
        c.after_timeouts(n) == (ClientView {
            exchange: Some(
                ExchangeView { attempts: c.exchange->0.attempts + n, ..c.exchange->0 },
            ),
            ..c
        }),
        n >= 1 ==> c.after_timeouts((n - 1) as nat).timed_out().action == ActionView::Send(
            request_frame(c.exchange->0.request()),
        ),
        c.exchange->0.attempts + n == c.max_attempts ==> c.after_timeouts(n).timed_out() == (Step {
            client: c.failed(Error::TransportError),
            action: fail(Error::TransportError),
        }),
    decreases n,
{
    if n > 0 {
        lemma_retry_bound(c, (n - 1) as nat);
    }
}

/// Beginning a command leaves a valid session.
pub proof fn lemma_begun_valid(c: ClientView, command: CommandView, content: Seq<u8>)
    requires
        c.valid(),
    ensures
        c.begun(command, content).client.valid(),
        c.begun(command, content).action is Send || c.begun(command, content).action is Fail,
        c.begun(command, content).action is Send ==> c.begun(command, content).client.exchange
            is Some,
{
    lemma_chunk_count(content.len(), 0, c.chunk_size as nat);
    assert(0 * (c.chunk_size as nat) == 0) by (nonlinear_arith);
}

/// A command that is begun and never answered is transmitted exactly
/// `max_attempts` times: once when it begins and once more at each of the
/// first `max_attempts - 1` timeouts. The timeout after the last
/// transmission ends it with `TransportError`.
pub proof fn lemma_silent_device(c: ClientView, command: CommandView, content: Seq<u8>, n: nat)
    requires
        c.valid(),
        c.refusal(command, content) is None,
    ensures
        ({
            let begun = c.begun(command, content);
            let frame = request_frame(c.first_request(command, content));
            &&& begun.action == ActionView::Send(frame)
            &&& 1 <= n < c.max_attempts ==> begun.client.after_timeouts((n - 1) as nat).timed_out().action
                == ActionView::Send(frame)
            &&& n == c.max_attempts ==> begun.client.after_timeouts((n - 1) as nat).timed_out().action
                == fail(Error::TransportError)
            &&& n == c.max_attempts ==> begun.client.after_timeouts(n).exchange is None
        }),
{
    let begun = c.begun(command, content);
    lemma_begun_valid(c, command, content);
    if 1 <= n <= c.max_attempts {
        lemma_retry_bound(begun.client, (n - 1) as nat);
        if n < c.max_attempts {
            lemma_retry_bound(begun.client, n);
        }
    }
}

/// Whatever arrives, a step ends the command (it is done or has failed, and
/// no command is in flight), or changes nothing and waits, or sends a
/// request with the session nearer to the end of its command than before.
/// No exchange goes on for ever.
pub proof fn lemma_every_step_makes_progress(c: ClientView, frame: Seq<u8>)
    requires
        c.valid(),
    ensures
        ({
            let timeout = c.timed_out();
            let arrival = c.received(frame);
            &&& timeout.client.valid()
            &&& arrival.client.valid()
            &&& match timeout.action {
                ActionView::Send(_) => timeout.client.exchange is Some && timeout.client.nearer_than(
                    c,
                ),
                ActionView::Wait => timeout.client == c && c.exchange is None,
                _ => timeout.client.exchange is None,
            }
            &&& match arrival.action {
                ActionView::Send(_) => arrival.client.exchange is Some && arrival.client.nearer_than(
                    c,
                ),
                ActionView::Wait => arrival.client == c,
                _ => arrival.client.exchange is None,
            }
        }),
{
    match c.exchange {
        Some(x) => {
            match x.transfer {
                Some(t) => {
                    lemma_chunk_count(t.content.len(), t.next, t.chunk_size);
                    match parse_response(frame) {
                        Some(response) => match response.reply {
                            ReplyView::Success(p) => {
                                lemma_transfer_stays_valid(t, p);
                            },
                            _ => {},
                        },
                        None => {},
                    }
                },
                None => {},
            }
        },
        None => {},
    }
}

struct Exchange {
    command: Command,
    id: u32,
    attempts: u32,
    /// The outstanding request as it was sent, kept for sending again.
    frame: Vec<u8>,
    part: Ghost<PartView>,
    transfer: Option<FileTransferSession>,
}

impl View for Exchange {
    type V = ExchangeView;

    closed spec fn view(&self) -> ExchangeView {
        ExchangeView {
            command: self.command@,
            id: self.id,
            attempts: self.attempts as nat,
            part: self.part@,
            transfer: match self.transfer {
                Some(t) => Some(t@),
                None => None,
            },
        }
    }
}

impl Exchange {
    spec fn wf(&self) -> bool {
        &&& self.attempts >= 1
        &&& request_fits(self@.request())
        &&& self.frame@ == request_frame(self@.request())
        &&& match self.transfer {
            Some(t) => t.wf() && self.part@ == t@.next_part(),
            None => true,
        }
    }
}

/// The session with one device. It is made for one connection and dropped
/// with it.
pub struct Client {
    opts: ClientOptions,
    connection: ConnectionState,
    next_id: u32,
    max_attempts: u32,
    chunk_size: u32,
    task: TaskController,
    exchange: Option<Exchange>,
}

impl View for Client {
    type V = ClientView;

    closed spec fn view(&self) -> ClientView {
        ClientView {
            opts: self.opts@,
            connection: self.connection,
            next_id: self.next_id,
            max_attempts: self.max_attempts,
            chunk_size: self.chunk_size,
            task: self.task@,
            exchange: match self.exchange {
                Some(x) => Some(x@),
                None => None,
            },
        }
    }
}

fn failing(kind: Error) -> (a: Action)
    ensures
        a@ == fail(kind),
{
    Action::Fail(kind, String::new())
}

impl Client {
    /// The session is well formed: the bounds are positive, and a command
    /// in flight has been sent at least once and no more often than the
    /// bound allows.
    pub closed spec fn wf(&self) -> bool {
        &&& self.max_attempts >= 1
        &&& self.chunk_size >= 1
        &&& match self.exchange {
            Some(x) => x.wf() && x.attempts <= self.max_attempts,
            None => true,
        }
    }

    /// A well-formed session has a valid view.
    pub proof fn lemma_wf_valid(self)
        requires
            self.wf(),
        ensures
            self@.valid(),
    {
        match self.exchange {
            Some(x) => match x.transfer {
                Some(t) => {
                    t.lemma_wf_valid();
                },
                None => {},
            },
            None => {},
        }
    }

    /// A session for the device at the address in `o`: not connected, no
    /// command in flight, the task slot taken to be empty, and the default
    /// bounds.
    pub fn new(o: &ClientOptions) -> (c: Client)
        ensures
            c.wf(),
            c@ == (ClientView {
                opts: o@,
                connection: ConnectionState::Disconnected,
                next_id: 1,
                max_attempts: DEFAULT_ATTEMPTS,
                chunk_size: DEFAULT_CHUNK_SIZE,
                task: TaskControllerView { session: None },
                exchange: None,
            }),
    {
        Client {
            opts: o.duplicate(),
            connection: ConnectionState::Disconnected,
            next_id: 1,
            max_attempts: DEFAULT_ATTEMPTS,
            chunk_size: DEFAULT_CHUNK_SIZE,
            task: TaskController::new(),
            exchange: None,
        }
    }

    /// A session like that of `new`, with the given bounds. A bound of zero
    /// is refused.
    pub fn with_limits(o: &ClientOptions, max_attempts: u32, chunk_size: u32) -> (r: Result<
        Client,
        Error,
    >)
        ensures
            match r {
                Ok(c) => {
                    &&& c.wf()
                    &&& max_attempts >= 1
                    &&& chunk_size >= 1
                    &&& c@ == (ClientView {
                        opts: o@,
                        connection: ConnectionState::Disconnected,
                        next_id: 1,
                        max_attempts,
                        chunk_size,
                        task: TaskControllerView { session: None },
                        exchange: None,
                    })
                },
                Err(e) => e == Error::InvalidArgument && (max_attempts == 0 || chunk_size == 0),
            },
    {
        if max_attempts == 0 || chunk_size == 0 {
            return Err(Error::InvalidArgument);
        }
        Ok(
            Client {
                opts: o.duplicate(),
                connection: ConnectionState::Disconnected,
                next_id: 1,
                max_attempts,
                chunk_size,
                task: TaskController::new(),
                exchange: None,
            },
        )
    }

    /// The options that the session was made with.
    pub fn options(&self) -> (o: &ClientOptions)
        ensures
            o@ == self@.opts,
    {
        &self.opts
    }

    /// The state of the connection.
    pub fn connection(&self) -> (c: ConnectionState)
        ensures
            c == self@.connection,
    {
        self.connection
    }

    /// The state of the task slot as the session last knew it.
    pub fn task_state(&self) -> (s: TaskState)
        ensures
            s == self@.task.state(),
    {
        self.task.state()
    }

    /// The session's mirror of the task slot.
    pub fn task(&self) -> (t: &TaskController)
        ensures
            t@ == self@.task,
    {
        &self.task
    }

    /// Whether a command is in flight.
    pub fn busy(&self) -> (b: bool)
        ensures
            b == self@.exchange is Some,
    {
        self.exchange.is_some()
    }

    /// How often the outstanding request has been sent; 0 when no command
    /// is in flight.
    pub fn attempts(&self) -> (n: u32)
        ensures
            n == match self@.exchange {
                Some(x) => x.attempts,
                None => 0,
            },
    {
        match &self.exchange {
            Some(x) => x.attempts,
            None => 0,
        }
    }

    /// The caller has begun to open the connection. A command in flight is
    /// given up.
    pub fn connecting(&mut self)
        requires
            old(self).wf(),
        ensures
            final(self).wf(),
            final(self)@ == (ClientView {
                connection: ConnectionState::Connecting,
                exchange: None,
                ..old(self)@
            }),
    {
        self.connection = ConnectionState::Connecting;
        self.exchange = None;
    }

    /// The connection is up.
    pub fn connected(&mut self)
        requires
            old(self).wf(),
        ensures
            final(self).wf(),
            final(self)@ == (ClientView { connection: ConnectionState::Connected, ..old(self)@ }),
    {
        self.connection = ConnectionState::Connected;
    }

    /// The connection was closed, by the peer or because the operator
    /// cancelled. A command in flight is given up; what the session knows of
    /// the task slot stays, to be brought up to date by a `Status` command.
    pub fn closed(&mut self)
        requires
            old(self).wf(),
        ensures
            final(self).wf(),
            final(self)@ == (ClientView {
                connection: ConnectionState::Disconnected,
                exchange: None,
                ..old(self)@
            }),
    {
        self.connection = ConnectionState::Disconnected;
        self.exchange = None;
    }

    fn give_up(&mut self, kind: Error)
        requires
            old(self).wf(),
        ensures
            final(self).wf(),
            final(self)@ == old(self)@.failed(kind),
    {
        self.exchange = None;
        match kind {
            Error::TransportError | Error::ProtocolError => {
                self.connection = ConnectionState::Faulted;
            },
            _ => {},
        }
    }

    /// Begins `command`. `content` is the local file for an upload; other
    /// commands ignore it. A command that is refused changes nothing and
    /// sends nothing.
    pub fn begin(&mut self, command: &Command, content: Vec<u8>) -> (action: Action)
        requires
            old(self).wf(),
        ensures
            final(self).wf(),
            (Step { client: final(self)@, action: action@ }) == old(self)@.begun(
                command@,
                content@,
            ),
    {
        if self.exchange.is_some() {
            return failing(Error::InvalidState);
        }
        match self.connection {
            ConnectionState::Connected => {},
            _ => {
                return failing(Error::TransportError);
            },
        }
        if command.validate().is_err() {
            return failing(Error::InvalidArgument);
        }
        if let Command::Task(c) = command {
            if self.task.check(c).is_err() {
                return failing(Error::InvalidState);
            }
        }
        let transfer = match command {
            Command::File(FileCommand::Upload(o)) => match FileTransferSession::upload(
                o.duplicate(),
                content,
                self.chunk_size,
            ) {
                Ok(t) => Some(t),
                Err(_) => {
                    return failing(Error::InvalidArgument);
                },
            },
            Command::File(FileCommand::Download(o)) => match FileTransferSession::download(
                o.duplicate(),
                self.chunk_size,
            ) {
                Ok(t) => Some(t),
                Err(_) => {
                    return failing(Error::InvalidArgument);
                },
            },
            _ => None,
        };
        if self.next_id == 0xffff_ffff {
            return failing(Error::TransportError);
        }
        let part = match &transfer {
            Some(t) => t.next_part(),
            None => Part::Whole,
        };
        let ghost part_view = part@;
        let request = Request { id: self.next_id, command: command.duplicate(), part };
        let frame = match encode_request(&request) {
            Some(frame) => frame,
            None => {
                return failing(Error::InvalidArgument);
            },
        };
        let copy = frame.clone();
        self.exchange = Some(
            Exchange {
                command: request.command,
                id: request.id,
                attempts: 1,
                frame: copy,
                part: Ghost(part_view),
                transfer,
            },
        );
        self.next_id = self.next_id + 1;
        Action::Send(frame)
    }

    /// The wait for a response timed out.
    pub fn on_timeout(&mut self) -> (action: Action)
        requires
            old(self).wf(),
        ensures
            final(self).wf(),
            (Step { client: final(self)@, action: action@ }) == old(self)@.timed_out(),
    {
        let x = match self.exchange.take() {
            Some(x) => x,
            None => {
                return Action::Wait;
            },
        };
        if x.attempts < self.max_attempts {
            let frame = x.frame.clone();
            self.exchange = Some(
                Exchange {
                    command: x.command,
                    id: x.id,
                    attempts: x.attempts + 1,
                    frame: x.frame,
                    part: x.part,
                    transfer: x.transfer,
                },
            );
            Action::Send(frame)
        } else {
            self.give_up(Error::TransportError);
            failing(Error::TransportError)
        }
    }

    /// A frame arrived.
    pub fn on_frame(&mut self, frame: &[u8]) -> (action: Action)
        requires
            old(self).wf(),
        ensures
            final(self).wf(),
            (Step { client: final(self)@, action: action@ }) == old(self)@.received(frame@),
    {
        let id = match &self.exchange {
            Some(x) => x.id,
            None => {
                return Action::Wait;
            },
        };
        let response = match decode_response(frame) {
            Ok(response) => response,
            Err(kind) => {
                self.give_up(kind);
                return failing(kind);
            },
        };
        if response.id != id {
            return Action::Wait;
        }
        match response.reply {
            Reply::Failure(kind, message) => {
                self.give_up(kind);
                Action::Fail(kind, message)
            },
            Reply::Success(payload) => self.on_payload(payload),
        }
    }

    fn on_payload(&mut self, payload: Payload) -> (action: Action)
        requires
            old(self).wf(),
            old(self)@.exchange is Some,
        ensures
            final(self).wf(),
            (Step { client: final(self)@, action: action@ }) == old(self)@.answered(
                old(self)@.exchange->0,
                payload@,
            ),
    {
        let ghost before = self@;
        let x = match self.exchange.take() {
            Some(x) => x,
            None => {
                return Action::Wait;
            },
        };
        let Exchange { command, id, attempts, frame, part, transfer } = x;
        match transfer {
            None => match (command, payload) {
                (Command::File(FileCommand::ListDir(_)), Payload::Listing(entries)) => Action::Done(
                    Outcome::Listing(entries),
                ),
                (Command::Task(c), Payload::Task(state)) => {
                    self.task.acknowledge(&c, state);
                    Action::Done(Outcome::Task(state))
                },
                _ => {
                    self.give_up(Error::ProtocolError);
                    failing(Error::ProtocolError)
                },
            },
            Some(mut t) => {
                match t.accept(&payload) {
                    Err(kind) => {
                        self.give_up(kind);
                        failing(kind)
                    },
                    Ok(Progress::Retry) => {
                        self.exchange = Some(
                            Exchange { command, id, attempts, frame, part, transfer: Some(t) },
                        );
                        assert(self@ == before);
                        self.on_timeout()
                    },
                    Ok(Progress::Continue) => self.move_on(command, t, Ghost(before)),
                    Ok(Progress::Complete) => {
                        let checksum = match t.closing_checksum() {
                            Some(sum) => sum,
                            None => 0,
                        };
                        proof {
                            lemma_checksum_fits(t@.content);
                        }
                        match t.direction() {
                            Direction::Upload => {
                                let content = t.into_content();
                                Action::Done(Outcome::Uploaded { bytes: content.len(), checksum })
                            },
                            Direction::Download => Action::Done(
                                Outcome::Downloaded { content: t.into_content(), checksum },
                            ),
                        }
                    },
                }
            },
        }
    }

    fn move_on(
        &mut self,
        command: Command,
        transfer: FileTransferSession,
        Ghost(before): Ghost<ClientView>,
    ) -> (action: Action)
        requires
            old(self).wf(),
            old(self)@ == (ClientView { exchange: None, ..before }),
            before.exchange is Some,
            before.exchange->0.command == command@,
            transfer.wf(),
        ensures
            final(self).wf(),
            (Step { client: final(self)@, action: action@ }) == before.moved_on(
                before.exchange->0,
                transfer@,
            ),
    {
        if self.next_id == 0xffff_ffff {
            self.give_up(Error::TransportError);
            return failing(Error::TransportError);
        }
        let part = transfer.next_part();
        let ghost part_view = part@;
        let request = Request { id: self.next_id, command, part };
        let frame = match encode_request(&request) {
            Some(frame) => frame,
            None => {
                self.give_up(Error::InvalidArgument);
                return failing(Error::InvalidArgument);
            },
        };
        let copy = frame.clone();
        self.exchange = Some(
            Exchange {
                command: request.command,
                id: request.id,
                attempts: 1,
                frame: copy,
                part: Ghost(part_view),
                transfer: Some(transfer),
            },
        );
        self.next_id = self.next_id + 1;
        Action::Send(frame)
    }
}

} // verus!
