//! The task lifecycle: the states of the device's single task slot, the
//! table of permitted transitions, and the controller that mirrors the slot
//! on the operator's side.

use crate::error::Error;
use crate::options::{TaskCommand, TaskCommandView};
use vstd::prelude::*;
use vstd::string::*;

verus! {

/// The state of the task slot.
#[derive(Clone, Copy, Debug, PartialEq, Eq, Structural)]
pub enum TaskState {
    Unloaded,
    Loaded,
    Running,
    Stopped,
}

/// A task command without its parameters.
#[derive(Clone, Copy, Debug, PartialEq, Eq, Structural)]
pub enum TaskOp {
    Load,
    Start,
    Stop,
    Unload,
    Status,
}

impl TaskCommandView {
    /// The command's kind.
    pub open spec fn op(self) -> TaskOp {
        match self {
            TaskCommandView::Load(_) => TaskOp::Load,
            TaskCommandView::Start => TaskOp::Start,
            TaskCommandView::Stop => TaskOp::Stop,
            TaskCommandView::Unload => TaskOp::Unload,
            TaskCommandView::Status => TaskOp::Status,
        }
    }
}

impl TaskCommand {
    /// The command's kind.
    pub fn op(&self) -> (op: TaskOp)
        ensures
            op == self@.op(),
    {
        match self {
            TaskCommand::Load(_) => TaskOp::Load,
            TaskCommand::Start => TaskOp::Start,
            TaskCommand::Stop => TaskOp::Stop,
            TaskCommand::Unload => TaskOp::Unload,
            TaskCommand::Status => TaskOp::Status,
        }
    }
}

impl TaskState {
    /// The transition table: the state that `op` leads to from `self`, or
    /// `None` where the table has no entry.
    pub open spec fn spec_after(self, op: TaskOp) -> Option<TaskState> {
        match op {
            TaskOp::Load => if self == TaskState::Unloaded {
                Some(TaskState::Loaded)
            } else {
                None
            },
            TaskOp::Start => if self == TaskState::Loaded || self == TaskState::Stopped {
                Some(TaskState::Running)
            } else {
                None
            },
            TaskOp::Stop => if self == TaskState::Running {
                Some(TaskState::Stopped)
            } else {
                None
            },
            TaskOp::Unload => if self == TaskState::Loaded || self == TaskState::Stopped {
                Some(TaskState::Unloaded)
            } else {
                None
            },
            TaskOp::Status => Some(self),
        }
    }

    /// The state after `op` is attempted: the table's entry, or `self`
    /// unchanged where there is none.
    pub open spec fn step(self, op: TaskOp) -> TaskState {
        match self.spec_after(op) {
            Some(next) => next,
            None => self,
        }
    }

    /// The byte that stands for this state on the wire.
    pub open spec fn spec_code(self) -> u8 {
        match self {
            TaskState::Unloaded => 0,
            TaskState::Loaded => 1,
            TaskState::Running => 2,
            TaskState::Stopped => 3,
        }
    }

    /// The state a wire byte stands for, if any.
    pub open spec fn spec_from_code(code: u8) -> Option<TaskState> {
        if code == 0 {
            Some(TaskState::Unloaded)
        } else if code == 1 {
            Some(TaskState::Loaded)
        } else if code == 2 {
            Some(TaskState::Running)
        } else if code == 3 {
            Some(TaskState::Stopped)
        } else {
            None
        }
    }

    /// The state that `op` leads to from `self`, or `None` where the table
    /// has no entry.
    #[verifier::when_used_as_spec(spec_after)]
    pub fn after(self, op: TaskOp) -> (next: Option<TaskState>)
        ensures
            next == self.spec_after(op),
    {
        match op {
            TaskOp::Load => match self {
                TaskState::Unloaded => Some(TaskState::Loaded),
                _ => None,
            },
            TaskOp::Start => match self {
                TaskState::Loaded | TaskState::Stopped => Some(TaskState::Running),
                _ => None,
            },
            TaskOp::Stop => match self {
                TaskState::Running => Some(TaskState::Stopped),
                _ => None,
            },
            TaskOp::Unload => match self {
                TaskState::Loaded | TaskState::Stopped => Some(TaskState::Unloaded),
                _ => None,
            },
            TaskOp::Status => Some(self),
        }
    }

    /// The byte that stands for this state on the wire.
    #[verifier::when_used_as_spec(spec_code)]
    pub fn code(self) -> (c: u8)
        ensures
            c == self.spec_code(),
    {
        match self {
            TaskState::Unloaded => 0,
            TaskState::Loaded => 1,
            TaskState::Running => 2,
            TaskState::Stopped => 3,
        }
    }

    /// The state a wire byte stands for, if any.
    #[verifier::when_used_as_spec(spec_from_code)]
    pub fn from_code(code: u8) -> (r: Option<TaskState>)
        ensures
            r == TaskState::spec_from_code(code),
    {
        if code == 0 {
            Some(TaskState::Unloaded)
        } else if code == 1 {
            Some(TaskState::Loaded)
        } else if code == 2 {
            Some(TaskState::Running)
        } else if code == 3 {
            Some(TaskState::Stopped)
        } else {
            None
        }
    }
}

/// The state reached from `start` when `ops` are attempted in order, each
/// rejected one leaving the state as it was.
pub open spec fn run_ops(start: TaskState, ops: Seq<TaskOp>) -> TaskState
    decreases ops.len(),
{
    if ops.len() == 0 {
        start
    } else {
        run_ops(start, ops.drop_last()).step(ops.last())
    }
}

/// Whatever sequence of commands is attempted on a fresh slot, each command
/// moves the slot as the transition table says, or, where the table has no
/// entry for it, leaves the slot exactly where it was.
pub proof fn lemma_sequence_follows_table(ops: Seq<TaskOp>, i: int)
    requires
        0 <= i < ops.len(),
    ensures
        ({
            let before = run_ops(TaskState::Unloaded, ops.take(i));
            let after = run_ops(TaskState::Unloaded, ops.take(i + 1));
            match before.spec_after(ops[i]) {
                Some(next) => after == next,
                None => after == before,
            }
        }),
{
    assert(ops.take(i + 1).drop_last() =~= ops.take(i));
}

/// A command that the table accepts, other than `Status`, leads to a state
/// that depends on the command alone.
pub proof fn lemma_accepted_op_fixes_state(from: TaskState, op: TaskOp)
    requires
        from.spec_after(op) is Some,
        op != TaskOp::Status,
    ensures
        from.spec_after(op) == Some(
            match op {
                TaskOp::Load => TaskState::Loaded,
                TaskOp::Start => TaskState::Running,
                TaskOp::Stop => TaskState::Stopped,
                _ => TaskState::Unloaded,
            },
        ),
{
}

/// The task held by the slot.
#[derive(Clone, Debug, PartialEq, Eq)]
pub struct TaskSession {
    pub name: String,
    pub file_path: String,
    pub state: TaskState,
    /// The state the device last reported, if it has reported any since the
    /// task was loaded.
    pub last_status: Option<TaskState>,
}

/// A held task as the contracts see it.
pub struct TaskSessionView {
    pub name: Seq<char>,
    pub file_path: Seq<char>,
    pub state: TaskState,
    pub last_status: Option<TaskState>,
}

impl View for TaskSession {
    type V = TaskSessionView;

    open spec fn view(&self) -> TaskSessionView {
        TaskSessionView {
            name: self.name@,
            file_path: self.file_path@,
            state: self.state,
            last_status: self.last_status,
        }
    }
}

/// The slot as the controller sees it: empty, or holding one task.
pub struct TaskControllerView {
    pub session: Option<TaskSessionView>,
}

impl TaskControllerView {
    /// The slot's state: `Unloaded` when it is empty.
    pub open spec fn state(self) -> TaskState {
        match self.session {
            Some(s) => s.state,
            None => TaskState::Unloaded,
        }
    }

    /// The slot after `command` has been accepted with `next` as the
    /// resulting state. An empty slot is filled with the task that a `Load`
    /// names; a slot that reaches `Unloaded` is emptied.
    pub open spec fn moved(self, command: TaskCommandView, next: TaskState) -> TaskControllerView {
        if next == TaskState::Unloaded {
            TaskControllerView { session: None }
        } else {
            match self.session {
                Some(s) => TaskControllerView {
                    session: Some(TaskSessionView { state: next, ..s }),
                },
                None => TaskControllerView {
                    session: Some(
                        TaskSessionView {
                            name: match command {
                                TaskCommandView::Load(o) => o.task_name,
                                _ => Seq::empty(),
                            },
                            file_path: match command {
                                TaskCommandView::Load(o) => o.file_path,
                                _ => Seq::empty(),
                            },
                            state: next,
                            last_status: None,
                        },
                    ),
                },
            }
        }
    }

    /// The slot after the device has reported `reported` in answer to
    /// `command`: moved to that state, with the report recorded.
    pub open spec fn acknowledged(
        self,
        command: TaskCommandView,
        reported: TaskState,
    ) -> TaskControllerView {
        match self.moved(command, reported).session {
            Some(s) => TaskControllerView {
                session: Some(TaskSessionView { last_status: Some(reported), ..s }),
            },
            None => TaskControllerView { session: None },
        }
    }
}

/// Mirrors the device's task slot. At most one task is held; a held task is
/// never in state `Unloaded`.
pub struct TaskController {
    session: Option<TaskSession>,
}

impl View for TaskController {
    type V = TaskControllerView;

    closed spec fn view(&self) -> TaskControllerView {
        TaskControllerView {
            session: match self.session {
                Some(s) => Some(s@),
                None => None,
            },
        }
    }
}

impl TaskController {
    #[verifier::type_invariant]
    spec fn inv(self) -> bool {
        self.session is Some ==> self.session->0.state != TaskState::Unloaded
    }

    /// An empty slot.
    pub fn new() -> (c: TaskController)
        ensures
            c@.session is None,
    {
        TaskController { session: None }
    }

    /// The slot's state. It is `Unloaded` exactly when the slot is empty.
    pub fn state(&self) -> (s: TaskState)
        ensures
            s == self@.state(),
            s == TaskState::Unloaded <==> self@.session is None,
    {
        proof {
            use_type_invariant(self);
        }
        match &self.session {
            Some(s) => s.state,
            None => TaskState::Unloaded,
        }
    }

    /// The task held, if any.
    pub fn session(&self) -> (s: Option<&TaskSession>)
        ensures
            match s {
                Some(t) => self@.session == Some(t@),
                None => self@.session is None,
            },
    {
        self.session.as_ref()
    }

    /// Whether the table permits `command` in the slot's state, and the
    /// state it would lead to.
    pub fn check(&self, command: &TaskCommand) -> (r: Result<TaskState, Error>)
        ensures
            match self@.state().spec_after(command@.op()) {
                Some(next) => r == Ok::<TaskState, Error>(next),
                None => r == Err::<TaskState, Error>(Error::InvalidState),
            },
    {
        match self.state().after(command.op()) {
            Some(next) => Ok(next),
            None => Err(Error::InvalidState),
        }
    }

    fn place(&mut self, command: &TaskCommand, next: TaskState, report: Option<TaskState>)
        ensures
            final(self)@.session == match old(self)@.moved(command@, next).session {
                Some(s) => Some(
                    TaskSessionView {
                        last_status: if report is Some {
                            report
                        } else {
                            s.last_status
                        },
                        ..s
                    },
                ),
                None => None,
            },
    {
        proof {
            use_type_invariant(&*self);
        }
        if let TaskState::Unloaded = next {
            self.session = None;
            return;
        }
        let (name, file_path, held_status) = match &self.session {
            Some(held) => (held.name.clone(), held.file_path.clone(), held.last_status),
            None => match command {
                TaskCommand::Load(o) => (o.task_name.clone(), o.file_path.clone(), None),
                _ => (String::new(), String::new(), None),
            },
        };
        let last_status = match report {
            Some(r) => Some(r),
            None => held_status,
        };
        self.session = Some(TaskSession { name, file_path, state: next, last_status });
    }

    /// Attempts `command` on the slot. Where the table permits it the slot
    /// moves to the table's state, which is returned; otherwise the slot is
    /// left exactly as it was and `InvalidState` is returned.
    pub fn apply(&mut self, command: &TaskCommand) -> (r: Result<TaskState, Error>)
        ensures
            match old(self)@.state().spec_after(command@.op()) {
                Some(next) => r == Ok::<TaskState, Error>(next) && final(self)@ == old(self)@.moved(
                    command@,
                    next,
                ),
                None => r == Err::<TaskState, Error>(Error::InvalidState) && final(self)@ == old(
                    self,
                )@,
            },
            final(self)@.state() == old(self)@.state().step(command@.op()),
    {
        proof {
            use_type_invariant(&*self);
        }
        match self.check(command) {
            Ok(next) => {
                self.place(command, next, None);
                Ok(next)
            },
            Err(e) => Err(e),
        }
    }

    /// Takes over the state that the device reported in answer to
    /// `command`. The device is the authority: the slot moves to the
    /// reported state whatever it held before.
    pub fn acknowledge(&mut self, command: &TaskCommand, reported: TaskState)
        ensures
            final(self)@ == old(self)@.acknowledged(command@, reported),
            final(self)@.state() == reported,
    {
        proof {
            use_type_invariant(&*self);
        }
        self.place(command, reported, Some(reported));
    }
}

} // verus!
