//! The command model: the closed set of commands an operator can issue,
//! their parameters, and the checks made on them before anything is sent.

use crate::error::Error;
use vstd::prelude::*;
use vstd::string::*;
use vstd::utf8::*;

verus! {

/// Where the device is reached.
#[derive(Clone, Debug, PartialEq, Eq)]
pub struct ClientOptions {
    /// Network endpoint of the device, in text form.
    pub target_address: String,
}

/// A file on the device, named relative to a directory.
#[derive(Clone, Debug, PartialEq, Eq)]
pub struct FileOptions {
    pub file_name: String,
    /// Directory that holds the file.
    pub base_path: String,
}

/// A directory on the device.
#[derive(Clone, Debug, PartialEq, Eq)]
pub struct ListOptions {
    pub base_path: String,
}

/// What to do with the files on the device.
#[derive(Clone, Debug, PartialEq, Eq)]
pub enum FileCommand {
    ListDir(ListOptions),
    Upload(FileOptions),
    Download(FileOptions),
}

/// The task to load and the file that holds its code.
#[derive(Clone, Debug, PartialEq, Eq)]
pub struct TaskOptions {
    pub task_name: String,
    /// Full path of the module on the device.
    pub file_path: String,
}

/// What to do with the task slot of the device.
#[derive(Clone, Debug, PartialEq, Eq)]
pub enum TaskCommand {
    Load(TaskOptions),
    Start,
    Stop,
    Unload,
    Status,
}

/// A command: everything needed to carry it out.
#[derive(Clone, Debug, PartialEq, Eq)]
pub enum Command {
    File(FileCommand),
    Task(TaskCommand),
}

/// Everything one invocation needs: the device and the command for it.
#[derive(Clone, Debug, PartialEq, Eq)]
pub struct Options {
    pub client: ClientOptions,
    pub command: Command,
}

/// `ClientOptions` as the contracts see it.
pub struct ClientOptionsView {
    pub target_address: Seq<char>,
}

/// `FileOptions` as the contracts see it.
pub struct FileOptionsView {
    pub file_name: Seq<char>,
    pub base_path: Seq<char>,
}

/// `ListOptions` as the contracts see it.
pub struct ListOptionsView {
    pub base_path: Seq<char>,
}

/// `FileCommand` as the contracts see it.
pub enum FileCommandView {
    ListDir(ListOptionsView),
    Upload(FileOptionsView),
    Download(FileOptionsView),
}

/// `TaskOptions` as the contracts see it.
pub struct TaskOptionsView {
    pub task_name: Seq<char>,
    pub file_path: Seq<char>,
}

/// `TaskCommand` as the contracts see it.
pub enum TaskCommandView {
    Load(TaskOptionsView),
    Start,
    Stop,
    Unload,
    Status,
}

/// `Command` as the contracts see it.
pub enum CommandView {
    File(FileCommandView),
    Task(TaskCommandView),
}

/// `Options` as the contracts see it.
pub struct OptionsView {
    pub client: ClientOptionsView,
    pub command: CommandView,
}

impl View for ClientOptions {
    type V = ClientOptionsView;

    open spec fn view(&self) -> ClientOptionsView {
        ClientOptionsView { target_address: self.target_address@ }
    }
}

impl View for FileOptions {
    type V = FileOptionsView;

    open spec fn view(&self) -> FileOptionsView {
        FileOptionsView { file_name: self.file_name@, base_path: self.base_path@ }
    }
}

impl View for ListOptions {
    type V = ListOptionsView;

    open spec fn view(&self) -> ListOptionsView {
        ListOptionsView { base_path: self.base_path@ }
    }
}

impl View for FileCommand {
    type V = FileCommandView;

    open spec fn view(&self) -> FileCommandView {
        match self {
            FileCommand::ListDir(o) => FileCommandView::ListDir(o@),
            FileCommand::Upload(o) => FileCommandView::Upload(o@),
            FileCommand::Download(o) => FileCommandView::Download(o@),
        }
    }
}

impl View for TaskOptions {
    type V = TaskOptionsView;

    open spec fn view(&self) -> TaskOptionsView {
        TaskOptionsView { task_name: self.task_name@, file_path: self.file_path@ }
    }
}

impl View for TaskCommand {
    type V = TaskCommandView;

    open spec fn view(&self) -> TaskCommandView {
        match self {
            TaskCommand::Load(o) => TaskCommandView::Load(o@),
            TaskCommand::Start => TaskCommandView::Start,
            TaskCommand::Stop => TaskCommandView::Stop,
            TaskCommand::Unload => TaskCommandView::Unload,
            TaskCommand::Status => TaskCommandView::Status,
        }
    }
}

impl View for Command {
    type V = CommandView;

    open spec fn view(&self) -> CommandView {
        match self {
            Command::File(c) => CommandView::File(c@),
            Command::Task(c) => CommandView::Task(c@),
        }
    }
}

impl View for Options {
    type V = OptionsView;

    open spec fn view(&self) -> OptionsView {
        OptionsView { client: self.client@, command: self.command@ }
    }
}

/// A character that may stand in a task name: a letter or digit of ASCII,
/// `_`, `-` or `.`.
pub open spec fn is_token_char(c: char) -> bool {
    ||| 'a' <= c <= 'z'
    ||| 'A' <= c <= 'Z'
    ||| '0' <= c <= '9'
    ||| c == '_'
    ||| c == '-'
    ||| c == '.'
}

/// A non-empty name made of token characters only.
pub open spec fn is_token(name: Seq<char>) -> bool {
    &&& name.len() > 0
    &&& forall|i: int| 0 <= i < name.len() ==> is_token_char(#[trigger] name[i])
}

impl FileOptionsView {
    /// The file name is not empty.
    pub open spec fn valid(self) -> bool {
        self.file_name.len() > 0
    }
}

impl TaskOptionsView {
    /// The task name is a token and a file is named.
    pub open spec fn valid(self) -> bool {
        is_token(self.task_name) && self.file_path.len() > 0
    }
}

impl CommandView {
    /// The command's parameters pass every check made before transmission.
    pub open spec fn valid(self) -> bool {
        match self {
            CommandView::File(FileCommandView::ListDir(_)) => true,
            CommandView::File(FileCommandView::Upload(o)) => o.valid(),
            CommandView::File(FileCommandView::Download(o)) => o.valid(),
            CommandView::Task(TaskCommandView::Load(o)) => o.valid(),
            CommandView::Task(_) => true,
        }
    }
}

/// The directory used when the operator names none.
pub fn default_base_path() -> (path: String)
    ensures
        path@ == "/spiffs"@,
{
    "/spiffs".to_owned()
}

fn is_token_byte(b: u8) -> (r: bool)
    ensures
        r == is_token_char(b as char),
{
    (0x61 <= b && b <= 0x7a) || (0x41 <= b && b <= 0x5a) || (0x30 <= b && b <= 0x39) || b == 0x5f
        || b == 0x2d || b == 0x2e
}

/// Whether `name` can serve as a task name.
pub fn check_token(name: &str) -> (r: bool)
    ensures
        r == is_token(name@),
{
    if name.is_empty() {
        return false;
    }
    if !name.is_ascii() {
        proof {
            let i = choose|i: int| 0 <= i < name@.len() && !('\0' <= #[trigger] name@[i] <= '\u{7f}');
            assert(!is_token_char(name@[i]));
        }
        return false;
    }
    let bytes = name.as_bytes();
    proof {
        is_ascii_chars_encode_utf8(name@);
    }
    let mut i: usize = 0;
    while i < bytes.len()
        invariant
            i <= bytes.len(),
            bytes@ == encode_utf8(name@),
            bytes@.len() == name@.len(),
            is_ascii_chars(name@),
            forall|j: int| 0 <= j < name@.len() ==> name@[j] as u8 == #[trigger] bytes@[j],
            forall|j: int| 0 <= j < i ==> is_token_char(#[trigger] name@[j]),
        decreases bytes.len() - i,
    {
        let b = bytes[i];
        proof {
            let c = name@[i as int];
            assert('\0' <= c <= '\u{7f}');
            assert(c as u8 == b);
            assert(b as char == c);
        }
        if !is_token_byte(b) {
            return false;
        }
        i += 1;
    }
    true
}

impl ClientOptions {
    /// The device at `target_address`.
    pub fn new(target_address: String) -> (o: ClientOptions)
        ensures
            o@.target_address == target_address@,
    {
        ClientOptions { target_address }
    }

    /// A copy with the same address.
    pub fn duplicate(&self) -> (o: ClientOptions)
        ensures
            o@ == self@,
    {
        ClientOptions { target_address: self.target_address.clone() }
    }
}

impl FileOptions {
    /// Names `file_name` under `base_path`, or under the default directory
    /// when none is given. An empty file name is refused.
    pub fn new(file_name: String, base_path: Option<String>) -> (r: Result<FileOptions, Error>)
        ensures
            file_name@.len() == 0 <==> r is Err,
            r is Err ==> r->Err_0 == Error::InvalidArgument,
            r is Ok ==> r->Ok_0@.file_name == file_name@ && r->Ok_0@.valid(),
            r is Ok ==> r->Ok_0@.base_path == match base_path {
                Some(p) => p@,
                None => "/spiffs"@,
            },
    {
        if file_name.as_str().is_empty() {
            return Err(Error::InvalidArgument);
        }
        let base_path = match base_path {
            Some(p) => p,
            None => default_base_path(),
        };
        Ok(FileOptions { file_name, base_path })
    }

    /// Whether the parameters pass the checks made before transmission.
    pub fn validate(&self) -> (r: Result<(), Error>)
        ensures
            self@.valid() <==> r is Ok,
            r is Err ==> r->Err_0 == Error::InvalidArgument,
    {
        if self.file_name.as_str().is_empty() {
            Err(Error::InvalidArgument)
        } else {
            Ok(())
        }
    }

    /// A copy that the contracts know to be equal.
    pub fn duplicate(&self) -> (o: FileOptions)
        ensures
            o@ == self@,
    {
        FileOptions { file_name: self.file_name.clone(), base_path: self.base_path.clone() }
    }
}

impl ListOptions {
    /// Names `base_path`, or the default directory when none is given.
    pub fn new(base_path: Option<String>) -> (o: ListOptions)
        ensures
            o@.base_path == match base_path {
                Some(p) => p@,
                None => "/spiffs"@,
            },
    {
        match base_path {
            Some(p) => ListOptions { base_path: p },
            None => ListOptions { base_path: default_base_path() },
        }
    }

    /// A copy that the contracts know to be equal.
    pub fn duplicate(&self) -> (o: ListOptions)
        ensures
            o@ == self@,
    {
        ListOptions { base_path: self.base_path.clone() }
    }
}

impl TaskOptions {
    /// Names the task and its module. The task name must be a token and the
    /// file path must not be empty.
    pub fn new(task_name: String, file_path: String) -> (r: Result<TaskOptions, Error>)
        ensures
            (is_token(task_name@) && file_path@.len() > 0) <==> r is Ok,
            r is Err ==> r->Err_0 == Error::InvalidArgument,
            r is Ok ==> r->Ok_0@ == (TaskOptionsView {
                task_name: task_name@,
                file_path: file_path@,
            }),
    {
        let o = TaskOptions { task_name, file_path };
        match o.validate() {
            Ok(()) => Ok(o),
            Err(e) => Err(e),
        }
    }

    /// Whether the parameters pass the checks made before transmission.
    pub fn validate(&self) -> (r: Result<(), Error>)
        ensures
            self@.valid() <==> r is Ok,
            r is Err ==> r->Err_0 == Error::InvalidArgument,
    {
        if check_token(self.task_name.as_str()) && !self.file_path.as_str().is_empty() {
            Ok(())
        } else {
            Err(Error::InvalidArgument)
        }
    }

    /// A copy that the contracts know to be equal.
    pub fn duplicate(&self) -> (o: TaskOptions)
        ensures
            o@ == self@,
    {
        TaskOptions { task_name: self.task_name.clone(), file_path: self.file_path.clone() }
    }
}

impl FileCommand {
    /// A copy that the contracts know to be equal.
    pub fn duplicate(&self) -> (c: FileCommand)
        ensures
            c@ == self@,
    {
        match self {
            FileCommand::ListDir(o) => FileCommand::ListDir(o.duplicate()),
            FileCommand::Upload(o) => FileCommand::Upload(o.duplicate()),
            FileCommand::Download(o) => FileCommand::Download(o.duplicate()),
        }
    }
}

impl TaskCommand {
    /// A copy that the contracts know to be equal.
    pub fn duplicate(&self) -> (c: TaskCommand)
        ensures
            c@ == self@,
    {
        match self {
            TaskCommand::Load(o) => TaskCommand::Load(o.duplicate()),
            TaskCommand::Start => TaskCommand::Start,
            TaskCommand::Stop => TaskCommand::Stop,
            TaskCommand::Unload => TaskCommand::Unload,
            TaskCommand::Status => TaskCommand::Status,
        }
    }
}

impl Command {
    /// Checks the command's parameters. A failure is reported before
    /// anything is encoded or sent.
    pub fn validate(&self) -> (r: Result<(), Error>)
        ensures
            self@.valid() <==> r is Ok,
            r is Err ==> r->Err_0 == Error::InvalidArgument,
    {
        match self {
            Command::File(FileCommand::ListDir(_)) => Ok(()),
            Command::File(FileCommand::Upload(o)) => o.validate(),
            Command::File(FileCommand::Download(o)) => o.validate(),
            Command::Task(TaskCommand::Load(o)) => o.validate(),
            Command::Task(_) => Ok(()),
        }
    }

    /// A copy that the contracts know to be equal.
    pub fn duplicate(&self) -> (c: Command)
        ensures
            c@ == self@,
    {
        match self {
            Command::File(c) => Command::File(c.duplicate()),
            Command::Task(c) => Command::Task(c.duplicate()),
        }
    }
}

} // verus!
