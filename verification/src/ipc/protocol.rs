//! The messages of the IPC protocol between the user interface and the
//! engine: commands in, responses out. Real numbers are binary64 bit
//! patterns; JSON (de)serialisation happens at the edge of the application.
use vstd::prelude::*;

verus! {

pub enum Response {
    Okay { request_id: String },
    Error { request_id: String, code: ErrorCode, message: String },
}

/// A response with its texts as character sequences.
pub enum ResponseView {
    Okay { request_id: Seq<char> },
    Error { request_id: Seq<char>, code: ErrorCode, message: Seq<char> },
}

impl View for Response {
    type V = ResponseView;

    open spec fn view(&self) -> ResponseView {
        match self {
            Response::Okay { request_id } => ResponseView::Okay { request_id: request_id@ },
            Response::Error { request_id, code, message } => ResponseView::Error {
                request_id: request_id@,
                code: *code,
                message: message@,
            },
        }
    }
}

pub enum Command {
    Play { request_id: String },
    Stop { request_id: String },
    SetParam { request_id: String, name: String, value: u64 },
    AddNote { request_id: String, note: Note },
    MoveNote { request_id: String, id: String, pitch: u8, start: u64 },
    ResizeNote { request_id: String, length: u64, id: String },
    DeleteNote { request_id: String, id: String },
    PatchReplace { request_id: String, patch: Patch },
    PatchValidate { request_id: String },
    WavetableSet { request_id: String, osc_id: String, table: Vec<u64> },
    LoopToggle { request_id: String, enabled: bool },
    ExportWav { request_id: String, path: String },
}

#[derive(Clone, Copy, Debug, PartialEq, Eq, Structural)]
pub enum ErrorCode {
    InvalidMessage,
    UnknownCommand,
    ParamNotFound,
    ParamOutOfRange,
    PatchInvalid,
    EditDeniedPlaying,
    ExportFailed,
    PresetNotFound,
    InternalError,
}

pub struct Note {
    pub id: String,
    pub start: u64,
    pub pitch: u8,
    pub velocity: u64,
    pub length: u64,
}

/// A patch as the user interface sends it.
pub struct Patch {
    pub modules: Vec<Module>,
    pub connections: Vec<Connection>,
}

/// A module as sent: its kind by name, and its parameter settings as maps
/// from names to numbers (`None` where the value is not a number).
pub struct Module {
    pub id: String,
    pub kind: String,
    pub params: Vec<Param>,
}

/// The entries of one parameter map.
pub type Param = Vec<(String, Option<u64>)>;

/// A connection as sent, between ports written `module.port`.
pub struct Connection {
    pub from: String,
    pub to: String,
}

/// The entries of a parameter map as character sequences.
pub open spec fn param_view(p: Param) -> Seq<(Seq<char>, Option<u64>)> {
    p@.map_values(|e: (String, Option<u64>)| (e.0@, e.1))
}

/// A module as sent, with its texts as character sequences.
pub struct IpcModuleView {
    pub id: Seq<char>,
    pub kind: Seq<char>,
    pub params: Seq<Seq<(Seq<char>, Option<u64>)>>,
}

/// A connection as sent, with its texts as character sequences.
pub struct IpcConnectionView {
    pub from: Seq<char>,
    pub to: Seq<char>,
}

/// A patch as sent, with its texts as character sequences.
pub struct IpcPatchView {
    pub modules: Seq<IpcModuleView>,
    pub connections: Seq<IpcConnectionView>,
}

impl View for Module {
    type V = IpcModuleView;

    open spec fn view(&self) -> IpcModuleView {
        IpcModuleView {
            id: self.id@,
            kind: self.kind@,
            params: self.params@.map_values(|p: Param| param_view(p)),
        }
    }
}

impl View for Connection {
    type V = IpcConnectionView;

    open spec fn view(&self) -> IpcConnectionView {
        IpcConnectionView { from: self.from@, to: self.to@ }
    }
}

impl View for Patch {
    type V = IpcPatchView;

    open spec fn view(&self) -> IpcPatchView {
        IpcPatchView {
            modules: self.modules@.map_values(|m: Module| m@),
            connections: self.connections@.map_values(|c: Connection| c@),
        }
    }
}

} // verus!
