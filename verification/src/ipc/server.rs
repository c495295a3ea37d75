//! The minimal command server: it only starts and stops playback and
//! answers any other command as unknown, each under its own request id.
use vstd::prelude::*;

use crate::ipc::protocol::{Command, ErrorCode, Response, ResponseView};
use crate::text::owned;

verus! {

/// The play state the server keeps.
#[derive(PartialEq, Eq, Clone, Copy, Debug, Structural)]
pub enum ServerState {
    Stopped,
    Playing,
}

pub struct IpcServer {
    transport_state: ServerState,
}

impl View for IpcServer {
    type V = ServerState;

    closed spec fn view(&self) -> ServerState {
        self.transport_state
    }
}

/// The id of a command.
pub open spec fn command_request_id(cmd: Command) -> Seq<char> {
    match cmd {
        Command::Play { request_id } => request_id@,
        Command::Stop { request_id } => request_id@,
        Command::SetParam { request_id, .. } => request_id@,
        Command::AddNote { request_id, .. } => request_id@,
        Command::MoveNote { request_id, .. } => request_id@,
        Command::ResizeNote { request_id, .. } => request_id@,
        Command::DeleteNote { request_id, .. } => request_id@,
        Command::PatchReplace { request_id, .. } => request_id@,
        Command::PatchValidate { request_id } => request_id@,
        Command::WavetableSet { request_id, .. } => request_id@,
        Command::LoopToggle { request_id, .. } => request_id@,
        Command::ExportWav { request_id, .. } => request_id@,
    }
}

/// What the server does with a command: the next state and the response.
pub open spec fn serve(s: ServerState, cmd: Command) -> (ServerState, ResponseView) {
    match cmd {
        Command::Play { request_id } => if s == ServerState::Playing {
            (
                s,
                ResponseView::Error {
                    request_id: request_id@,
                    code: ErrorCode::EditDeniedPlaying,
                    message: "Already playing"@,
                },
            )
        } else {
            (ServerState::Playing, ResponseView::Okay { request_id: request_id@ })
        },
        Command::Stop { request_id } => if s == ServerState::Stopped {
            (
                s,
                ResponseView::Error {
                    request_id: request_id@,
                    code: ErrorCode::EditDeniedPlaying,
                    message: "Already stopped"@,
                },
            )
        } else {
            (ServerState::Stopped, ResponseView::Okay { request_id: request_id@ })
        },
        _ => (
            s,
            ResponseView::Error {
                request_id: command_request_id(cmd),
                code: ErrorCode::UnknownCommand,
                message: "Unknown command"@,
            },
        ),
    }
}

/// Every command is answered under its own request id, whatever the state.
pub proof fn lemma_serve_keeps_request_id(s: ServerState, cmd: Command)
    ensures
        serve(s, cmd).1 matches ResponseView::Okay { request_id } ==> request_id
            == command_request_id(cmd),
        serve(s, cmd).1 matches ResponseView::Error { request_id, .. } ==> request_id
            == command_request_id(cmd),
{
}

/// Starting then stopping a stopped server brings it back to stopped, and
/// both are accepted.
pub proof fn lemma_server_play_then_stop(play: Command, stop: Command)
    requires
        play is Play,
        stop is Stop,
    ensures
        serve(ServerState::Stopped, play).0 == ServerState::Playing,
        serve(ServerState::Stopped, play).1 is Okay,
        serve(serve(ServerState::Stopped, play).0, stop).0 == ServerState::Stopped,
        serve(serve(ServerState::Stopped, play).0, stop).1 is Okay,
{
}

/// The request id a command carries.
fn take_request_id(cmd: Command) -> (r: String)
    ensures
        r@ == command_request_id(cmd),
{
    match cmd {
        Command::Play { request_id } => request_id,
        Command::Stop { request_id } => request_id,
        Command::SetParam { request_id, .. } => request_id,
        Command::AddNote { request_id, .. } => request_id,
        Command::MoveNote { request_id, .. } => request_id,
        Command::ResizeNote { request_id, .. } => request_id,
        Command::DeleteNote { request_id, .. } => request_id,
        Command::PatchReplace { request_id, .. } => request_id,
        Command::PatchValidate { request_id } => request_id,
        Command::WavetableSet { request_id, .. } => request_id,
        Command::LoopToggle { request_id, .. } => request_id,
        Command::ExportWav { request_id, .. } => request_id,
    }
}

impl IpcServer {
    /// A server with playback stopped.
    pub fn new() -> (r: Self)
        ensures
            r@ == ServerState::Stopped,
    {
        Self { transport_state: ServerState::Stopped }
    }

    /// Handles one command.
    pub fn handle(&mut self, cmd: Command) -> (r: Response)
        ensures
            (final(self)@, r@) == serve(old(self)@, cmd),
    {
        match cmd {
            Command::Play { request_id } => {
                if self.transport_state == ServerState::Playing {
                    Response::Error {
                        request_id,
                        code: ErrorCode::EditDeniedPlaying,
                        message: owned("Already playing"),
                    }
                } else {
                    self.transport_state = ServerState::Playing;
                    Response::Okay { request_id }
                }
            },
            Command::Stop { request_id } => {
                if self.transport_state == ServerState::Stopped {
                    Response::Error {
                        request_id,
                        code: ErrorCode::EditDeniedPlaying,
                        message: owned("Already stopped"),
                    }
                } else {
                    self.transport_state = ServerState::Stopped;
                    Response::Okay { request_id }
                }
            },
            other => Response::Error {
                request_id: take_request_id(other),
                code: ErrorCode::UnknownCommand,
                message: owned("Unknown command"),
            },
        }
    }
}

} // verus!
