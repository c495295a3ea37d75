use mase::domain::synthesis::lfo::{LfoShape, LfoTarget};
use mase::domain::synthesis::wavetable::Wavetable;
use mase::ipc::dispatcher::{dispatch, export_finished, EngineState, Outcome};
use mase::ipc::protocol::{self, Command, ErrorCode, Response};
use mase::ipc::server::IpcServer;

fn bits(x: f64) -> u64 {
    x.to_bits()
}

fn state() -> EngineState {
    let n = Wavetable::DEFAULT_SIZE;
    let sine: Vec<u64> = (0..n)
        .map(|i| (i as f64 / n as f64 * 2.0 * std::f64::consts::PI).sin().to_bits())
        .collect();
    EngineState::new(Wavetable::from_samples(sine))
}

fn reply(o: Outcome) -> Response {
    match o {
        Outcome::Reply(r) => r,
        Outcome::Export { .. } => panic!("unexpected export"),
    }
}

fn error_of(r: &Response) -> (String, ErrorCode, String) {
    match r {
        Response::Error { request_id, code, message } => (request_id.clone(), *code, message.clone()),
        Response::Okay { .. } => panic!("expected an error"),
    }
}

#[test]
fn test_play_then_stop() {
    let mut s = state();
    let r = reply(dispatch(&mut s, Command::Play { request_id: "1".into() }));
    assert!(matches!(r, Response::Okay { .. }));
    assert!(s.transport.is_playing());

    let r = reply(dispatch(&mut s, Command::Stop { request_id: "2".into() }));
    assert!(matches!(r, Response::Okay { .. }));
    assert!(s.transport.is_stopped());
}

#[test]
fn test_double_play_returns_error() {
    let mut s = state();
    dispatch(&mut s, Command::Play { request_id: "1".into() });
    let r = reply(dispatch(&mut s, Command::Play { request_id: "2".into() }));
    assert!(matches!(r, Response::Error { .. }));
}

#[test]
fn test_set_param_filter_cutoff() {
    let mut s = state();
    dispatch(&mut s, Command::SetParam {
        request_id: "1".into(), name: "filter.cutoff".into(), value: bits(5000.0),
    });
    assert_eq!(f64::from_bits(s.filter_cutoff), 5000.0);
}

#[test]
fn test_set_param_unknown_returns_error() {
    let mut s = state();
    let r = reply(dispatch(&mut s, Command::SetParam {
        request_id: "1".into(), name: "unknown.param".into(), value: bits(1.0),
    }));
    assert!(matches!(r, Response::Error { .. }));
}

#[test]
fn test_add_and_delete_note() {
    let mut s = state();
    dispatch(&mut s, Command::AddNote {
        request_id: "1".into(),
        note: protocol::Note { id: "note-1".into(), pitch: 60, start: bits(0.0), length: bits(1.0), velocity: bits(0.8) },
    });
    assert_eq!(s.pattern.notes().len(), 1);

    let id = s.pattern.notes()[0].id().to_string();
    dispatch(&mut s, Command::DeleteNote { request_id: "2".into(), id });
    assert_eq!(s.pattern.notes().len(), 0);
}

#[test]
fn test_loop_toggle() {
    let mut s = state();
    dispatch(&mut s, Command::LoopToggle { request_id: "1".into(), enabled: true });
    assert!(s.loop_enabled);
    dispatch(&mut s, Command::LoopToggle { request_id: "2".into(), enabled: false });
    assert!(!s.loop_enabled);
}

#[test]
fn initial_engine_state() {
    let s = state();
    assert_eq!(f64::from_bits(s.envelope_attack), 0.01);
    assert_eq!(f64::from_bits(s.envelope_decay), 0.1);
    assert_eq!(f64::from_bits(s.envelope_sustain), 0.7);
    assert_eq!(f64::from_bits(s.envelope_release), 0.3);
    assert_eq!(f64::from_bits(s.filter_cutoff), 1000.0);
    assert_eq!(f64::from_bits(s.filter_resonance), 0.5);
    assert_eq!(f64::from_bits(s.lfo_rate), 1.0);
    assert_eq!(f64::from_bits(s.lfo_depth), 0.5);
    assert_eq!(s.lfo_shape, LfoShape::Sine);
    assert_eq!(s.lfo_target, LfoTarget::Cutoff);
    assert_eq!(f64::from_bits(s.portamento_time), 0.0);
    assert_eq!(f64::from_bits(s.sample_rate), 44100.0);
    assert!(!s.loop_enabled);
    assert!(s.patch.is_none());
}

fn set(s: &mut EngineState, name: &str, v: f64) -> Response {
    reply(dispatch(s, Command::SetParam { request_id: "p".into(), name: name.into(), value: bits(v) }))
}

#[test]
fn set_param_stores_values_in_range() {
    let mut s = state();
    let ok = |r: Response| assert!(matches!(r, Response::Okay { .. }));
    ok(set(&mut s, "filter.cutoff", 20000.0));
    assert_eq!(f64::from_bits(s.filter_cutoff), 20000.0);
    ok(set(&mut s, "filter.cutoff", 20.0));
    assert_eq!(f64::from_bits(s.filter_cutoff), 20.0);
    ok(set(&mut s, "envelope.attack", 0.001));
    assert_eq!(f64::from_bits(s.envelope_attack), 0.001);
    ok(set(&mut s, "envelope.decay", 2.0));
    assert_eq!(f64::from_bits(s.envelope_decay), 2.0);
    ok(set(&mut s, "envelope.sustain", 1.0));
    assert_eq!(f64::from_bits(s.envelope_sustain), 1.0);
    ok(set(&mut s, "envelope.release", 4.0));
    assert_eq!(f64::from_bits(s.envelope_release), 4.0);
    ok(set(&mut s, "filter.resonance", 0.0));
    assert_eq!(f64::from_bits(s.filter_resonance), 0.0);
    ok(set(&mut s, "lfo.rate", 0.01));
    assert_eq!(f64::from_bits(s.lfo_rate), 0.01);
    ok(set(&mut s, "lfo.depth", 0.25));
    assert_eq!(f64::from_bits(s.lfo_depth), 0.25);
    ok(set(&mut s, "lfo.shape", 3.0));
    assert_eq!(s.lfo_shape, LfoShape::Saw);
    ok(set(&mut s, "lfo.target", 2.0));
    assert_eq!(s.lfo_target, LfoTarget::Volume);
    ok(set(&mut s, "portamento.time", 0.5));
    assert_eq!(f64::from_bits(s.portamento_time), 0.5);
    ok(set(&mut s, "transport.bpm", 140.0));
    assert_eq!(f64::from_bits(s.transport.bpm()), 140.0);
}

#[test]
fn set_param_refuses_values_out_of_range() {
    let mut s = state();
    let cases: [(&str, f64); 12] = [
        ("filter.cutoff", 50000.0),
        ("filter.cutoff", 1.0),
        ("envelope.attack", 0.0),
        ("envelope.decay", 0.0005),
        ("envelope.sustain", 1.5),
        ("envelope.release", -4.0),
        ("filter.resonance", -1.0),
        ("lfo.rate", 0.001),
        ("lfo.depth", 1.01),
        ("portamento.time", -1.0),
        ("filter.cutoff", f64::NAN),
        ("envelope.sustain", f64::INFINITY),
    ];
    for (name, v) in cases {
        let r = set(&mut s, name, v);
        assert_eq!(
            error_of(&r),
            ("p".into(), ErrorCode::ParamOutOfRange, format!("Value out of range for param: {}", name))
        );
    }
    // Nothing changed.
    assert_eq!(f64::from_bits(s.filter_cutoff), 1000.0);
    assert_eq!(f64::from_bits(s.envelope_attack), 0.01);
    assert_eq!(f64::from_bits(s.envelope_decay), 0.1);
    assert_eq!(f64::from_bits(s.envelope_sustain), 0.7);
    assert_eq!(f64::from_bits(s.envelope_release), 0.3);
    assert_eq!(f64::from_bits(s.filter_resonance), 0.5);
    assert_eq!(f64::from_bits(s.lfo_rate), 1.0);
    assert_eq!(f64::from_bits(s.lfo_depth), 0.5);
    assert_eq!(f64::from_bits(s.portamento_time), 0.0);
}

#[test]
fn set_param_errors() {
    let mut s = state();
    let r = set(&mut s, "osc.freq", 440.0);
    assert_eq!(error_of(&r), ("p".into(), ErrorCode::ParamNotFound, "Unknown param: osc.freq".into()));
    let r = set(&mut s, "transport.bpm", 0.0);
    assert_eq!(error_of(&r), ("p".into(), ErrorCode::ParamOutOfRange, "BPM must be greater than 0".into()));
    assert_eq!(f64::from_bits(s.transport.bpm()), 120.0);
}

#[test]
fn transport_errors_are_reported_with_their_text() {
    let mut s = state();
    let r = reply(dispatch(&mut s, Command::Stop { request_id: "s".into() }));
    assert_eq!(error_of(&r), ("s".into(), ErrorCode::EditDeniedPlaying, "Transport is already stopped".into()));
    dispatch(&mut s, Command::Play { request_id: "1".into() });
    let r = reply(dispatch(&mut s, Command::Play { request_id: "2".into() }));
    assert_eq!(error_of(&r), ("2".into(), ErrorCode::EditDeniedPlaying, "Transport is already playing".into()));
}

#[test]
fn note_commands() {
    let mut s = state();
    let note = |pitch: u8, velocity: f64| protocol::Note { id: "n".into(), pitch, start: bits(0.0), length: bits(1.0), velocity: bits(velocity) };
    let r = reply(dispatch(&mut s, Command::AddNote { request_id: "a".into(), note: note(60, 0.9) }));
    assert!(matches!(r, Response::Okay { .. }));
    let r = reply(dispatch(&mut s, Command::AddNote { request_id: "b".into(), note: note(60, 1.5) }));
    assert_eq!(error_of(&r), ("b".into(), ErrorCode::InternalError, "Invalid velocity (must be between 0.0 and 1.0)".into()));
    let r = reply(dispatch(&mut s, Command::MoveNote { request_id: "c".into(), id: "0".into(), pitch: 62, start: bits(4.0) }));
    assert!(matches!(r, Response::Okay { .. }));
    assert_eq!(s.pattern.notes()[0].pitch(), 62);
    let r = reply(dispatch(&mut s, Command::ResizeNote { request_id: "d".into(), length: bits(8.0), id: "0".into() }));
    assert!(matches!(r, Response::Okay { .. }));
    assert_eq!(f64::from_bits(s.pattern.notes()[0].length()), 8.0);
    let r = reply(dispatch(&mut s, Command::DeleteNote { request_id: "e".into(), id: "1".into() }));
    assert_eq!(error_of(&r), ("e".into(), ErrorCode::InternalError, "Note not found".into()));
}

#[test]
fn wavetable_set_rules() {
    let mut s = state();
    let table = vec![bits(0.0), bits(0.1), bits(0.0), bits(-0.1)];
    let r = reply(dispatch(&mut s, Command::WavetableSet { request_id: "w".into(), osc_id: "osc1".into(), table: table.clone() }));
    assert!(matches!(r, Response::Okay { .. }));
    assert_eq!(s.wavetable.samples(), table.as_slice());
    let r = reply(dispatch(&mut s, Command::WavetableSet { request_id: "x".into(), osc_id: "osc1".into(), table: vec![] }));
    assert_eq!(error_of(&r).1, ErrorCode::InvalidMessage);
    dispatch(&mut s, Command::Play { request_id: "p".into() });
    let r = reply(dispatch(&mut s, Command::WavetableSet { request_id: "y".into(), osc_id: "osc1".into(), table: vec![bits(1.0)] }));
    assert_eq!(error_of(&r).1, ErrorCode::EditDeniedPlaying);
    assert_eq!(s.wavetable.samples(), table.as_slice());
}

fn ipc_patch(kinds: &[(&str, &str)], conns: &[(&str, &str)]) -> protocol::Patch {
    protocol::Patch {
        modules: kinds
            .iter()
            .map(|(id, kind)| protocol::Module { id: id.to_string(), kind: kind.to_string(), params: vec![] })
            .collect(),
        connections: conns
            .iter()
            .map(|(f, t)| protocol::Connection { from: f.to_string(), to: t.to_string() })
            .collect(),
    }
}

#[test]
fn patch_replace_and_validate() {
    let mut s = state();
    let r = reply(dispatch(&mut s, Command::PatchValidate { request_id: "v0".into() }));
    assert!(matches!(r, Response::Okay { .. }));
    let good = ipc_patch(&[("osc1", "Oscillator"), ("out1", "Output")], &[("osc1.out", "out1.in")]);
    let r = reply(dispatch(&mut s, Command::PatchReplace { request_id: "r1".into(), patch: good }));
    assert!(matches!(r, Response::Okay { .. }));
    assert_eq!(s.patch.as_ref().unwrap().modules().len(), 2);
    let r = reply(dispatch(&mut s, Command::PatchValidate { request_id: "v1".into() }));
    assert!(matches!(r, Response::Okay { .. }));

    let cyclic = ipc_patch(&[("a", "filter"), ("out", "output")], &[("a.o", "a.i")]);
    let r = reply(dispatch(&mut s, Command::PatchReplace { request_id: "r2".into(), patch: cyclic }));
    assert_eq!(error_of(&r), ("r2".into(), ErrorCode::PatchInvalid, "Patch cannot contain cycles".into()));
    assert_eq!(s.patch.as_ref().unwrap().modules().len(), 2);

    let bad_kind = ipc_patch(&[("a", "theremin")], &[]);
    let r = reply(dispatch(&mut s, Command::PatchReplace { request_id: "r3".into(), patch: bad_kind }));
    assert_eq!(error_of(&r), ("r3".into(), ErrorCode::PatchInvalid, "Unknown module kind: 'theremin'".into()));

    let bad_port = ipc_patch(&[("a", "output")], &[("a", "b.c")]);
    let r = reply(dispatch(&mut s, Command::PatchReplace { request_id: "r4".into(), patch: bad_port }));
    assert_eq!(error_of(&r), ("r4".into(), ErrorCode::PatchInvalid, "Invalid port id: 'a'".into()));
}

#[test]
fn patch_without_sound_source_is_refused() {
    let mut s = state();
    let silent = ipc_patch(&[("f", "Filter"), ("out", "Output")], &[("f.out", "out.in")]);
    let r = reply(dispatch(&mut s, Command::PatchReplace { request_id: "s1".into(), patch: silent }));
    assert_eq!(
        error_of(&r),
        ("s1".into(), ErrorCode::PatchInvalid, "Patch must contain at least one oscillator".into())
    );
    assert!(s.patch.is_none());
}

#[test]
fn export_is_handed_to_the_application() {
    let mut s = state();
    match dispatch(&mut s, Command::ExportWav { request_id: "e".into(), path: "/tmp/x.wav".into() }) {
        Outcome::Export { request_id, path } => {
            assert_eq!(request_id, "e");
            assert_eq!(path, "/tmp/x.wav");
        }
        Outcome::Reply(_) => panic!("expected an export"),
    }
    assert!(matches!(export_finished("e".into(), Ok(())), Response::Okay { .. }));
    let r = export_finished("e".into(), Err("disk full".into()));
    assert_eq!(error_of(&r), ("e".into(), ErrorCode::ExportFailed, "disk full".into()));
}

#[test]
fn server_handles_play_and_stop_only() {
    let mut server = IpcServer::new();
    assert!(matches!(server.handle(Command::Play { request_id: "1".into() }), Response::Okay { .. }));
    let r = server.handle(Command::Play { request_id: "2".into() });
    assert_eq!(error_of(&r), ("2".into(), ErrorCode::EditDeniedPlaying, "Already playing".into()));
    assert!(matches!(server.handle(Command::Stop { request_id: "3".into() }), Response::Okay { .. }));
    let r = server.handle(Command::Stop { request_id: "4".into() });
    assert_eq!(error_of(&r), ("4".into(), ErrorCode::EditDeniedPlaying, "Already stopped".into()));
    let r = server.handle(Command::PatchValidate { request_id: "5".into() });
    assert_eq!(error_of(&r), ("5".into(), ErrorCode::UnknownCommand, "Unknown command".into()));
}

#[test]
fn server_answers_unknown_commands_under_their_own_id() {
    let mut server = IpcServer::new();
    let r = server.handle(Command::LoopToggle { request_id: "9".into(), enabled: true });
    assert_eq!(error_of(&r), ("9".into(), ErrorCode::UnknownCommand, "Unknown command".into()));
    // The play state is untouched: starting still succeeds.
    assert!(matches!(server.handle(Command::Play { request_id: "10".into() }), Response::Okay { .. }));
}
