//! The command dispatcher: applies each command of the protocol to the
//! engine state and answers it.
use vstd::prelude::*;

use crate::binary64::{
    le, le_spec, lt_spec, FORTY_FOUR_THOUSAND_ONE_HUNDRED, ONE, ONE_HALF, ONE_HUNDREDTH,
    ONE_THOUSAND, ONE_THOUSANDTH, ONE_TENTH, SEVEN_TENTHS, THREE_TENTHS, TWENTY, TWENTY_THOUSAND,
    ZERO,
};
use crate::domain::patch::model::{
    lemma_patch_from_ipc_errors, patch_from_ipc, Patch, PatchError, PatchErrorView,
};
use crate::domain::patch::validator::{validation, validation_message, PatchValidator};
use crate::domain::sequencing::pattern::{
    add_note_spec, delete_note_spec, move_note_spec, pattern_message, resize_note_spec, Pattern,
    PatternError,
};
use crate::domain::sequencing::transport::{
    lemma_transport_view_injective, play_transport, TransportView, set_bpm_transport, stop_transport, transport_message, Transport,
    TransportError, TransportState,
};
use crate::domain::synthesis::lfo::{shape_of, target_of, LfoShape, LfoTarget};
use crate::domain::synthesis::wavetable::Wavetable;
use crate::ipc::protocol::{Command, ErrorCode, Response, ResponseView};
use crate::text::{concat, owned, str_eq};

verus! {

/// The state the commands act on: transport, pattern, waveform, loop flag,
/// the synthesis parameters (binary64 patterns), the sample rate of the
/// audio device, and the current patch, if one was sent.
pub struct EngineState {
    pub transport: Transport,
    pub pattern: Pattern,
    pub wavetable: Wavetable,
    pub loop_enabled: bool,
    // Envelope ADSR
    pub envelope_attack: u64,
    pub envelope_decay: u64,
    pub envelope_sustain: u64,
    pub envelope_release: u64,
    // Filter
    pub filter_cutoff: u64,
    pub filter_resonance: u64,
    // LFO
    pub lfo_rate: u64,
    pub lfo_depth: u64,
    pub lfo_shape: LfoShape,
    pub lfo_target: LfoTarget,
    // Portamento
    pub portamento_time: u64,
    // Sample rate of the audio device (set at start-up)
    pub sample_rate: u64,
    // The patch last accepted by `PatchReplace`
    pub patch: Option<Patch>,
}

impl EngineState {
    /// What every engine state keeps: a positive tempo and a well-formed
    /// pattern.
    pub open spec fn wf(&self) -> bool {
        self.transport.wf() && self.pattern.wf()
    }

    /// The initial state, with the given waveform (the application starts
    /// with a sine cycle of `Wavetable::DEFAULT_SIZE` samples).
    pub fn new(wavetable: Wavetable) -> (r: Self)
        ensures
            r.wf(),
            r.transport@.state == TransportState::Stopped,
            r.transport@.bpm == crate::binary64::ONE_HUNDRED_TWENTY,
            r.transport@.position == ZERO,
            r.pattern@.notes.len() == 0,
            r.pattern@.next_note_id == 0,
            r.wavetable@ == wavetable@,
            !r.loop_enabled,
            r.envelope_attack == ONE_HUNDREDTH,
            r.envelope_decay == ONE_TENTH,
            r.envelope_sustain == SEVEN_TENTHS,
            r.envelope_release == THREE_TENTHS,
            r.filter_cutoff == ONE_THOUSAND,
            r.filter_resonance == ONE_HALF,
            r.lfo_rate == ONE,
            r.lfo_depth == ONE_HALF,
            r.lfo_shape == LfoShape::Sine,
            r.lfo_target == LfoTarget::Cutoff,
            r.portamento_time == ZERO,
            r.sample_rate == FORTY_FOUR_THOUSAND_ONE_HUNDRED,
            r.patch is None,
    {
        Self {
            transport: Transport::new(),
            pattern: Pattern::new(),
            wavetable,
            loop_enabled: false,
            envelope_attack: ONE_HUNDREDTH,
            envelope_decay: ONE_TENTH,
            envelope_sustain: SEVEN_TENTHS,
            envelope_release: THREE_TENTHS,
            filter_cutoff: ONE_THOUSAND,
            filter_resonance: ONE_HALF,
            lfo_rate: ONE,
            lfo_depth: ONE_HALF,
            lfo_shape: LfoShape::Sine,
            lfo_target: LfoTarget::Cutoff,
            portamento_time: ZERO,
            sample_rate: FORTY_FOUR_THOUSAND_ONE_HUNDRED,
            patch: None,
        }
    }
}

/// The parameters that `SetParam` reaches, by their paths.
pub enum EngineParam {
    Bpm,
    Attack,
    Decay,
    Sustain,
    Release,
    Cutoff,
    Resonance,
    LfoRate,
    LfoDepth,
    LfoShape,
    LfoTarget,
    PortamentoTime,
}

/// The parameter a path names.
pub open spec fn engine_param(name: Seq<char>) -> Option<EngineParam> {
    if name == "transport.bpm"@ {
        Some(EngineParam::Bpm)
    } else if name == "envelope.attack"@ {
        Some(EngineParam::Attack)
    } else if name == "envelope.decay"@ {
        Some(EngineParam::Decay)
    } else if name == "envelope.sustain"@ {
        Some(EngineParam::Sustain)
    } else if name == "envelope.release"@ {
        Some(EngineParam::Release)
    } else if name == "filter.cutoff"@ {
        Some(EngineParam::Cutoff)
    } else if name == "filter.resonance"@ {
        Some(EngineParam::Resonance)
    } else if name == "lfo.rate"@ {
        Some(EngineParam::LfoRate)
    } else if name == "lfo.depth"@ {
        Some(EngineParam::LfoDepth)
    } else if name == "lfo.shape"@ {
        Some(EngineParam::LfoShape)
    } else if name == "lfo.target"@ {
        Some(EngineParam::LfoTarget)
    } else if name == "portamento.time"@ {
        Some(EngineParam::PortamentoTime)
    } else {
        None
    }
}

/// The range of each synthesis parameter: times and the rate at or above
/// their minimum, levels in `[0, 1]`, the cutoff in `[20, 20000]`; shape and
/// target take any value. (The tempo's rule is the transport's.) A NaN lies
/// in no range.
pub open spec fn param_in_range(k: EngineParam, v: u64) -> bool {
    match k {
        EngineParam::Attack => le_spec(ONE_THOUSANDTH, v),
        EngineParam::Decay => le_spec(ONE_THOUSANDTH, v),
        EngineParam::Sustain => le_spec(ZERO, v) && le_spec(v, ONE),
        EngineParam::Release => le_spec(ONE_THOUSANDTH, v),
        EngineParam::Cutoff => le_spec(TWENTY, v) && le_spec(v, TWENTY_THOUSAND),
        EngineParam::Resonance => le_spec(ZERO, v) && le_spec(v, ONE),
        EngineParam::LfoRate => le_spec(ONE_HUNDREDTH, v),
        EngineParam::LfoDepth => le_spec(ZERO, v) && le_spec(v, ONE),
        EngineParam::LfoShape => true,
        EngineParam::LfoTarget => true,
        EngineParam::PortamentoTime => le_spec(ZERO, v),
        EngineParam::Bpm => lt_spec(ZERO, v),
    }
}

/// Setting a synthesis parameter: the value is stored as it is, shape and
/// target chosen by its integer part. (The tempo is the transport's.)
pub open spec fn set_engine_field(s: EngineState, k: EngineParam, v: u64) -> EngineState {
    match k {
        EngineParam::Attack => EngineState { envelope_attack: v, ..s },
        EngineParam::Decay => EngineState { envelope_decay: v, ..s },
        EngineParam::Sustain => EngineState { envelope_sustain: v, ..s },
        EngineParam::Release => EngineState { envelope_release: v, ..s },
        EngineParam::Cutoff => EngineState { filter_cutoff: v, ..s },
        EngineParam::Resonance => EngineState { filter_resonance: v, ..s },
        EngineParam::LfoRate => EngineState { lfo_rate: v, ..s },
        EngineParam::LfoDepth => EngineState { lfo_depth: v, ..s },
        EngineParam::LfoShape => EngineState { lfo_shape: shape_of(v), ..s },
        EngineParam::LfoTarget => EngineState { lfo_target: target_of(v), ..s },
        EngineParam::PortamentoTime => EngineState { portamento_time: v, ..s },
        EngineParam::Bpm => s,
    }
}

/// Text of the refusal of a value outside the range of the parameter `name`.
pub open spec fn out_of_range_message(name: Seq<char>) -> Seq<char> {
    "Value out of range for param: "@ + name
}

/// The response to a command: success, or the code and text of a failure.
pub open spec fn answer(request_id: Seq<char>, failure: Option<(ErrorCode, Seq<char>)>) -> ResponseView {
    match failure {
        None => ResponseView::Okay { request_id },
        Some((code, message)) => ResponseView::Error { request_id, code, message },
    }
}

/// Transport refusals are reported as edits denied.
pub open spec fn transport_failure(r: Result<(), TransportError>) -> Option<(ErrorCode, Seq<char>)> {
    match r {
        Ok(()) => None,
        Err(e) => Some((ErrorCode::EditDeniedPlaying, transport_message(e))),
    }
}

/// Pattern refusals are reported as internal errors.
pub open spec fn pattern_failure<T>(r: Result<T, PatternError>) -> Option<(ErrorCode, Seq<char>)> {
    match r {
        Ok(_) => None,
        Err(e) => Some((ErrorCode::InternalError, pattern_message(e))),
    }
}

/// The text that describes a failed conversion of a sent patch.
pub open spec fn conversion_message(e: PatchErrorView) -> Seq<char> {
    match e {
        PatchErrorView::UnknownModuleKind(s) => "Unknown module kind: '"@ + s + "'"@,
        PatchErrorView::InvalidPortId(s) => "Invalid port id: '"@ + s + "'"@,
        _ => seq![],
    }
}

/// Text of the refusal of a waveform change during playback.
pub open spec fn wavetable_denied_message() -> Seq<char> {
    "Wavetable can only be changed while stopped"@
}

/// Text of the refusal of an empty waveform.
pub open spec fn wavetable_empty_message() -> Seq<char> {
    "Wavetable must hold at least one sample"@
}

/// What a dispatched command asks of the application: a response to send,
/// or an export of the pattern to a WAV file, after which
/// `export_finished` gives the response.
pub enum Outcome {
    Reply(Response),
    Export { request_id: String, path: String },
}

/// An outcome with its texts as character sequences.
pub enum OutcomeView {
    Reply(ResponseView),
    Export { request_id: Seq<char>, path: Seq<char> },
}

impl View for Outcome {
    type V = OutcomeView;

    open spec fn view(&self) -> OutcomeView {
        match self {
            Outcome::Reply(r) => OutcomeView::Reply(r@),
            Outcome::Export { request_id, path } => OutcomeView::Export {
                request_id: request_id@,
                path: path@,
            },
        }
    }
}

/// The response with `request_id` for a failure, if any.
fn respond(request_id: String, failure: Option<(ErrorCode, String)>) -> (r: Response)
    ensures
        r@ == answer(
            request_id@,
            match failure {
                None => None,
                Some((c, m)) => Some((c, m@)),
            },
        ),
{
    match failure {
        None => Response::Okay { request_id },
        Some((code, message)) => Response::Error { request_id, code, message },
    }
}

/// The text of a failed conversion (only unknown kinds and malformed ports
/// occur).
fn describe_conversion(e: &PatchError) -> (r: String)
    requires
        e@ is UnknownModuleKind || e@ is InvalidPortId,
    ensures
        r@ == conversion_message(e@),
{
    match e {
        PatchError::UnknownModuleKind(s) => {
            let head = concat("Unknown module kind: '", s.as_str());
            concat(head.as_str(), "'")
        },
        PatchError::InvalidPortId(s) => {
            let head = concat("Invalid port id: '", s.as_str());
            concat(head.as_str(), "'")
        },
        _ => owned(""),
    }
}

/// The refusal of a value outside the range of the parameter `name`.
fn out_of_range(name: &str) -> (r: (ErrorCode, String))
    ensures
        r.0 == ErrorCode::ParamOutOfRange,
        r.1@ == out_of_range_message(name@),
{
    (ErrorCode::ParamOutOfRange, concat("Value out of range for param: ", name))
}

/// Sets the parameter at `name`; unknown paths are refused as not found, a
/// value outside the parameter's range (a tempo that is not positive among
/// them) as out of range, and a refusal changes nothing.
fn set_param(state: &mut EngineState, name: &str, value: u64) -> (r: Result<(), (ErrorCode, String)>)
    requires
        old(state).wf(),
    ensures
        final(state).wf(),
        match engine_param(name@) {
            None => r matches Err((code, m)) && code == ErrorCode::ParamNotFound && m@
                == "Unknown param: "@ + name@ && *final(state) == *old(state),
            Some(EngineParam::Bpm) => {
                let (t, res) = set_bpm_transport(old(state).transport@, value);
                &&& final(state).transport@ == t
                &&& *final(state) == (EngineState {
                    transport: final(state).transport,
                    ..*old(state)
                })
                &&& match res {
                    Ok(()) => r is Ok,
                    Err(e) => r matches Err((code, m)) && code == ErrorCode::ParamOutOfRange
                        && m@ == transport_message(e),
                }
            },
            Some(k) => if param_in_range(k, value) {
                r is Ok && *final(state) == set_engine_field(*old(state), k, value)
            } else {
                r matches Err((code, m)) && code == ErrorCode::ParamOutOfRange && m@
                    == out_of_range_message(name@) && *final(state) == *old(state)
            },
        },
{
    proof {
        reveal_strlit("transport.bpm");
        reveal_strlit("envelope.attack");
        reveal_strlit("envelope.decay");
        reveal_strlit("envelope.sustain");
        reveal_strlit("envelope.release");
        reveal_strlit("filter.cutoff");
        reveal_strlit("filter.resonance");
        reveal_strlit("lfo.rate");
        reveal_strlit("lfo.depth");
        reveal_strlit("lfo.shape");
        reveal_strlit("lfo.target");
        reveal_strlit("portamento.time");
    }
    if str_eq(name, "transport.bpm") {
        match state.transport.set_bpm(value) {
            Ok(()) => Ok(()),
            Err(e) => Err((ErrorCode::ParamOutOfRange, e.message())),
        }
    } else if str_eq(name, "envelope.attack") {
        if !le(ONE_THOUSANDTH, value) {
            return Err(out_of_range(name));
        }
        state.envelope_attack = value;
        Ok(())
    } else if str_eq(name, "envelope.decay") {
        if !le(ONE_THOUSANDTH, value) {
            return Err(out_of_range(name));
        }
        state.envelope_decay = value;
        Ok(())
    } else if str_eq(name, "envelope.sustain") {
        if !(le(ZERO, value) && le(value, ONE)) {
            return Err(out_of_range(name));
        }
        state.envelope_sustain = value;
        Ok(())
    } else if str_eq(name, "envelope.release") {
        if !le(ONE_THOUSANDTH, value) {
            return Err(out_of_range(name));
        }
        state.envelope_release = value;
        Ok(())
    } else if str_eq(name, "filter.cutoff") {
        if !(le(TWENTY, value) && le(value, TWENTY_THOUSAND)) {
            return Err(out_of_range(name));
        }
        state.filter_cutoff = value;
        Ok(())
    } else if str_eq(name, "filter.resonance") {
        if !(le(ZERO, value) && le(value, ONE)) {
            return Err(out_of_range(name));
        }
        state.filter_resonance = value;
        Ok(())
    } else if str_eq(name, "lfo.rate") {
        if !le(ONE_HUNDREDTH, value) {
            return Err(out_of_range(name));
        }
        state.lfo_rate = value;
        Ok(())
    } else if str_eq(name, "lfo.depth") {
        if !(le(ZERO, value) && le(value, ONE)) {
            return Err(out_of_range(name));
        }
        state.lfo_depth = value;
        Ok(())
    } else if str_eq(name, "lfo.shape") {
        state.lfo_shape = LfoShape::from_f64(value);
        Ok(())
    } else if str_eq(name, "lfo.target") {
        state.lfo_target = LfoTarget::from_f64(value);
        Ok(())
    } else if str_eq(name, "portamento.time") {
        if !le(ZERO, value) {
            return Err(out_of_range(name));
        }
        state.portamento_time = value;
        Ok(())
    } else {
        Err((ErrorCode::ParamNotFound, concat("Unknown param: ", name)))
    }
}

/// The failure, if any, that `SetParam` reports.
pub open spec fn set_param_failure(s: EngineState, name: Seq<char>, v: u64) -> Option<
    (ErrorCode, Seq<char>),
> {
    match engine_param(name) {
        None => Some((ErrorCode::ParamNotFound, "Unknown param: "@ + name)),
        Some(EngineParam::Bpm) => match set_bpm_transport(s.transport@, v).1 {
            Ok(()) => None,
            Err(e) => Some((ErrorCode::ParamOutOfRange, transport_message(e))),
        },
        Some(k) => if param_in_range(k, v) {
            None
        } else {
            Some((ErrorCode::ParamOutOfRange, out_of_range_message(name)))
        },
    }
}

/// The effect of a command on the state and its answer, for each command
/// (the state being well-formed and, for `AddNote`, the note counter below
/// its maximum).
pub open spec fn dispatched(old: EngineState, new: EngineState, cmd: Command, out: OutcomeView) -> bool {
    match cmd {
        Command::Play { request_id } => {
            let (t, res) = play_transport(old.transport@);
            &&& new.transport@ == t
            &&& new == (EngineState { transport: new.transport, ..old })
            &&& out == OutcomeView::Reply(answer(request_id@, transport_failure(res)))
        },
        Command::Stop { request_id } => {
            let (t, res) = stop_transport(old.transport@);
            &&& new.transport@ == t
            &&& new == (EngineState { transport: new.transport, ..old })
            &&& out == OutcomeView::Reply(answer(request_id@, transport_failure(res)))
        },
        Command::SetParam { request_id, name, value } => {
            &&& match engine_param(name@) {
                Some(EngineParam::Bpm) => {
                    &&& new.transport@ == set_bpm_transport(old.transport@, value).0
                    &&& new == (EngineState { transport: new.transport, ..old })
                },
                Some(k) => if param_in_range(k, value) {
                    new == set_engine_field(old, k, value)
                } else {
                    new == old
                },
                None => new == old,
            }
            &&& out == OutcomeView::Reply(
                answer(request_id@, set_param_failure(old, name@, value)),
            )
        },
        Command::AddNote { request_id, note } => {
            let (p, res) = add_note_spec(
                old.pattern@,
                note.pitch,
                note.start,
                note.length,
                note.velocity,
            );
            &&& new.pattern@ == p
            &&& new == (EngineState { pattern: new.pattern, ..old })
            &&& out == OutcomeView::Reply(answer(request_id@, pattern_failure(res)))
        },
        Command::MoveNote { request_id, id, pitch, start } => {
            let (p, res) = move_note_spec(old.pattern@, id@, pitch, start);
            &&& new.pattern@ == p
            &&& new == (EngineState { pattern: new.pattern, ..old })
            &&& out == OutcomeView::Reply(answer(request_id@, pattern_failure(res)))
        },
        Command::ResizeNote { request_id, length, id } => {
            let (p, res) = resize_note_spec(old.pattern@, id@, length);
            &&& new.pattern@ == p
            &&& new == (EngineState { pattern: new.pattern, ..old })
            &&& out == OutcomeView::Reply(answer(request_id@, pattern_failure(res)))
        },
        Command::DeleteNote { request_id, id } => {
            let (p, res) = delete_note_spec(old.pattern@, id@);
            &&& new.pattern@ == p
            &&& new == (EngineState { pattern: new.pattern, ..old })
            &&& out == OutcomeView::Reply(answer(request_id@, pattern_failure(res)))
        },
        Command::PatchReplace { request_id, patch } => match patch_from_ipc(patch@) {
            Err(e) => {
                &&& new == old
                &&& out == OutcomeView::Reply(
                    answer(request_id@, Some((ErrorCode::PatchInvalid, conversion_message(e)))),
                )
            },
            Ok(pv) => match validation(pv) {
                Err(ve) => {
                    &&& new == old
                    &&& out == OutcomeView::Reply(
                        answer(
                            request_id@,
                            Some((ErrorCode::PatchInvalid, validation_message(ve))),
                        ),
                    )
                },
                Ok(()) => {
                    &&& new.patch matches Some(np) && np@ == pv
                    &&& new == (EngineState { patch: new.patch, ..old })
                    &&& out == OutcomeView::Reply(answer(request_id@, None))
                },
            },
        },
        Command::PatchValidate { request_id } => {
            &&& new == old
            &&& out == OutcomeView::Reply(
                answer(
                    request_id@,
                    match old.patch {
                        None => None,
                        Some(p) => match validation(p@) {
                            Ok(()) => None,
                            Err(ve) => Some((ErrorCode::PatchInvalid, validation_message(ve))),
                        },
                    },
                ),
            )
        },
        Command::WavetableSet { request_id, table, .. } => if old.transport@.state
            == TransportState::Playing {
            &&& new == old
            &&& out == OutcomeView::Reply(
                answer(
                    request_id@,
                    Some((ErrorCode::EditDeniedPlaying, wavetable_denied_message())),
                ),
            )
        } else if table@.len() == 0 {
            &&& new == old
            &&& out == OutcomeView::Reply(
                answer(request_id@, Some((ErrorCode::InvalidMessage, wavetable_empty_message()))),
            )
        } else {
            &&& new.wavetable@ == table@
            &&& new == (EngineState { wavetable: new.wavetable, ..old })
            &&& out == OutcomeView::Reply(answer(request_id@, None))
        },
        Command::LoopToggle { request_id, enabled } => {
            &&& new == (EngineState { loop_enabled: enabled, ..old })
            &&& out == OutcomeView::Reply(answer(request_id@, None))
        },
        Command::ExportWav { request_id, path } => {
            &&& new == old
            &&& out == OutcomeView::Export { request_id: request_id@, path: path@ }
        },
    }
}

/// The synthesis parameters that have ranges lie within them: sustain,
/// resonance and depth in `[0, 1]`, cutoff in `[20, 20000]`, and the times
/// and the rate at or above their minimum.
pub open spec fn params_bounded(s: EngineState) -> bool {
    &&& le_spec(ZERO, s.envelope_sustain) && le_spec(s.envelope_sustain, ONE)
    &&& le_spec(ZERO, s.filter_resonance) && le_spec(s.filter_resonance, ONE)
    &&& le_spec(ZERO, s.lfo_depth) && le_spec(s.lfo_depth, ONE)
    &&& le_spec(TWENTY, s.filter_cutoff) && le_spec(s.filter_cutoff, TWENTY_THOUSAND)
    &&& le_spec(ONE_THOUSANDTH, s.envelope_attack)
    &&& le_spec(ONE_THOUSANDTH, s.envelope_decay)
    &&& le_spec(ONE_THOUSANDTH, s.envelope_release)
    &&& le_spec(ONE_HUNDREDTH, s.lfo_rate)
    &&& le_spec(ZERO, s.portamento_time)
}

/// The initial parameters lie within their ranges.
pub proof fn lemma_initial_params_bounded(s: EngineState)
    requires
        s.envelope_attack == ONE_HUNDREDTH,
        s.envelope_decay == ONE_TENTH,
        s.envelope_sustain == SEVEN_TENTHS,
        s.envelope_release == THREE_TENTHS,
        s.filter_cutoff == ONE_THOUSAND,
        s.filter_resonance == ONE_HALF,
        s.lfo_rate == ONE,
        s.lfo_depth == ONE_HALF,
        s.portamento_time == ZERO,
    ensures
        params_bounded(s),
{
}

/// Setting a parameter to a value within its range keeps the parameters
/// within their ranges.
pub proof fn lemma_set_param_keeps_bounds(s: EngineState, k: EngineParam, v: u64)
    requires
        params_bounded(s),
        param_in_range(k, v),
    ensures
        params_bounded(set_engine_field(s, k, v)),
{
}

/// The request id a command carries.
pub open spec fn request_id_of(cmd: Command) -> Seq<char> {
    crate::ipc::server::command_request_id(cmd)
}

/// The request id an outcome answers.
pub open spec fn outcome_request_id(out: OutcomeView) -> Seq<char> {
    match out {
        OutcomeView::Reply(ResponseView::Okay { request_id }) => request_id,
        OutcomeView::Reply(ResponseView::Error { request_id, .. }) => request_id,
        OutcomeView::Export { request_id, .. } => request_id,
    }
}

/// Every command is answered under its own request id.
pub proof fn lemma_dispatch_keeps_request_id(
    old: EngineState,
    new: EngineState,
    cmd: Command,
    out: OutcomeView,
)
    requires
        dispatched(old, new, cmd, out),
    ensures
        outcome_request_id(out) == request_id_of(cmd),
{
}

/// `SetParam` on a state whose parameters lie in their ranges and whose
/// tempo is positive: the parameters stay in their ranges and the tempo
/// positive; the command succeeds exactly when the path names a parameter
/// and the value lies in that parameter's range; a refused command changes
/// nothing.
pub proof fn lemma_set_param_command(
    old: EngineState,
    new: EngineState,
    request_id: String,
    name: String,
    value: u64,
    out: OutcomeView,
)
    requires
        params_bounded(old),
        old.transport.wf(),
        dispatched(old, new, (Command::SetParam { request_id, name, value }), out),
    ensures
        params_bounded(new),
        new.transport.wf(),
        out is Reply,
        (out matches OutcomeView::Reply(ResponseView::Okay { .. })) <==> (engine_param(name@) matches Some(
            k,
        ) && param_in_range(k, value)),
        !(out matches OutcomeView::Reply(ResponseView::Okay { .. })) ==> new == old,
{
    match engine_param(name@) {
        Some(EngineParam::Bpm) => {
            if !lt_spec(ZERO, value) {
                lemma_transport_view_injective(new.transport, old.transport);
            }
        },
        Some(k) => {
            if param_in_range(k, value) {
                lemma_set_param_keeps_bounds(old, k, value);
            }
        },
        None => {},
    }
}

/// Whether an outcome is a success.
pub open spec fn accepted(out: OutcomeView) -> bool {
    out matches OutcomeView::Reply(ResponseView::Okay { .. })
}

/// The paths of the parameters that `SetParam` reaches.
pub proof fn lemma_engine_param_paths()
    ensures
        engine_param("transport.bpm"@) == Some(EngineParam::Bpm),
        engine_param("envelope.attack"@) == Some(EngineParam::Attack),
        engine_param("envelope.decay"@) == Some(EngineParam::Decay),
        engine_param("envelope.sustain"@) == Some(EngineParam::Sustain),
        engine_param("envelope.release"@) == Some(EngineParam::Release),
        engine_param("filter.cutoff"@) == Some(EngineParam::Cutoff),
        engine_param("filter.resonance"@) == Some(EngineParam::Resonance),
        engine_param("lfo.rate"@) == Some(EngineParam::LfoRate),
        engine_param("lfo.depth"@) == Some(EngineParam::LfoDepth),
        engine_param("lfo.shape"@) == Some(EngineParam::LfoShape),
        engine_param("lfo.target"@) == Some(EngineParam::LfoTarget),
        engine_param("portamento.time"@) == Some(EngineParam::PortamentoTime),
{
    reveal_strlit("transport.bpm");
    reveal_strlit("envelope.attack");
    reveal_strlit("envelope.decay");
    reveal_strlit("envelope.sustain");
    reveal_strlit("envelope.release");
    reveal_strlit("filter.cutoff");
    reveal_strlit("filter.resonance");
    reveal_strlit("lfo.rate");
    reveal_strlit("lfo.depth");
    reveal_strlit("lfo.shape");
    reveal_strlit("lfo.target");
    reveal_strlit("portamento.time");
    assert("transport.bpm"@.len() == 13);
    assert("envelope.attack"@.len() == 15);
    assert("envelope.decay"@.len() == 14);
    assert("envelope.sustain"@.len() == 16);
    assert("envelope.release"@.len() == 16);
    assert("filter.cutoff"@.len() == 13);
    assert("filter.resonance"@.len() == 16);
    assert("lfo.rate"@.len() == 8);
    assert("lfo.depth"@.len() == 9);
    assert("lfo.shape"@.len() == 9);
    assert("lfo.target"@.len() == 10);
    assert("portamento.time"@.len() == 15);
    assert("transport.bpm"@[0] != "filter.cutoff"@[0]);
    assert("envelope.attack"@[0] != "portamento.time"@[0]);
    assert("envelope.sustain"@[9] != "envelope.release"@[9]);
    assert("envelope.sustain"@[0] != "filter.resonance"@[0]);
    assert("envelope.release"@[0] != "filter.resonance"@[0]);
    assert("lfo.depth"@[4] != "lfo.shape"@[4]);
}

/// `SetParam`, parameter by parameter: a value inside the parameter's range
/// is accepted and stored as it is, every other field unchanged; any other
/// value is refused as out of range and changes nothing. The ranges are
/// sustain, resonance and depth in `[0, 1]`, the cutoff in `[20, 20000]`,
/// attack, decay and release at least `0.001`, the rate at least `0.01`, the
/// portamento time at least `0`, the tempo above `0`; shape and target take
/// any value. A path that names no parameter is refused as not found.
pub proof fn lemma_set_param_ranges(
    old: EngineState,
    new: EngineState,
    request_id: String,
    name: String,
    value: u64,
    out: OutcomeView,
)
    requires
        dispatched(old, new, (Command::SetParam { request_id, name, value }), out),
    ensures
        !accepted(out) ==> (out matches OutcomeView::Reply(ResponseView::Error { code, .. }) && (
        code == ErrorCode::ParamOutOfRange || code == ErrorCode::ParamNotFound)),
        !accepted(out) && !(engine_param(name@) == Some(EngineParam::Bpm)) ==> new == old,
        engine_param(name@) == Some(EngineParam::Attack) ==> (accepted(out) <==> le_spec(ONE_THOUSANDTH, value)) && (
            accepted(out) ==> new == (EngineState { envelope_attack: value, ..old })),
        engine_param(name@) == Some(EngineParam::Decay) ==> (accepted(out) <==> le_spec(ONE_THOUSANDTH, value)) && (
            accepted(out) ==> new == (EngineState { envelope_decay: value, ..old })),
        engine_param(name@) == Some(EngineParam::Sustain) ==> (accepted(out) <==> le_spec(ZERO, value) && le_spec(value, ONE)) && (
            accepted(out) ==> new == (EngineState { envelope_sustain: value, ..old })),
        engine_param(name@) == Some(EngineParam::Release) ==> (accepted(out) <==> le_spec(ONE_THOUSANDTH, value)) && (
            accepted(out) ==> new == (EngineState { envelope_release: value, ..old })),
        engine_param(name@) == Some(EngineParam::Cutoff) ==> (accepted(out) <==> le_spec(TWENTY, value) && le_spec(value, TWENTY_THOUSAND)) && (
            accepted(out) ==> new == (EngineState { filter_cutoff: value, ..old })),
        engine_param(name@) == Some(EngineParam::Resonance) ==> (accepted(out) <==> le_spec(ZERO, value) && le_spec(value, ONE)) && (
            accepted(out) ==> new == (EngineState { filter_resonance: value, ..old })),
        engine_param(name@) == Some(EngineParam::LfoRate) ==> (accepted(out) <==> le_spec(ONE_HUNDREDTH, value)) && (
            accepted(out) ==> new == (EngineState { lfo_rate: value, ..old })),
        engine_param(name@) == Some(EngineParam::LfoDepth) ==> (accepted(out) <==> le_spec(ZERO, value) && le_spec(value, ONE)) && (
            accepted(out) ==> new == (EngineState { lfo_depth: value, ..old })),
        engine_param(name@) == Some(EngineParam::PortamentoTime) ==> (accepted(out) <==> le_spec(ZERO, value)) && (
            accepted(out) ==> new == (EngineState { portamento_time: value, ..old })),
        engine_param(name@) == Some(EngineParam::LfoShape) ==> accepted(out) && new == (
        EngineState { lfo_shape: new.lfo_shape, ..old }),
        engine_param(name@) == Some(EngineParam::LfoTarget) ==> accepted(out) && new == (
        EngineState { lfo_target: new.lfo_target, ..old }),
        engine_param(name@) == Some(EngineParam::Bpm) ==> (accepted(out) <==> lt_spec(ZERO, value))
            && new.transport@ == (if lt_spec(ZERO, value) {
            TransportView { bpm: value, ..old.transport@ }
        } else {
            old.transport@
        }) && new == (EngineState { transport: new.transport, ..old }),
        engine_param(name@) is None ==> (out matches OutcomeView::Reply(
            ResponseView::Error { code, .. },
        ) && code == ErrorCode::ParamNotFound && new == old),
{
}

/// Applies a command to the engine state and tells what to answer, or that
/// the pattern is to be exported (see `export_finished`).
pub fn dispatch(state: &mut EngineState, cmd: Command) -> (r: Outcome)
    requires
        old(state).wf(),
        cmd is AddNote ==> old(state).pattern@.next_note_id < u64::MAX,
    ensures
        final(state).wf(),
        dispatched(*old(state), *final(state), cmd, r@),
        outcome_request_id(r@) == request_id_of(cmd),
{
    match cmd {
        Command::Play { request_id } => {
            let failure = match state.transport.play() {
                Ok(()) => None,
                Err(e) => Some((ErrorCode::EditDeniedPlaying, e.message())),
            };
            Outcome::Reply(respond(request_id, failure))
        },
        Command::Stop { request_id } => {
            let failure = match state.transport.stop() {
                Ok(()) => None,
                Err(e) => Some((ErrorCode::EditDeniedPlaying, e.message())),
            };
            Outcome::Reply(respond(request_id, failure))
        },
        Command::SetParam { request_id, name, value } => {
            let failure = match set_param(state, name.as_str(), value) {
                Ok(()) => None,
                Err((code, message)) => Some((code, message)),
            };
            Outcome::Reply(respond(request_id, failure))
        },
        Command::AddNote { request_id, note } => {
            let failure = match state.pattern.add_note(
                note.pitch,
                note.start,
                note.length,
                note.velocity,
            ) {
                Ok(_) => None,
                Err(e) => Some((ErrorCode::InternalError, e.message())),
            };
            Outcome::Reply(respond(request_id, failure))
        },
        Command::MoveNote { request_id, id, pitch, start } => {
            let failure = match state.pattern.move_note_by_str(id.as_str(), pitch, start) {
                Ok(()) => None,
                Err(e) => Some((ErrorCode::InternalError, e.message())),
            };
            Outcome::Reply(respond(request_id, failure))
        },
        Command::ResizeNote { request_id, id, length } => {
            let failure = match state.pattern.resize_note_by_str(id.as_str(), length) {
                Ok(()) => None,
                Err(e) => Some((ErrorCode::InternalError, e.message())),
            };
            Outcome::Reply(respond(request_id, failure))
        },
        Command::DeleteNote { request_id, id } => {
            let failure = match state.pattern.delete_note_by_str(id.as_str()) {
                Ok(()) => None,
                Err(e) => Some((ErrorCode::InternalError, e.message())),
            };
            Outcome::Reply(respond(request_id, failure))
        },
        Command::PatchReplace { request_id, patch } => {
            proof {
                lemma_patch_from_ipc_errors(patch@);
            }
            let failure = match Patch::from_ipc(&patch) {
                Err(e) => Some((ErrorCode::PatchInvalid, describe_conversion(&e))),
                Ok(p) => match PatchValidator::validate(&p) {
                    Err(ve) => Some((ErrorCode::PatchInvalid, ve.message())),
                    Ok(()) => {
                        state.patch = Some(p);
                        None
                    },
                },
            };
            Outcome::Reply(respond(request_id, failure))
        },
        Command::PatchValidate { request_id } => {
            let failure = match &state.patch {
                None => None,
                Some(p) => match PatchValidator::validate(p) {
                    Ok(()) => None,
                    Err(ve) => Some((ErrorCode::PatchInvalid, ve.message())),
                },
            };
            Outcome::Reply(respond(request_id, failure))
        },
        Command::WavetableSet { request_id, table, .. } => {
            let failure = if state.transport.is_playing() {
                Some(
                    (
                        ErrorCode::EditDeniedPlaying,
                        owned("Wavetable can only be changed while stopped"),
                    ),
                )
            } else if table.len() == 0 {
                Some((ErrorCode::InvalidMessage, owned("Wavetable must hold at least one sample")))
            } else {
                state.wavetable = Wavetable::from_samples(table);
                None
            };
            Outcome::Reply(respond(request_id, failure))
        },
        Command::LoopToggle { request_id, enabled } => {
            state.loop_enabled = enabled;
            Outcome::Reply(Response::Okay { request_id })
        },
        Command::ExportWav { request_id, path } => Outcome::Export { request_id, path },
    }
}

/// The response to an export, given how writing the file went.
pub fn export_finished(request_id: String, result: Result<(), String>) -> (r: Response)
    ensures
        r@ == answer(
            request_id@,
            match result {
                Ok(()) => None,
                Err(m) => Some((ErrorCode::ExportFailed, m@)),
            },
        ),
{
    match result {
        Ok(()) => Response::Okay { request_id },
        Err(message) => Response::Error { request_id, code: ErrorCode::ExportFailed, message },
    }
}

} // verus!
