//! The transport: whether the sequence plays, its tempo and its position.
use vstd::prelude::*;

use crate::binary64::{lt, lt_spec, ONE_HUNDRED_TWENTY, ZERO};

verus! {

#[derive(PartialEq, Eq, Clone, Copy, Debug, Structural)]
pub enum TransportState {
    Stopped,
    Playing,
}

/// Starting playback: refused when already playing.
pub open spec fn play_state(s: TransportState) -> (TransportState, Result<(), TransportError>) {
    match s {
        TransportState::Playing => (s, Err(TransportError::AlreadyPlaying)),
        TransportState::Stopped => (TransportState::Playing, Ok(())),
    }
}

/// Stopping playback: refused when already stopped.
pub open spec fn stop_state(s: TransportState) -> (TransportState, Result<(), TransportError>) {
    match s {
        TransportState::Stopped => (s, Err(TransportError::AlreadyStopped)),
        TransportState::Playing => (TransportState::Stopped, Ok(())),
    }
}

impl TransportState {
    pub fn play(&mut self) -> (r: Result<(), TransportError>)
        ensures
            (*final(self), r) == play_state(*old(self)),
    {
        if self.is_playing() {
            Err(TransportError::AlreadyPlaying)
        } else {
            *self = TransportState::Playing;
            Ok(())
        }
    }

    pub fn stop(&mut self) -> (r: Result<(), TransportError>)
        ensures
            (*final(self), r) == stop_state(*old(self)),
    {
        if self.is_stopped() {
            Err(TransportError::AlreadyStopped)
        } else {
            *self = TransportState::Stopped;
            Ok(())
        }
    }

    pub fn is_playing(&self) -> (r: bool)
        ensures
            r == (*self == TransportState::Playing),
    {
        *self == TransportState::Playing
    }

    pub fn is_stopped(&self) -> (r: bool)
        ensures
            r == (*self == TransportState::Stopped),
    {
        *self == TransportState::Stopped
    }
}

/// A tempo in beats per minute (a binary64 bit pattern), always positive.
#[derive(Clone, Copy, Debug, PartialEq)]
pub struct Bpm(u64);

impl View for Bpm {
    type V = u64;

    closed spec fn view(&self) -> u64 {
        self.0
    }
}

impl Bpm {
    /// A tempo, refused unless positive.
    pub fn new(b: u64) -> (r: Result<Self, TransportError>)
        ensures
            lt_spec(ZERO, b) ==> (r matches Ok(x) && x@ == b),
            !lt_spec(ZERO, b) ==> r == Err::<Bpm, TransportError>(TransportError::InvalidBpm),
    {
        if lt(ZERO, b) {
            Ok(Self(b))
        } else {
            Err(TransportError::InvalidBpm)
        }
    }

    pub fn value(&self) -> (r: u64)
        ensures
            r == self@,
    {
        self.0
    }
}

/// The transport: its play state, tempo and position (binary64 patterns).
pub struct TransportView {
    pub state: TransportState,
    pub bpm: u64,
    pub position: u64,
}

/// Stopping the transport also rewinds it.
pub open spec fn stop_transport(t: TransportView) -> (TransportView, Result<(), TransportError>) {
    let (s, r) = stop_state(t.state);
    match r {
        Ok(()) => (TransportView { state: s, position: ZERO, ..t }, r),
        Err(_) => (t, r),
    }
}

/// Starting the transport.
pub open spec fn play_transport(t: TransportView) -> (TransportView, Result<(), TransportError>) {
    let (s, r) = play_state(t.state);
    (TransportView { state: s, ..t }, r)
}

/// Changing the tempo: refused unless positive.
pub open spec fn set_bpm_transport(t: TransportView, b: u64) -> (
    TransportView,
    Result<(), TransportError>,
) {
    if lt_spec(ZERO, b) {
        (TransportView { bpm: b, ..t }, Ok(()))
    } else {
        (t, Err(TransportError::InvalidBpm))
    }
}

#[derive(Debug)]
pub struct Transport {
    state: TransportState,
    bpm: Bpm,
    position: u64,
}

impl View for Transport {
    type V = TransportView;

    closed spec fn view(&self) -> TransportView {
        TransportView { state: self.state, bpm: self.bpm@, position: self.position }
    }
}

/// A transport is determined by its view.
pub proof fn lemma_transport_view_injective(a: Transport, b: Transport)
    requires
        a@ == b@,
    ensures
        a == b,
{
    assert(a.bpm == b.bpm);
}

impl Transport {
    /// Whether the tempo is positive, as every transport keeps it.
    pub open spec fn wf(&self) -> bool {
        lt_spec(ZERO, self@.bpm)
    }

    /// A stopped transport at position zero, at 120 beats per minute.
    pub fn new() -> (r: Self)
        ensures
            r@ == (TransportView {
                state: TransportState::Stopped,
                bpm: ONE_HUNDRED_TWENTY,
                position: ZERO,
            }),
            r.wf(),
    {
        Transport { state: TransportState::Stopped, bpm: Bpm(ONE_HUNDRED_TWENTY), position: ZERO }
    }

    pub fn play(&mut self) -> (r: Result<(), TransportError>)
        requires
            old(self).wf(),
        ensures
            final(self).wf(),
            (final(self)@, r) == play_transport(old(self)@),
    {
        self.state.play()
    }

    /// Stops playback and rewinds to the start.
    pub fn stop(&mut self) -> (r: Result<(), TransportError>)
        requires
            old(self).wf(),
        ensures
            final(self).wf(),
            (final(self)@, r) == stop_transport(old(self)@),
    {
        match self.state.stop() {
            Ok(()) => {},
            Err(e) => return Err(e),
        }
        self.reset_position();
        Ok(())
    }

    pub fn set_bpm(&mut self, bpm: u64) -> (r: Result<(), TransportError>)
        requires
            old(self).wf(),
        ensures
            final(self).wf(),
            (final(self)@, r) == set_bpm_transport(old(self)@, bpm),
    {
        self.bpm = match Bpm::new(bpm) {
            Ok(b) => b,
            Err(e) => return Err(e),
        };
        Ok(())
    }

    pub fn is_playing(&self) -> (r: bool)
        ensures
            r == (self@.state == TransportState::Playing),
    {
        self.state.is_playing()
    }

    pub fn is_stopped(&self) -> (r: bool)
        ensures
            r == (self@.state == TransportState::Stopped),
    {
        self.state.is_stopped()
    }

    pub fn reset_position(&mut self)
        ensures
            final(self)@ == (TransportView { position: ZERO, ..old(self)@ }),
    {
        self.position = ZERO;
    }

    pub fn bpm(&self) -> (r: u64)
        ensures
            r == self@.bpm,
    {
        self.bpm.value()
    }

    pub fn position(&self) -> (r: u64)
        ensures
            r == self@.position,
    {
        self.position
    }
}

/// Starting and then stopping a stopped transport brings it back to where it
/// was, rewound to the start.
pub proof fn lemma_play_then_stop(t: TransportView)
    requires
        t.state == TransportState::Stopped,
    ensures
        play_transport(t).1 is Ok,
        stop_transport(play_transport(t).0).1 is Ok,
        stop_transport(play_transport(t).0).0 == (TransportView { position: ZERO, ..t }),
{
}

/// The transport's rules for every state: starting succeeds exactly when
/// stopped and then plays from where it was; stopping succeeds exactly when
/// playing and then rewinds to zero; a tempo is accepted exactly when above
/// zero, with no upper limit, and is then stored as given; a refusal changes
/// nothing; the tempo only changes by setting it.
pub proof fn lemma_transport_rules(t: TransportView, b: u64)
    ensures
        play_transport(t).1 is Ok <==> t.state == TransportState::Stopped,
        play_transport(t).0 == (if t.state == TransportState::Stopped {
            TransportView { state: TransportState::Playing, ..t }
        } else {
            t
        }),
        stop_transport(t).1 is Ok <==> t.state == TransportState::Playing,
        stop_transport(t).0 == (if t.state == TransportState::Playing {
            TransportView { state: TransportState::Stopped, position: ZERO, ..t }
        } else {
            t
        }),
        set_bpm_transport(t, b).1 is Ok <==> lt_spec(ZERO, b),
        set_bpm_transport(t, b).0 == (if lt_spec(ZERO, b) {
            TransportView { bpm: b, ..t }
        } else {
            t
        }),
{
}

/// A second start is refused and changes nothing; so is a second stop.
pub proof fn lemma_repeat_refused(t: TransportView)
    ensures
        play_transport(t).1 is Ok ==> play_transport(play_transport(t).0) == (
            play_transport(t).0,
            Err::<(), TransportError>(TransportError::AlreadyPlaying),
        ),
        stop_transport(t).1 is Ok ==> stop_transport(stop_transport(t).0) == (
            stop_transport(t).0,
            Err::<(), TransportError>(TransportError::AlreadyStopped),
        ),
{
}

#[derive(Debug, Clone, PartialEq, Eq)]
pub enum TransportError {
    AlreadyPlaying,
    AlreadyStopped,
    InvalidBpm,
}

/// The text that describes a transport error.
pub open spec fn transport_message(e: TransportError) -> Seq<char> {
    match e {
        TransportError::AlreadyPlaying => "Transport is already playing"@,
        TransportError::AlreadyStopped => "Transport is already stopped"@,
        TransportError::InvalidBpm => "BPM must be greater than 0"@,
    }
}

impl TransportError {
    /// The text that describes the error (what `to_string` gives).
    pub fn message(&self) -> (r: String)
        ensures
            r@ == transport_message(*self),
    {
        match self {
            TransportError::AlreadyPlaying => crate::text::owned("Transport is already playing"),
            TransportError::AlreadyStopped => crate::text::owned("Transport is already stopped"),
            TransportError::InvalidBpm => crate::text::owned("BPM must be greater than 0"),
        }
    }
}

} // verus!
