use mase::domain::sequencing::pattern::{
    Length, NoteEventError, Pattern, PatternError, Pitch, Start, Velocity,
};
use mase::domain::sequencing::transport::{
    Bpm, Transport, TransportError, TransportState,
};

fn bits(x: f64) -> u64 {
    x.to_bits()
}

#[test]
fn value_objects_check_their_rules() {
    assert_eq!(Pitch::new(127).unwrap().value(), 127);
    assert!(matches!(Pitch::new(128), Err(NoteEventError::InvalidPitch)));
    assert_eq!(Velocity::new(bits(1.0)).unwrap().value(), bits(1.0));
    assert!(Velocity::new(bits(0.0)).is_ok());
    assert!(matches!(Velocity::new(bits(1.01)), Err(NoteEventError::InvalidVelocity)));
    assert!(matches!(Velocity::new(bits(f64::NAN)), Err(NoteEventError::InvalidVelocity)));
    assert!(Start::new(bits(0.0)).is_ok());
    assert!(Start::new(bits(-0.0)).is_ok());
    assert!(matches!(Start::new(bits(-0.5)), Err(NoteEventError::InvalidStart)));
    assert!(matches!(Length::new(bits(0.0)), Err(NoteEventError::InvalidLength)));
    assert_eq!(f64::from_bits(Length::new(bits(0.25)).unwrap().value()), 0.25);
}

#[test]
fn add_note_hands_out_counter_ids() {
    let mut p = Pattern::new();
    let a = p.add_note(60, bits(0.0), bits(1.0), bits(0.8)).unwrap();
    let b = p.add_note(62, bits(1.0), bits(1.0), bits(0.8)).unwrap();
    assert_eq!(a.as_str(), "0");
    assert_eq!(b.as_str(), "1");
    assert_eq!(p.notes().len(), 2);
    assert_eq!(p.notes()[1].id(), "1");
    assert_eq!(p.notes()[1].pitch(), 62);
    assert_eq!(f64::from_bits(p.notes()[1].start()), 1.0);
    assert_eq!(f64::from_bits(p.notes()[1].length()), 1.0);
    assert_eq!(f64::from_bits(p.notes()[1].velocity()), 0.8);
}

#[test]
fn refused_note_still_consumes_an_id() {
    let mut p = Pattern::new();
    assert!(matches!(p.add_note(200, bits(0.0), bits(1.0), bits(0.5)), Err(PatternError::InvalidPitch)));
    assert!(matches!(p.add_note(60, bits(-1.0), bits(1.0), bits(0.5)), Err(PatternError::InvalidStart)));
    assert!(matches!(p.add_note(60, bits(0.0), bits(0.0), bits(0.5)), Err(PatternError::InvalidLength)));
    assert!(matches!(p.add_note(60, bits(0.0), bits(1.0), bits(2.0)), Err(PatternError::InvalidVelocity)));
    // Pitch is checked before the others.
    assert!(matches!(p.add_note(200, bits(-1.0), bits(0.0), bits(2.0)), Err(PatternError::InvalidPitch)));
    assert_eq!(p.notes().len(), 0);
    let id = p.add_note(60, bits(0.0), bits(1.0), bits(0.5)).unwrap();
    assert_eq!(id.as_str(), "5");
}

#[test]
fn ids_count_up_in_decimal() {
    let mut p = Pattern::new();
    let mut last = String::new();
    for _ in 0..12 {
        last = p.add_note(60, bits(0.0), bits(1.0), bits(0.5)).unwrap().as_str().to_string();
    }
    assert_eq!(last, "11");
    let ids: Vec<&str> = p.notes().iter().map(|n| n.id()).collect();
    assert_eq!(ids[10], "10");
}

#[test]
fn move_resize_delete_by_id() {
    let mut p = Pattern::new();
    let a = p.add_note(60, bits(0.0), bits(1.0), bits(0.8)).unwrap();
    let b = p.add_note(64, bits(2.0), bits(1.0), bits(0.8)).unwrap();
    p.move_note(&b, 65, bits(3.0)).unwrap();
    assert_eq!(p.notes()[1].pitch(), 65);
    assert_eq!(f64::from_bits(p.notes()[1].start()), 3.0);
    p.resize_note(&a, bits(0.5)).unwrap();
    assert_eq!(f64::from_bits(p.notes()[0].length()), 0.5);
    p.delete_note(&a).unwrap();
    assert_eq!(p.notes().len(), 1);
    assert_eq!(p.notes()[0].id(), "1");
    assert!(matches!(p.delete_note(&a), Err(PatternError::NoteNotFound)));
    assert!(matches!(p.resize_note(&a, bits(1.0)), Err(PatternError::NoteNotFound)));
    assert!(matches!(p.move_note_by_str("nope", 60, bits(0.0)), Err(PatternError::NoteNotFound)));
}

#[test]
fn refused_move_keeps_the_new_pitch() {
    let mut p = Pattern::new();
    p.add_note(60, bits(0.0), bits(1.0), bits(0.8)).unwrap();
    assert!(matches!(p.move_note_by_str("0", 61, bits(-2.0)), Err(PatternError::InvalidStart)));
    assert_eq!(p.notes()[0].pitch(), 61);
    assert_eq!(f64::from_bits(p.notes()[0].start()), 0.0);
    assert!(matches!(p.move_note_by_str("0", 130, bits(1.0)), Err(PatternError::InvalidPitch)));
    assert_eq!(p.notes()[0].pitch(), 61);
    assert!(matches!(p.resize_note_by_str("0", bits(-1.0)), Err(PatternError::InvalidLength)));
    assert_eq!(f64::from_bits(p.notes()[0].length()), 1.0);
}

#[test]
fn add_then_delete_restores_notes() {
    let mut p = Pattern::new();
    p.add_note(60, bits(0.0), bits(1.0), bits(0.8)).unwrap();
    let before: Vec<String> = p.notes().iter().map(|n| n.id().to_string()).collect();
    let id = p.add_note(70, bits(1.0), bits(2.0), bits(0.3)).unwrap();
    p.delete_note_by_str(id.as_str()).unwrap();
    let after: Vec<String> = p.notes().iter().map(|n| n.id().to_string()).collect();
    assert_eq!(before, after);
}

#[test]
fn pattern_error_messages() {
    assert_eq!(PatternError::NoteNotFound.message(), "Note not found");
    assert_eq!(
        PatternError::InvalidVelocity.message(),
        "Invalid velocity (must be between 0.0 and 1.0)"
    );
    assert_eq!(PatternError::InvalidPitch.message(), "Invalid pitch (must be between 0 and 127)");
    assert_eq!(PatternError::InvalidLength.message(), "Invalid length (must be greater than 0)");
    assert_eq!(PatternError::InvalidStart.message(), "Invalid start time (must be non-negative)");
    assert!(matches!(PatternError::from(NoteEventError::InvalidStart), PatternError::InvalidStart));
}

#[test]
fn transport_state_machine() {
    let mut s = TransportState::Stopped;
    assert!(s.is_stopped());
    assert!(s.play().is_ok());
    assert!(s.is_playing());
    assert!(matches!(s.play(), Err(TransportError::AlreadyPlaying)));
    assert!(s.stop().is_ok());
    assert!(matches!(s.stop(), Err(TransportError::AlreadyStopped)));
    assert_eq!(s, TransportState::Stopped);
}

#[test]
fn transport_tempo_and_position() {
    let mut t = Transport::new();
    assert!(t.is_stopped());
    assert_eq!(f64::from_bits(t.bpm()), 120.0);
    assert_eq!(f64::from_bits(t.position()), 0.0);
    assert!(matches!(t.set_bpm(bits(0.0)), Err(TransportError::InvalidBpm)));
    assert!(matches!(t.set_bpm(bits(-10.0)), Err(TransportError::InvalidBpm)));
    assert_eq!(f64::from_bits(t.bpm()), 120.0);
    t.set_bpm(bits(90.5)).unwrap();
    assert_eq!(f64::from_bits(t.bpm()), 90.5);
    assert!(matches!(t.stop(), Err(TransportError::AlreadyStopped)));
    t.play().unwrap();
    assert!(t.is_playing());
    t.stop().unwrap();
    assert!(t.is_stopped());
    assert_eq!(t.position(), 0);
    t.reset_position();
    assert_eq!(t.position(), 0);
    assert_eq!(f64::from_bits(Bpm::new(bits(60.0)).unwrap().value()), 60.0);
}

#[test]
fn transport_error_messages() {
    assert_eq!(TransportError::AlreadyPlaying.message(), "Transport is already playing");
    assert_eq!(TransportError::AlreadyStopped.message(), "Transport is already stopped");
    assert_eq!(TransportError::InvalidBpm.message(), "BPM must be greater than 0");
}
