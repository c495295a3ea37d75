//! The pattern aggregate: the notes of the sequence, each with a pitch, a
//! start, a length and a velocity, identified by ids the pattern hands out.
use vstd::prelude::*;

use crate::binary64::{le, le_spec, lt, lt_spec, ONE, ZERO};
use crate::search::{first_index, lemma_first_index, lemma_first_index_is};
use crate::text::{decimal, decimal_string, lemma_decimal_injective, str_eq};

verus! {

/// A note: its id, MIDI pitch, start and length in beats and velocity (the
/// last three as binary64 bit patterns).
pub struct NoteView {
    pub id: Seq<char>,
    pub pitch: u8,
    pub start: u64,
    pub length: u64,
    pub velocity: u64,
}

/// A pattern: its notes in insertion order and the number the next id is
/// made from.
pub struct PatternView {
    pub notes: Seq<NoteView>,
    pub next_note_id: u64,
}

/// Velocity lies in `[0, 1]`.
pub open spec fn valid_velocity(v: u64) -> bool {
    le_spec(ZERO, v) && le_spec(v, ONE)
}

/// Pitch is a MIDI note number.
pub open spec fn valid_pitch(p: u8) -> bool {
    p <= 127
}

/// Notes start at or after zero.
pub open spec fn valid_start(s: u64) -> bool {
    le_spec(ZERO, s)
}

/// Notes last a positive time.
pub open spec fn valid_length(l: u64) -> bool {
    lt_spec(ZERO, l)
}

/// The rules every note of a pattern keeps.
pub open spec fn valid_note(n: NoteView) -> bool {
    valid_pitch(n.pitch) && valid_start(n.start) && valid_length(n.length) && valid_velocity(
        n.velocity,
    )
}

#[derive(Clone, Copy, Debug, PartialEq)]
pub struct Velocity(u64);

impl View for Velocity {
    type V = u64;

    closed spec fn view(&self) -> u64 {
        self.0
    }
}

impl Velocity {
    /// A velocity, refused outside `[0, 1]`.
    pub fn new(velocity: u64) -> (r: Result<Self, NoteEventError>)
        ensures
            valid_velocity(velocity) ==> (r matches Ok(v) && v@ == velocity),
            !valid_velocity(velocity) ==> r == Err::<Velocity, NoteEventError>(
                NoteEventError::InvalidVelocity,
            ),
    {
        if le(ZERO, velocity) && le(velocity, ONE) {
            Ok(Velocity(velocity))
        } else {
            Err(NoteEventError::InvalidVelocity)
        }
    }

    pub fn value(&self) -> (r: u64)
        ensures
            r == self@,
    {
        self.0
    }
}

#[derive(Clone, Copy, Debug, PartialEq)]
pub struct Pitch(u8);

impl View for Pitch {
    type V = u8;

    closed spec fn view(&self) -> u8 {
        self.0
    }
}

impl Pitch {
    /// A pitch, refused above 127.
    pub fn new(p: u8) -> (r: Result<Self, NoteEventError>)
        ensures
            valid_pitch(p) ==> (r matches Ok(x) && x@ == p),
            !valid_pitch(p) ==> r == Err::<Pitch, NoteEventError>(NoteEventError::InvalidPitch),
    {
        if p <= 127 {
            Ok(Pitch(p))
        } else {
            Err(NoteEventError::InvalidPitch)
        }
    }

    pub fn value(&self) -> (r: u8)
        ensures
            r == self@,
    {
        self.0
    }
}

#[derive(Clone, Copy, Debug, PartialEq)]
pub struct Start(u64);

impl View for Start {
    type V = u64;

    closed spec fn view(&self) -> u64 {
        self.0
    }
}

impl Start {
    /// A start time, refused below zero.
    pub fn new(s: u64) -> (r: Result<Self, NoteEventError>)
        ensures
            valid_start(s) ==> (r matches Ok(x) && x@ == s),
            !valid_start(s) ==> r == Err::<Start, NoteEventError>(NoteEventError::InvalidStart),
    {
        if le(ZERO, s) {
            Ok(Start(s))
        } else {
            Err(NoteEventError::InvalidStart)
        }
    }

    pub fn value(&self) -> (r: u64)
        ensures
            r == self@,
    {
        self.0
    }
}

#[derive(Clone, Copy, Debug, PartialEq)]
pub struct Length(u64);

impl View for Length {
    type V = u64;

    closed spec fn view(&self) -> u64 {
        self.0
    }
}

impl Length {
    /// A length, refused unless positive.
    pub fn new(l: u64) -> (r: Result<Self, NoteEventError>)
        ensures
            valid_length(l) ==> (r matches Ok(x) && x@ == l),
            !valid_length(l) ==> r == Err::<Length, NoteEventError>(NoteEventError::InvalidLength),
    {
        if lt(ZERO, l) {
            Ok(Length(l))
        } else {
            Err(NoteEventError::InvalidLength)
        }
    }

    pub fn value(&self) -> (r: u64)
        ensures
            r == self@,
    {
        self.0
    }
}

#[derive(Clone, Debug, PartialEq, Eq, Hash)]
pub struct NoteId(String);

impl View for NoteId {
    type V = Seq<char>;

    closed spec fn view(&self) -> Seq<char> {
        self.0@
    }
}

impl NoteId {
    pub fn as_str(&self) -> (r: &str)
        ensures
            r@ == self@,
    {
        self.0.as_str()
    }
}

#[derive(Debug, Clone, PartialEq, Eq)]
pub enum NoteEventError {
    InvalidVelocity,
    InvalidPitch,
    InvalidLength,
    InvalidStart,
}

#[derive(Clone, Debug, PartialEq)]
pub struct NoteEvent {
    id: NoteId,
    pitch: Pitch,
    start: Start,
    length: Length,
    velocity: Velocity,
}

impl View for NoteEvent {
    type V = NoteView;

    closed spec fn view(&self) -> NoteView {
        NoteView {
            id: self.id@,
            pitch: self.pitch@,
            start: self.start@,
            length: self.length@,
            velocity: self.velocity@,
        }
    }
}

/// The first rule a candidate note breaks, checked in the order pitch,
/// start, length, velocity.
pub open spec fn note_error(pitch: u8, start: u64, length: u64, velocity: u64) -> Option<
    PatternError,
> {
    if !valid_pitch(pitch) {
        Some(PatternError::InvalidPitch)
    } else if !valid_start(start) {
        Some(PatternError::InvalidStart)
    } else if !valid_length(length) {
        Some(PatternError::InvalidLength)
    } else if !valid_velocity(velocity) {
        Some(PatternError::InvalidVelocity)
    } else {
        None
    }
}

/// The pattern error a note error stands for.
pub open spec fn pattern_error_of(e: NoteEventError) -> PatternError {
    match e {
        NoteEventError::InvalidVelocity => PatternError::InvalidVelocity,
        NoteEventError::InvalidPitch => PatternError::InvalidPitch,
        NoteEventError::InvalidLength => PatternError::InvalidLength,
        NoteEventError::InvalidStart => PatternError::InvalidStart,
    }
}

impl NoteEvent {
    fn new(id: NoteId, pitch: u8, start: u64, length: u64, velocity: u64) -> (r: Result<
        Self,
        PatternError,
    >)
        ensures
            match note_error(pitch, start, length, velocity) {
                Some(e) => r == Err::<NoteEvent, PatternError>(e),
                None => r matches Ok(n) && n@ == (NoteView {
                    id: id@,
                    pitch,
                    start,
                    length,
                    velocity,
                }),
            },
    {
        let pitch = match Pitch::new(pitch) {
            Ok(p) => p,
            Err(e) => return Err(PatternError::from(e)),
        };
        let start = match Start::new(start) {
            Ok(s) => s,
            Err(e) => return Err(PatternError::from(e)),
        };
        let length = match Length::new(length) {
            Ok(l) => l,
            Err(e) => return Err(PatternError::from(e)),
        };
        let velocity = match Velocity::new(velocity) {
            Ok(v) => v,
            Err(e) => return Err(PatternError::from(e)),
        };
        Ok(NoteEvent { id, pitch, start, length, velocity })
    }

    pub(crate) fn set_pitch(&mut self, pitch: u8) -> (r: Result<(), NoteEventError>)
        ensures
            valid_pitch(pitch) ==> r is Ok && final(self)@ == (NoteView { pitch, ..old(self)@ }),
            !valid_pitch(pitch) ==> r == Err::<(), NoteEventError>(NoteEventError::InvalidPitch)
                && final(self)@ == old(self)@,
    {
        self.pitch = Pitch::new(pitch)?;
        Ok(())
    }

    pub(crate) fn set_start(&mut self, start: u64) -> (r: Result<(), NoteEventError>)
        ensures
            valid_start(start) ==> r is Ok && final(self)@ == (NoteView { start, ..old(self)@ }),
            !valid_start(start) ==> r == Err::<(), NoteEventError>(NoteEventError::InvalidStart)
                && final(self)@ == old(self)@,
    {
        self.start = Start::new(start)?;
        Ok(())
    }

    pub(crate) fn set_length(&mut self, length: u64) -> (r: Result<(), NoteEventError>)
        ensures
            valid_length(length) ==> r is Ok && final(self)@ == (NoteView { length, ..old(self)@ }),
            !valid_length(length) ==> r == Err::<(), NoteEventError>(NoteEventError::InvalidLength)
                && final(self)@ == old(self)@,
    {
        self.length = Length::new(length)?;
        Ok(())
    }

    pub(crate) fn set_velocity(&mut self, velocity: u64) -> (r: Result<(), NoteEventError>)
        ensures
            valid_velocity(velocity) ==> r is Ok && final(self)@ == (NoteView {
                velocity,
                ..old(self)@
            }),
            !valid_velocity(velocity) ==> r == Err::<(), NoteEventError>(
                NoteEventError::InvalidVelocity,
            ) && final(self)@ == old(self)@,
    {
        self.velocity = Velocity::new(velocity)?;
        Ok(())
    }

    pub fn id(&self) -> (r: &str)
        ensures
            r@ == self@.id,
    {
        self.id.as_str()
    }

    pub fn pitch(&self) -> (r: u8)
        ensures
            r == self@.pitch,
    {
        self.pitch.value()
    }

    pub fn start(&self) -> (r: u64)
        ensures
            r == self@.start,
    {
        self.start.value()
    }

    pub fn length(&self) -> (r: u64)
        ensures
            r == self@.length,
    {
        self.length.value()
    }

    pub fn velocity(&self) -> (r: u64)
        ensures
            r == self@.velocity,
    {
        self.velocity.value()
    }
}

/// The ids of notes, in order.
pub open spec fn note_ids(ns: Seq<NoteView>) -> Seq<Seq<char>> {
    ns.map_values(|n: NoteView| n.id)
}

/// `id` is the rendering of a number below `n`.
pub open spec fn issued_below(id: Seq<char>, n: u64) -> bool {
    exists|k: nat| k < n && id == decimal(k)
}

/// What every pattern keeps: its notes follow the note rules, their ids are
/// distinct, and each id was made from a number below the next one.
pub open spec fn pattern_wf(p: PatternView) -> bool {
    &&& forall|i: int| 0 <= i < p.notes.len() ==> valid_note(#[trigger] p.notes[i])
    &&& forall|i: int, j: int|
        0 <= i < j < p.notes.len() ==> #[trigger] p.notes[i].id != #[trigger] p.notes[j].id
    &&& forall|i: int| 0 <= i < p.notes.len() ==> issued_below(#[trigger] p.notes[i].id, p.next_note_id)
}

/// Adding a note: the counter advances in any case; the note, with the id
/// made from the counter, is appended unless it breaks a rule.
pub open spec fn add_note_spec(p: PatternView, pitch: u8, start: u64, length: u64, velocity: u64) -> (
    PatternView,
    Result<Seq<char>, PatternError>,
) {
    let next = PatternView { next_note_id: (p.next_note_id + 1) as u64, ..p };
    match note_error(pitch, start, length, velocity) {
        Some(e) => (next, Err(e)),
        None => (
            PatternView {
                notes: p.notes.push(
                    NoteView { id: decimal(p.next_note_id as nat), pitch, start, length, velocity },
                ),
                ..next
            },
            Ok(decimal(p.next_note_id as nat)),
        ),
    }
}

/// Moving the note `id`: its pitch is set, then its start; each is refused
/// when it breaks a rule, and an unknown id is refused. A refused start
/// leaves the new pitch in place.
pub open spec fn move_note_spec(p: PatternView, id: Seq<char>, pitch: u8, start: u64) -> (
    PatternView,
    Result<(), PatternError>,
) {
    match first_index(note_ids(p.notes), id) {
        None => (p, Err(PatternError::NoteNotFound)),
        Some(i) => if !valid_pitch(pitch) {
            (p, Err(PatternError::InvalidPitch))
        } else {
            let moved = NoteView { pitch, ..p.notes[i] };
            if !valid_start(start) {
                (PatternView { notes: p.notes.update(i, moved), ..p }, Err(PatternError::InvalidStart))
            } else {
                (PatternView { notes: p.notes.update(i, NoteView { start, ..moved }), ..p }, Ok(()))
            }
        },
    }
}

/// Resizing the note `id`.
pub open spec fn resize_note_spec(p: PatternView, id: Seq<char>, length: u64) -> (
    PatternView,
    Result<(), PatternError>,
) {
    match first_index(note_ids(p.notes), id) {
        None => (p, Err(PatternError::NoteNotFound)),
        Some(i) => if !valid_length(length) {
            (p, Err(PatternError::InvalidLength))
        } else {
            (PatternView { notes: p.notes.update(i, NoteView { length, ..p.notes[i] }), ..p }, Ok(()))
        },
    }
}

/// Deleting the note `id`.
pub open spec fn delete_note_spec(p: PatternView, id: Seq<char>) -> (
    PatternView,
    Result<(), PatternError>,
) {
    match first_index(note_ids(p.notes), id) {
        None => (p, Err(PatternError::NoteNotFound)),
        Some(i) => (PatternView { notes: p.notes.remove(i), ..p }, Ok(())),
    }
}

#[derive(Clone, Debug, PartialEq)]
pub struct Pattern {
    notes: Vec<NoteEvent>,
    next_note_id: u64,
}

impl View for Pattern {
    type V = PatternView;

    closed spec fn view(&self) -> PatternView {
        PatternView {
            notes: self.notes@.map_values(|n: NoteEvent| n@),
            next_note_id: self.next_note_id,
        }
    }
}

/// Changing one note of the pattern changes its view accordingly.
proof fn lemma_note_views_update(ns: Seq<NoteEvent>, i: int, n: NoteEvent)
    requires
        0 <= i < ns.len(),
    ensures
        ns.update(i, n).map_values(|x: NoteEvent| x@) == ns.map_values(|x: NoteEvent| x@).update(
            i,
            n@,
        ),
{
    assert(ns.update(i, n).map_values(|x: NoteEvent| x@) =~= ns.map_values(|x: NoteEvent| x@).update(
        i,
        n@,
    ));
}

/// Changing fields of one note keeps a well-formed pattern well-formed as
/// long as the note stays valid and keeps its id.
proof fn lemma_wf_update(p: PatternView, i: int, n: NoteView)
    requires
        pattern_wf(p),
        0 <= i < p.notes.len(),
        n.id == p.notes[i].id,
        valid_note(n),
    ensures
        pattern_wf(PatternView { notes: p.notes.update(i, n), ..p }),
{
    let q = PatternView { notes: p.notes.update(i, n), ..p };
    assert forall|a: int, b: int| 0 <= a < b < q.notes.len() implies #[trigger] q.notes[a].id
        != #[trigger] q.notes[b].id by {
        assert(q.notes[a].id == p.notes[a].id);
        assert(q.notes[b].id == p.notes[b].id);
    }
    assert forall|a: int| 0 <= a < q.notes.len() implies issued_below(
        #[trigger] q.notes[a].id,
        q.next_note_id,
    ) by {
        assert(q.notes[a].id == p.notes[a].id);
    }
}

impl Pattern {
    /// Whether the pattern keeps its rules (see `pattern_wf`).
    pub open spec fn wf(&self) -> bool {
        pattern_wf(self@)
    }

    /// An empty pattern whose first note gets the id `0`.
    pub fn new() -> (r: Self)
        ensures
            r@ == (PatternView { notes: seq![], next_note_id: 0 }),
            r.wf(),
    {
        let r = Pattern { notes: Vec::new(), next_note_id: 0 };
        assert(r@.notes =~= seq![]);
        r
    }

    /// Adds a note and returns its id, the decimal rendering of the counter;
    /// the counter advances even when the note is refused.
    pub fn add_note(&mut self, pitch: u8, start: u64, length: u64, velocity: u64) -> (r: Result<
        NoteId,
        PatternError,
    >)
        requires
            old(self).wf(),
            old(self)@.next_note_id < u64::MAX,
        ensures
            final(self).wf(),
            final(self)@ == add_note_spec(old(self)@, pitch, start, length, velocity).0,
            match add_note_spec(old(self)@, pitch, start, length, velocity).1 {
                Ok(id) => r matches Ok(x) && x@ == id,
                Err(e) => r == Err::<NoteId, PatternError>(e),
            },
    {
        let ghost before = self@;
        let text = decimal_string(self.next_note_id);
        let id = NoteId(text.clone());
        self.next_note_id += 1;
        let note = match NoteEvent::new(NoteId(text), pitch, start, length, velocity) {
            Ok(note) => note,
            Err(e) => {
                proof {
                    lemma_wf_counter(before);
                }
                return Err(e);
            },
        };
        let ghost nv = note@;
        self.notes.push(note);
        proof {
            assert(self@.notes =~= before.notes.push(nv));
            lemma_wf_add(before, nv);
        }
        Ok(id)
    }

    /// The position of the first note with id `id`.
    fn find_note(&self, id: &str) -> (r: Option<usize>)
        ensures
            crate::domain::patch::model::opt_int(r) == first_index(note_ids(self@.notes), id@),
            r matches Some(i) ==> i < self@.notes.len(),
    {
        let ghost ids = note_ids(self@.notes);
        let mut i: usize = 0;
        while i < self.notes.len()
            invariant
                ids == note_ids(self@.notes),
                ids.len() == self.notes@.len(),
                self@.notes.len() == self.notes@.len(),
                i <= self.notes@.len(),
                forall|j: int| 0 <= j < i ==> ids[j] != id@,
            decreases self.notes@.len() - i,
        {
            if str_eq(self.notes[i].id(), id) {
                proof {
                    lemma_first_index_is(ids, id@, i as int);
                }
                return Some(i);
            }
            i = i + 1;
        }
        proof {
            lemma_first_index(ids, id@);
        }
        None
    }

    /// Moves the note `id` to `pitch` and `start`.
    pub fn move_note(&mut self, id: &NoteId, pitch: u8, start: u64) -> (r: Result<(), PatternError>)
        requires
            old(self).wf(),
        ensures
            final(self).wf(),
            (final(self)@, r) == move_note_spec(old(self)@, id@, pitch, start),
    {
        self.move_note_by_str(id.as_str(), pitch, start)
    }

    /// Moves the note whose id reads `id` to `pitch` and `start`.
    pub fn move_note_by_str(&mut self, id: &str, pitch: u8, start: u64) -> (r: Result<(), PatternError>)
        requires
            old(self).wf(),
        ensures
            final(self).wf(),
            (final(self)@, r) == move_note_spec(old(self)@, id@, pitch, start),
    {
        let ghost before = self@;
        match self.find_note(id) {
            None => Err(PatternError::NoteNotFound),
            Some(i) => {
                proof {
                    lemma_first_index(note_ids(before.notes), id@);
                }
                let ghost old_notes = self.notes@;
                match self.notes[i].set_pitch(pitch) {
                    Ok(()) => {},
                    Err(e) => {
                        proof {
                            lemma_note_views_update(old_notes, i as int, self.notes@[i as int]);
                            assert(self@.notes =~= before.notes);
                        }
                        return Err(PatternError::from(e));
                    },
                }
                proof {
                    lemma_note_views_update(old_notes, i as int, self.notes@[i as int]);
                    assert(note_ids(before.notes)[i as int] == id@);
                }
                let ghost mid_notes = self.notes@;
                let ghost mid = self@;
                let r = match self.notes[i].set_start(start) {
                    Ok(()) => Ok(()),
                    Err(e) => Err(PatternError::from(e)),
                };
                proof {
                    lemma_note_views_update(mid_notes, i as int, self.notes@[i as int]);
                    assert(self@.notes =~= mid.notes.update(i as int, self.notes@[i as int]@));
                    if r.is_err() {
                        assert(self@.notes =~= mid.notes);
                        lemma_wf_update(before, i as int, mid.notes[i as int]);
                        assert(mid.notes =~= before.notes.update(i as int, mid.notes[i as int]));
                    } else {
                        lemma_wf_update(before, i as int, self@.notes[i as int]);
                        assert(self@.notes =~= before.notes.update(
                            i as int,
                            self@.notes[i as int],
                        ));
                    }
                }
                r
            },
        }
    }

    /// Sets the length of the note `id`.
    pub fn resize_note(&mut self, id: &NoteId, length: u64) -> (r: Result<(), PatternError>)
        requires
            old(self).wf(),
        ensures
            final(self).wf(),
            (final(self)@, r) == resize_note_spec(old(self)@, id@, length),
    {
        self.resize_note_by_str(id.as_str(), length)
    }

    /// Sets the length of the note whose id reads `id`.
    pub fn resize_note_by_str(&mut self, id: &str, length: u64) -> (r: Result<(), PatternError>)
        requires
            old(self).wf(),
        ensures
            final(self).wf(),
            (final(self)@, r) == resize_note_spec(old(self)@, id@, length),
    {
        let ghost before = self@;
        match self.find_note(id) {
            None => Err(PatternError::NoteNotFound),
            Some(i) => {
                proof {
                    lemma_first_index(note_ids(before.notes), id@);
                    assert(note_ids(before.notes)[i as int] == id@);
                }
                let ghost old_notes = self.notes@;
                let r = match self.notes[i].set_length(length) {
                    Ok(()) => Ok(()),
                    Err(e) => Err(PatternError::from(e)),
                };
                proof {
                    lemma_note_views_update(old_notes, i as int, self.notes@[i as int]);
                    assert(self@.notes =~= before.notes.update(i as int, self.notes@[i as int]@));
                    if r.is_err() {
                        assert(self@.notes =~= before.notes);
                    } else {
                        lemma_wf_update(before, i as int, self@.notes[i as int]);
                    }
                }
                r
            },
        }
    }

    /// Removes the note `id`.
    pub fn delete_note(&mut self, id: &NoteId) -> (r: Result<(), PatternError>)
        requires
            old(self).wf(),
        ensures
            final(self).wf(),
            (final(self)@, r) == delete_note_spec(old(self)@, id@),
    {
        self.delete_note_by_str(id.as_str())
    }

    /// Removes the note whose id reads `id`.
    pub fn delete_note_by_str(&mut self, id: &str) -> (r: Result<(), PatternError>)
        requires
            old(self).wf(),
        ensures
            final(self).wf(),
            (final(self)@, r) == delete_note_spec(old(self)@, id@),
    {
        let ghost before = self@;
        match self.find_note(id) {
            None => Err(PatternError::NoteNotFound),
            Some(pos) => {
                self.notes.remove(pos);
                proof {
                    assert(self@.notes =~= before.notes.remove(pos as int));
                    lemma_wf_remove(before, pos as int);
                }
                Ok(())
            },
        }
    }

    /// The number the next note id will be made from.
    pub fn next_note_id(&self) -> (r: u64)
        ensures
            r == self@.next_note_id,
    {
        self.next_note_id
    }

    /// The notes, in insertion order.
    pub fn notes(&self) -> (r: &[NoteEvent])
        ensures
            r@.map_values(|n: NoteEvent| n@) == self@.notes,
    {
        self.notes.as_slice()
    }
}

/// Advancing the counter keeps a pattern well-formed.
proof fn lemma_wf_counter(p: PatternView)
    requires
        pattern_wf(p),
        p.next_note_id < u64::MAX,
    ensures
        pattern_wf(PatternView { next_note_id: (p.next_note_id + 1) as u64, ..p }),
{
    let q = PatternView { next_note_id: (p.next_note_id + 1) as u64, ..p };
    assert forall|i: int| 0 <= i < q.notes.len() implies issued_below(
        #[trigger] q.notes[i].id,
        q.next_note_id,
    ) by {
        assert(issued_below(p.notes[i].id, p.next_note_id));
        let k = choose|k: nat| k < p.next_note_id && p.notes[i].id == decimal(k);
        assert(k < q.next_note_id);
    }
}

/// Appending a valid note with the id made from the counter, and advancing
/// the counter, keeps a pattern well-formed.
proof fn lemma_wf_add(p: PatternView, n: NoteView)
    requires
        pattern_wf(p),
        p.next_note_id < u64::MAX,
        valid_note(n),
        n.id == decimal(p.next_note_id as nat),
    ensures
        pattern_wf(PatternView { notes: p.notes.push(n), next_note_id: (p.next_note_id + 1) as u64 }),
{
    lemma_wf_counter(p);
    let q = PatternView { notes: p.notes.push(n), next_note_id: (p.next_note_id + 1) as u64 };
    let last = p.notes.len() as int;
    assert forall|i: int| 0 <= i < q.notes.len() implies valid_note(#[trigger] q.notes[i]) by {
        if i < last {
            assert(q.notes[i] == p.notes[i]);
        }
    }
    assert forall|a: int, b: int| 0 <= a < b < q.notes.len() implies #[trigger] q.notes[a].id
        != #[trigger] q.notes[b].id by {
        if b == last {
            assert(q.notes[a] == p.notes[a]);
            assert(issued_below(p.notes[a].id, p.next_note_id));
            let k = choose|k: nat| k < p.next_note_id && p.notes[a].id == decimal(k);
            if p.notes[a].id == n.id {
                lemma_decimal_injective(k, p.next_note_id as nat);
            }
        } else {
            assert(q.notes[a] == p.notes[a]);
            assert(q.notes[b] == p.notes[b]);
        }
    }
    assert forall|i: int| 0 <= i < q.notes.len() implies issued_below(
        #[trigger] q.notes[i].id,
        q.next_note_id,
    ) by {
        if i < last {
            assert(q.notes[i] == p.notes[i]);
            assert(issued_below(p.notes[i].id, p.next_note_id));
            let k = choose|k: nat| k < p.next_note_id && p.notes[i].id == decimal(k);
            assert(k < q.next_note_id);
        } else {
            assert(q.notes[i].id == decimal(p.next_note_id as nat));
            assert((p.next_note_id as nat) < q.next_note_id);
        }
    }
}

/// Removing a note keeps a pattern well-formed.
proof fn lemma_wf_remove(p: PatternView, pos: int)
    requires
        pattern_wf(p),
        0 <= pos < p.notes.len(),
    ensures
        pattern_wf(PatternView { notes: p.notes.remove(pos), ..p }),
{
    let q = PatternView { notes: p.notes.remove(pos), ..p };
    assert forall|i: int| 0 <= i < q.notes.len() implies q.notes[i] == p.notes[if i < pos {
        i
    } else {
        i + 1
    }] by {}
    assert forall|i: int| 0 <= i < q.notes.len() implies valid_note(#[trigger] q.notes[i]) by {
        if i >= pos {
            assert(q.notes[i] == p.notes[i + 1]);
        }
    }
    assert forall|a: int, b: int| 0 <= a < b < q.notes.len() implies #[trigger] q.notes[a].id
        != #[trigger] q.notes[b].id by {
        let a2 = if a < pos {
            a
        } else {
            a + 1
        };
        let b2 = if b < pos {
            b
        } else {
            b + 1
        };
        assert(q.notes[a] == p.notes[a2]);
        assert(q.notes[b] == p.notes[b2]);
    }
    assert forall|i: int| 0 <= i < q.notes.len() implies issued_below(
        #[trigger] q.notes[i].id,
        q.next_note_id,
    ) by {
        let i2 = if i < pos {
            i
        } else {
            i + 1
        };
        assert(q.notes[i] == p.notes[i2]);
    }
}

/// Deleting the note just added, by the id it was given, gives back the
/// notes the pattern had before.
pub proof fn lemma_add_then_delete(p: PatternView, pitch: u8, start: u64, length: u64, velocity: u64)
    requires
        pattern_wf(p),
        p.next_note_id < u64::MAX,
        note_error(pitch, start, length, velocity) is None,
    ensures
        add_note_spec(p, pitch, start, length, velocity).1 matches Ok(id) && delete_note_spec(
            add_note_spec(p, pitch, start, length, velocity).0,
            id,
        ) == (PatternView { next_note_id: (p.next_note_id + 1) as u64, ..p }, Ok::<
            (),
            PatternError,
        >(())),
{
    let id = decimal(p.next_note_id as nat);
    let q = add_note_spec(p, pitch, start, length, velocity).0;
    let ids = note_ids(q.notes);
    let last = p.notes.len() as int;
    assert forall|j: int| 0 <= j < last implies ids[j] != id by {
        assert(issued_below(p.notes[j].id, p.next_note_id));
        let k = choose|k: nat| k < p.next_note_id && p.notes[j].id == decimal(k);
        if p.notes[j].id == id {
            lemma_decimal_injective(k, p.next_note_id as nat);
        }
    }
    assert(ids[last] == id);
    lemma_first_index_is(ids, id, last);
    assert(q.notes.remove(last) =~= p.notes);
}

/// A note that was added is found again by the id it was given, with the
/// pitch, start, length and velocity it was added with.
pub proof fn lemma_add_then_find(p: PatternView, pitch: u8, start: u64, length: u64, velocity: u64)
    requires
        pattern_wf(p),
        p.next_note_id < u64::MAX,
        note_error(pitch, start, length, velocity) is None,
    ensures
        add_note_spec(p, pitch, start, length, velocity).1 matches Ok(id) && first_index(
            note_ids(add_note_spec(p, pitch, start, length, velocity).0.notes),
            id,
        ) == Some(p.notes.len() as int) && add_note_spec(p, pitch, start, length, velocity).0.notes[p.notes.len() as int]
            == (NoteView { id, pitch, start, length, velocity }),
{
    let id = decimal(p.next_note_id as nat);
    let q = add_note_spec(p, pitch, start, length, velocity).0;
    let ids = note_ids(q.notes);
    let last = p.notes.len() as int;
    assert forall|j: int| 0 <= j < last implies ids[j] != id by {
        assert(issued_below(p.notes[j].id, p.next_note_id));
        let k = choose|k: nat| k < p.next_note_id && p.notes[j].id == decimal(k);
        if p.notes[j].id == id {
            lemma_decimal_injective(k, p.next_note_id as nat);
        }
    }
    lemma_first_index_is(ids, id, last);
}

/// A note whose id is unknown cannot be moved, resized or deleted, and the
/// pattern stays as it was.
pub proof fn lemma_unknown_id_refused(p: PatternView, id: Seq<char>, pitch: u8, start: u64, length: u64)
    requires
        !note_ids(p.notes).contains(id),
    ensures
        move_note_spec(p, id, pitch, start) == (p, Err::<(), PatternError>(PatternError::NoteNotFound)),
        resize_note_spec(p, id, length) == (p, Err::<(), PatternError>(PatternError::NoteNotFound)),
        delete_note_spec(p, id) == (p, Err::<(), PatternError>(PatternError::NoteNotFound)),
{
    lemma_first_index(note_ids(p.notes), id);
}

/// Adding a note to a well-formed pattern, whatever its counter: it succeeds
/// exactly when the note breaks no rule (pitch, then start, then length, then
/// velocity are checked); on success the note is appended under an id that
/// no note of the pattern has, and on failure the notes stay as they were.
pub proof fn lemma_add_note_outcome(p: PatternView, pitch: u8, start: u64, length: u64, velocity: u64)
    requires
        pattern_wf(p),
    ensures
        add_note_spec(p, pitch, start, length, velocity).1 is Ok <==> note_error(
            pitch,
            start,
            length,
            velocity,
        ) is None,
        note_error(pitch, start, length, velocity) matches Some(e) ==> add_note_spec(
            p,
            pitch,
            start,
            length,
            velocity,
        ).1 == Err::<Seq<char>, PatternError>(e) && add_note_spec(
            p,
            pitch,
            start,
            length,
            velocity,
        ).0.notes == p.notes,
        add_note_spec(p, pitch, start, length, velocity).1 matches Ok(id) && {
            &&& add_note_spec(p, pitch, start, length, velocity).0.notes == p.notes.push(
                NoteView { id, pitch, start, length, velocity },
            )
            &&& !note_ids(p.notes).contains(id)
        } || note_error(pitch, start, length, velocity) is Some,
{
    let id = decimal(p.next_note_id as nat);
    let ids = note_ids(p.notes);
    if ids.contains(id) {
        let j = choose|j: int| 0 <= j < ids.len() && ids[j] == id;
        assert(issued_below(p.notes[j].id, p.next_note_id));
        let k = choose|k: nat| k < p.next_note_id && p.notes[j].id == decimal(k);
        lemma_decimal_injective(k, p.next_note_id as nat);
    }
}

/// The note rules, as adding a note applies them: a note is accepted exactly
/// when its pitch is at most 127, its start at least 0, its length above 0
/// and its velocity in `[0, 1]` (with no other limit); then it is appended
/// under the id made from the counter. Otherwise the first rule broken, in
/// the order pitch, start, length, velocity, is reported and no note is
/// added.
pub proof fn lemma_add_note_rules(p: PatternView, pitch: u8, start: u64, length: u64, velocity: u64)
    ensures
        add_note_spec(p, pitch, start, length, velocity).1 is Ok <==> (pitch <= 127 && le_spec(
            ZERO,
            start,
        ) && lt_spec(ZERO, length) && le_spec(ZERO, velocity) && le_spec(velocity, ONE)),
        add_note_spec(p, pitch, start, length, velocity).1 is Ok ==> add_note_spec(
            p,
            pitch,
            start,
            length,
            velocity,
        ).0.notes == p.notes.push(
            NoteView { id: decimal(p.next_note_id as nat), pitch, start, length, velocity },
        ),
        !(add_note_spec(p, pitch, start, length, velocity).1 is Ok) ==> add_note_spec(
            p,
            pitch,
            start,
            length,
            velocity,
        ).0.notes == p.notes,
        pitch > 127 ==> add_note_spec(p, pitch, start, length, velocity).1 == Err::<
            Seq<char>,
            PatternError,
        >(PatternError::InvalidPitch),
        pitch <= 127 && !le_spec(ZERO, start) ==> add_note_spec(p, pitch, start, length, velocity).1
            == Err::<Seq<char>, PatternError>(PatternError::InvalidStart),
        pitch <= 127 && le_spec(ZERO, start) && !lt_spec(ZERO, length) ==> add_note_spec(
            p,
            pitch,
            start,
            length,
            velocity,
        ).1 == Err::<Seq<char>, PatternError>(PatternError::InvalidLength),
        pitch <= 127 && le_spec(ZERO, start) && lt_spec(ZERO, length) && !(le_spec(ZERO, velocity)
            && le_spec(velocity, ONE)) ==> add_note_spec(p, pitch, start, length, velocity).1
            == Err::<Seq<char>, PatternError>(PatternError::InvalidVelocity),
{
}

/// Moving and resizing the note at position `i` of a well-formed pattern,
/// found by its id: a move is accepted exactly when the pitch is at most 127
/// and the start at least 0 (with no upper limit), and then sets both; a
/// resize is accepted exactly when the length is above 0 (with no upper
/// limit), and then sets it; a refused resize changes nothing.
pub proof fn lemma_move_resize_rules(p: PatternView, i: int, pitch: u8, start: u64, length: u64)
    requires
        pattern_wf(p),
        0 <= i < p.notes.len(),
    ensures
        move_note_spec(p, p.notes[i].id, pitch, start).1 is Ok <==> (pitch <= 127 && le_spec(
            ZERO,
            start,
        )),
        pitch <= 127 && le_spec(ZERO, start) ==> move_note_spec(p, p.notes[i].id, pitch, start).0
            == (PatternView {
            notes: p.notes.update(i, NoteView { pitch, start, ..p.notes[i] }),
            ..p
        }),
        resize_note_spec(p, p.notes[i].id, length).1 is Ok <==> lt_spec(ZERO, length),
        lt_spec(ZERO, length) ==> resize_note_spec(p, p.notes[i].id, length).0 == (PatternView {
            notes: p.notes.update(i, NoteView { length, ..p.notes[i] }),
            ..p
        }),
        !lt_spec(ZERO, length) ==> resize_note_spec(p, p.notes[i].id, length).0 == p,
{
    let ids = note_ids(p.notes);
    let id = p.notes[i].id;
    assert forall|j: int| 0 <= j < i implies ids[j] != id by {
        assert(p.notes[j].id != p.notes[i].id);
    }
    lemma_first_index_is(ids, id, i);
}

impl From<NoteEventError> for PatternError {
    fn from(err: NoteEventError) -> Self {
        match err {
            NoteEventError::InvalidVelocity => PatternError::InvalidVelocity,
            NoteEventError::InvalidPitch => PatternError::InvalidPitch,
            NoteEventError::InvalidLength => PatternError::InvalidLength,
            NoteEventError::InvalidStart => PatternError::InvalidStart,
        }
    }
}

impl vstd::std_specs::convert::FromSpecImpl<NoteEventError> for PatternError {
    open spec fn obeys_from_spec() -> bool {
        true
    }

    open spec fn from_spec(v: NoteEventError) -> PatternError {
        pattern_error_of(v)
    }
}

#[derive(Debug, Clone, PartialEq, Eq)]
pub enum PatternError {
    NoteNotFound,
    InvalidVelocity,
    InvalidPitch,
    InvalidLength,
    InvalidStart,
}

/// The text that describes a pattern error.
pub open spec fn pattern_message(e: PatternError) -> Seq<char> {
    match e {
        PatternError::NoteNotFound => "Note not found"@,
        PatternError::InvalidVelocity => "Invalid velocity (must be between 0.0 and 1.0)"@,
        PatternError::InvalidPitch => "Invalid pitch (must be between 0 and 127)"@,
        PatternError::InvalidLength => "Invalid length (must be greater than 0)"@,
        PatternError::InvalidStart => "Invalid start time (must be non-negative)"@,
    }
}

impl PatternError {
    /// The text that describes the error (what `to_string` gives).
    pub fn message(&self) -> (r: String)
        ensures
            r@ == pattern_message(*self),
    {
        match self {
            PatternError::NoteNotFound => crate::text::owned("Note not found"),
            PatternError::InvalidVelocity => {
                crate::text::owned("Invalid velocity (must be between 0.0 and 1.0)")
            },
            PatternError::InvalidPitch => {
                crate::text::owned("Invalid pitch (must be between 0 and 127)")
            },
            PatternError::InvalidLength => {
                crate::text::owned("Invalid length (must be greater than 0)")
            },
            PatternError::InvalidStart => {
                crate::text::owned("Invalid start time (must be non-negative)")
            },
        }
    }
}

} // verus!
