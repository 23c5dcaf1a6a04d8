//! What a detector reports for one buffer.
use crate::cents::{cents, cents_between};
use crate::tuning::{nearest_in, NoteView, TuningRegistry};
use vstd::prelude::*;
use vstd::string::*;

verus! {

/// The note that a frequency was matched to.
#[derive(Clone, Debug)]
pub struct TuningTo {
    tuning: String,
    note: String,
    freq: u32,
    distance: u32,
    cents: i32,
}

/// A matched note as contracts see it.
pub struct TuningToView {
    /// The id of the tuning scheme.
    pub tuning: Seq<char>,
    /// The name of the matched note.
    pub note: Seq<char>,
    /// The note's frequency in millihertz.
    pub freq: int,
    /// The distance of the detected frequency from the note, in millihertz.
    pub distance: int,
    /// The interval from the note up to the detected frequency, in
    /// thousandths of a cent.
    pub cents: int,
}

impl View for TuningTo {
    type V = TuningToView;

    closed spec fn view(&self) -> TuningToView {
        TuningToView {
            tuning: self.tuning@,
            note: self.note@,
            freq: self.freq as int,
            distance: self.distance as int,
            cents: self.cents as int,
        }
    }
}

impl TuningTo {
    /// A matched note from its parts.
    pub fn new(tuning: String, note: String, freq: u32, distance: u32, cents: i32) -> (t: TuningTo)
        ensures
            t@ == (TuningToView {
                tuning: tuning@,
                note: note@,
                freq: freq as int,
                distance: distance as int,
                cents: cents as int,
            }),
    {
        Self { tuning, note, freq, distance, cents }
    }

    /// The id of the tuning scheme.
    pub fn tuning(&self) -> (s: String)
        ensures
            s@ == self@.tuning,
    {
        self.tuning.clone()
    }

    /// The name of the matched note.
    pub fn note(&self) -> (s: String)
        ensures
            s@ == self@.note,
    {
        self.note.clone()
    }

    /// The note's frequency in millihertz.
    pub fn freq(&self) -> (f: u32)
        ensures
            f == self@.freq,
    {
        self.freq
    }

    /// The distance of the detected frequency from the note, in millihertz.
    pub fn distance(&self) -> (d: u32)
        ensures
            d == self@.distance,
    {
        self.distance
    }

    /// The interval from the note up to the detected frequency, in
    /// thousandths of a cent.
    pub fn cents(&self) -> (c: i32)
        ensures
            c == self@.cents,
    {
        self.cents
    }

    /// A copy of this match.
    pub fn duplicate(&self) -> (t: TuningTo)
        ensures
            t@ == self@,
    {
        Self {
            tuning: self.tuning.clone(),
            note: self.note.clone(),
            freq: self.freq,
            distance: self.distance,
            cents: self.cents,
        }
    }
}

/// A detected pitch: the frequency, the note it was matched to, and how far
/// the detection can be trusted.
#[derive(Clone, Debug)]
pub struct PitchResult {
    freq: u32,
    tuning_to: TuningTo,
    confidence: u32,
    rms: u32,
}

/// A detected pitch as contracts see it.
pub struct PitchResultView {
    /// The detected frequency in millihertz.
    pub freq: int,
    /// The matched note.
    pub tuning_to: TuningToView,
    /// The confidence in millionths.
    pub confidence: int,
    /// The level of the buffer.
    pub rms: int,
}

impl View for PitchResult {
    type V = PitchResultView;

    closed spec fn view(&self) -> PitchResultView {
        PitchResultView {
            freq: self.freq as int,
            tuning_to: self.tuning_to@,
            confidence: self.confidence as int,
            rms: self.rms as int,
        }
    }
}

impl PitchResult {
    /// A detected pitch from its parts.
    pub fn new(
        freq: u32,
        tuning: String,
        closest_note: String,
        closest_freq: u32,
        distance: u32,
        cents: i32,
        confidence: u32,
        rms: u32,
    ) -> (r: PitchResult)
        ensures
            r@ == (PitchResultView {
                freq: freq as int,
                tuning_to: TuningToView {
                    tuning: tuning@,
                    note: closest_note@,
                    freq: closest_freq as int,
                    distance: distance as int,
                    cents: cents as int,
                },
                confidence: confidence as int,
                rms: rms as int,
            }),
    {
        let tuning_to = TuningTo::new(tuning, closest_note, closest_freq, distance, cents);
        Self { freq, tuning_to, confidence, rms }
    }

    /// The detected frequency in millihertz.
    pub fn freq(&self) -> (f: u32)
        ensures
            f == self@.freq,
    {
        self.freq
    }

    /// The matched note.
    pub fn tuning_to(&self) -> (t: TuningTo)
        ensures
            t@ == self@.tuning_to,
    {
        self.tuning_to.duplicate()
    }

    /// The confidence in millionths.
    pub fn confidence(&self) -> (c: u32)
        ensures
            c == self@.confidence,
    {
        self.confidence
    }

    /// The level of the buffer that the pitch was found in.
    pub fn rms(&self) -> (l: u32)
        ensures
            l == self@.rms,
    {
        self.rms
    }
}

/// What is reported for the frequency `freq` in the scheme `tuning`:
/// nothing for a frequency of zero, an unknown scheme or a scheme without
/// notes; otherwise the nearest note with its distance and interval.
pub open spec fn described(
    tunings: Map<Seq<char>, Seq<NoteView>>,
    tuning: Seq<char>,
    freq: int,
    confidence: int,
    level: int,
) -> Option<PitchResultView> {
    if freq <= 0 || !tunings.dom().contains(tuning) {
        None
    } else {
        match nearest_in(tunings[tuning], freq) {
            None => None,
            Some((note, note_freq, distance)) => Some(
                PitchResultView {
                    freq,
                    tuning_to: TuningToView {
                        tuning,
                        note,
                        freq: note_freq,
                        distance,
                        cents: cents(freq, note_freq),
                    },
                    confidence,
                    rms: level,
                },
            ),
        }
    }
}

/// The view of an optional result.
pub open spec fn result_view(r: Option<PitchResult>) -> Option<PitchResultView> {
    match r {
        None => None,
        Some(p) => Some(p@),
    }
}

/// Matches `freq` to the nearest note of the scheme `tuning` in `registry`.
pub fn describe(registry: &TuningRegistry, tuning: &str, freq: u32, confidence: u32, level: u32)
    -> (r: Option<PitchResult>)
    requires
        registry.wf(),
    ensures
        result_view(r) == described(
            registry@,
            tuning@,
            freq as int,
            confidence as int,
            level as int,
        ),
{
    if freq == 0 {
        return None;
    }
    match registry.nearest_note(tuning, freq) {
        None => None,
        Some((note, note_freq, distance)) => {
            let interval: i32 = cents_between(freq as u64, note_freq as u64);
            Some(
                PitchResult::new(
                    freq,
                    tuning.to_owned(),
                    note,
                    note_freq,
                    distance,
                    interval,
                    confidence,
                    level,
                ),
            )
        },
    }
}

} // verus!
