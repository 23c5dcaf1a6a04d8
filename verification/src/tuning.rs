//! Tuning schemes and the search for the note nearest to a frequency.
//!
//! A scheme is a list of named notes, each with a target frequency in
//! millihertz. The registry maps scheme ids to schemes. Among notes at the
//! same distance from a frequency the lower note wins; among notes of the
//! same frequency the one registered first wins.
use crate::fixed::{abs_diff, distance};
use vstd::prelude::*;
use vstd::string::*;

verus! {

/// A note as contracts see it: its name and its frequency in millihertz.
pub type NoteView = (Seq<char>, int);

/// A named target frequency.
#[derive(Clone, Debug)]
pub struct Note {
    /// The name of the note, such as `E2`.
    pub name: String,
    /// The target frequency in millihertz.
    pub freq: u32,
}

/// A tuning scheme: an id, a label for display, and its notes in the order
/// in which they were given.
#[derive(Clone, Debug)]
pub struct TuningScheme {
    /// The id that the scheme is registered under.
    pub id: String,
    /// The name to show for the scheme.
    pub label: String,
    /// The notes of the scheme.
    pub notes: Vec<Note>,
}

/// Why a scheme was not registered.
#[derive(Clone, Copy, Debug, PartialEq, Eq)]
pub enum TuningError {
    /// The list of names and the list of frequencies differ in length.
    LengthMismatch,
    /// A frequency is zero.
    ZeroFrequency,
    /// Two notes have the same name.
    DuplicateNote,
}

/// The schemes known to a detector, by id.
pub struct TuningRegistry {
    schemes: Vec<TuningScheme>,
}

/// The notes of a scheme as contracts see them.
pub open spec fn note_views(notes: Seq<Note>) -> Seq<NoteView> {
    Seq::new(notes.len(), |i: int| (notes[i].name@, notes[i].freq as int))
}

/// The notes that a list of names and a list of frequencies stand for.
pub open spec fn zip_notes(names: Seq<String>, freqs: Seq<u32>) -> Seq<NoteView> {
    Seq::new(names.len(), |i: int| (names[i]@, freqs[i] as int))
}

/// Whether every frequency is positive and no name occurs twice.
pub open spec fn valid_notes(notes: Seq<NoteView>) -> bool {
    &&& forall|i: int| 0 <= i < notes.len() ==> (#[trigger] notes[i]).1 > 0
    &&& forall|i: int, j: int|
        0 <= i < j < notes.len() ==> (#[trigger] notes[i]).0 != (#[trigger] notes[j]).0
}

/// What registering these names and frequencies returns.
pub open spec fn validate(names: Seq<String>, freqs: Seq<u32>) -> Result<(), TuningError> {
    if names.len() != freqs.len() {
        Err(TuningError::LengthMismatch)
    } else if exists|i: int| 0 <= i < freqs.len() && freqs[i] == 0 {
        Err(TuningError::ZeroFrequency)
    } else if exists|i: int, j: int| 0 <= i < j < names.len() && names[i]@ == names[j]@ {
        Err(TuningError::DuplicateNote)
    } else {
        Ok(())
    }
}

/// Whether note `i` is at least as good a match for `freq` as note `j`:
/// nearer, or as near and lower, or the same frequency and not later.
pub open spec fn no_worse(notes: Seq<NoteView>, freq: int, i: int, j: int) -> bool {
    let di = abs_diff(notes[i].1, freq);
    let dj = abs_diff(notes[j].1, freq);
    di < dj || (di == dj && (notes[i].1 < notes[j].1 || (notes[i].1 == notes[j].1 && i <= j)))
}

/// Whether note `i` is the match for `freq` among `notes`.
pub open spec fn is_nearest(notes: Seq<NoteView>, freq: int, i: int) -> bool {
    &&& 0 <= i < notes.len()
    &&& forall|j: int| 0 <= j < notes.len() ==> no_worse(notes, freq, i, j)
}

/// The index of the match for `freq` among `notes`, which must not be empty.
pub open spec fn nearest_index(notes: Seq<NoteView>, freq: int) -> int {
    choose|i: int| is_nearest(notes, freq, i)
}

/// What a search for `freq` among `notes` returns: nothing for an empty list,
/// otherwise the matched note's name, its frequency and its distance.
pub open spec fn nearest_in(notes: Seq<NoteView>, freq: int) -> Option<(Seq<char>, int, int)> {
    if notes.len() == 0 {
        None
    } else {
        let n = notes[nearest_index(notes, freq)];
        Some((n.0, n.1, abs_diff(n.1, freq)))
    }
}

/// A frequency has at most one match.
pub proof fn lemma_nearest_unique(notes: Seq<NoteView>, freq: int, a: int, b: int)
    requires
        is_nearest(notes, freq, a),
        is_nearest(notes, freq, b),
    ensures
        a == b,
{
    assert(no_worse(notes, freq, a, b));
    assert(no_worse(notes, freq, b, a));
}

/// An index that passes `is_nearest` is the value of `nearest_index`.
pub proof fn lemma_nearest_index_is(notes: Seq<NoteView>, freq: int, i: int)
    requires
        is_nearest(notes, freq, i),
    ensures
        nearest_index(notes, freq) == i,
{
    lemma_nearest_unique(notes, freq, nearest_index(notes, freq), i);
}

/// Exact self-match: a note whose frequency no other note shares is the match
/// for its own frequency, at distance zero.
pub proof fn lemma_exact_self_match(notes: Seq<NoteView>, i: int)
    requires
        0 <= i < notes.len(),
        forall|j: int| 0 <= j < notes.len() && j != i ==> notes[j].1 != notes[i].1,
    ensures
        nearest_index(notes, notes[i].1) == i,
        nearest_in(notes, notes[i].1) == Some((notes[i].0, notes[i].1, 0int)),
{
    let f = notes[i].1;
    assert forall|j: int| 0 <= j < notes.len() implies no_worse(notes, f, i, j) by {}
    lemma_nearest_index_is(notes, f, i);
}

/// Self-match in general: the match for the frequency of any note has that
/// frequency and distance zero. Its name is that of the first note with the
/// frequency.
pub proof fn lemma_self_match_frequency(notes: Seq<NoteView>, i: int)
    requires
        0 <= i < notes.len(),
    ensures
        nearest_in(notes, notes[i].1) matches Some(found) && found.1 == notes[i].1 && found.2 == 0,
{
    let f = notes[i].1;
    let first = first_with_freq(notes, f, notes.len() as int);
    lemma_first_with_freq(notes, f, notes.len() as int, i);
    assert forall|j: int| 0 <= j < notes.len() implies no_worse(notes, f, first, j) by {}
    lemma_nearest_index_is(notes, f, first);
}

/// Between two adjacent notes the nearer one is matched, and the lower one
/// when both are equally near; the reported distance is that to the match.
pub proof fn lemma_between_adjacent(notes: Seq<NoteView>, lo: int, hi: int, freq: int)
    requires
        0 <= lo < notes.len(),
        0 <= hi < notes.len(),
        notes[lo].1 < freq < notes[hi].1,
        forall|j: int|
            0 <= j < notes.len() ==> notes[j].1 <= notes[lo].1 || notes[hi].1 <= notes[j].1,
    ensures
        nearest_in(notes, freq) matches Some(found) && found.1 == (if freq - notes[lo].1
            <= notes[hi].1 - freq {
            notes[lo].1
        } else {
            notes[hi].1
        }) && found.2 == abs_diff(found.1, freq),
{
    let pick = if freq - notes[lo].1 <= notes[hi].1 - freq {
        lo
    } else {
        hi
    };
    let first = first_with_freq(notes, notes[pick].1, notes.len() as int);
    lemma_first_with_freq(notes, notes[pick].1, notes.len() as int, pick);
    assert forall|j: int| 0 <= j < notes.len() implies no_worse(notes, freq, first, j) by {}
    lemma_nearest_index_is(notes, freq, first);
}

/// The first index below `end` whose note has frequency `f`, or `end`.
pub open spec fn first_with_freq(notes: Seq<NoteView>, f: int, end: int) -> int
    decreases end,
{
    if end <= 0 {
        0
    } else {
        let before = first_with_freq(notes, f, end - 1);
        if before < end - 1 {
            before
        } else if notes[end - 1].1 == f {
            end - 1
        } else {
            end
        }
    }
}

proof fn lemma_first_with_freq(notes: Seq<NoteView>, f: int, end: int, witness: int)
    requires
        0 <= witness < end <= notes.len(),
        notes[witness].1 == f,
    ensures
        0 <= first_with_freq(notes, f, end) <= witness,
        notes[first_with_freq(notes, f, end)].1 == f,
        forall|j: int| 0 <= j < first_with_freq(notes, f, end) ==> notes[j].1 != f,
    decreases end,
{
    if witness < end - 1 {
        lemma_first_with_freq(notes, f, end - 1, witness);
    } else {
        lemma_first_with_freq_none(notes, f, end - 1);
    }
}

proof fn lemma_first_with_freq_none(notes: Seq<NoteView>, f: int, end: int)
    requires
        0 <= end <= notes.len(),
    ensures
        0 <= first_with_freq(notes, f, end) <= end,
        first_with_freq(notes, f, end) < end ==> notes[first_with_freq(notes, f, end)].1 == f,
        forall|j: int| 0 <= j < first_with_freq(notes, f, end) ==> notes[j].1 != f,
    decreases end,
{
    if end > 0 {
        lemma_first_with_freq_none(notes, f, end - 1);
    }
}

/// The index of the match for `freq` among `notes`.
pub fn nearest_position(notes: &Vec<Note>, freq: u32) -> (best: usize)
    requires
        notes@.len() > 0,
    ensures
        is_nearest(note_views(notes@), freq as int, best as int),
        best as int == nearest_index(note_views(notes@), freq as int),
{
    let ghost views = note_views(notes@);
    let mut best: usize = 0;
    let mut best_dist: u32 = distance(notes[0].freq, freq);
    let mut i: usize = 1;
    while i < notes.len()
        invariant
            views == note_views(notes@),
            0 <= best < i <= notes@.len(),
            best_dist == abs_diff(views[best as int].1, freq as int),
            forall|j: int| 0 <= j < i ==> no_worse(views, freq as int, best as int, j),
        decreases notes@.len() - i,
    {
        let d: u32 = distance(notes[i].freq, freq);
        if d < best_dist || (d == best_dist && notes[i].freq < notes[best].freq) {
            proof {
                assert forall|j: int| 0 <= j < i + 1 implies no_worse(
                    views,
                    freq as int,
                    i as int,
                    j,
                ) by {
                    if j < i {
                        assert(no_worse(views, freq as int, best as int, j));
                    }
                }
            }
            best = i;
            best_dist = d;
        }
        i = i + 1;
    }
    proof {
        lemma_nearest_index_is(views, freq as int, best as int);
    }
    best
}

/// Checks a list of names against a list of frequencies.
pub fn check_notes(names: &[String], freqs: &[u32]) -> (r: Result<(), TuningError>)
    ensures
        r == validate(names@, freqs@),
{
    if names.len() != freqs.len() {
        return Err(TuningError::LengthMismatch);
    }
    let n: usize = names.len();
    let mut i: usize = 0;
    while i < n
        invariant
            i <= n,
            n == freqs@.len(),
            n == names@.len(),
            forall|k: int| 0 <= k < i ==> freqs@[k] != 0,
        decreases n - i,
    {
        if freqs[i] == 0 {
            return Err(TuningError::ZeroFrequency);
        }
        i = i + 1;
    }
    let mut a: usize = 0;
    while a < n
        invariant
            a <= n,
            n == names@.len(),
            n == freqs@.len(),
            forall|k: int| 0 <= k < n ==> freqs@[k] != 0,
            forall|x: int, y: int| 0 <= x < y < n && x < a ==> names@[x]@ != names@[y]@,
        decreases n - a,
    {
        let mut b: usize = a + 1;
        while b < n
            invariant
                a < b <= n,
                n == names@.len(),
                n == freqs@.len(),
                forall|k: int| 0 <= k < n ==> freqs@[k] != 0,
                forall|y: int| a < y < b && y < n ==> names@[a as int]@ != names@[y]@,
            decreases n - b,
        {
            if names[a] == names[b] {
                return Err(TuningError::DuplicateNote);
            }
            b = b + 1;
        }
        a = a + 1;
    }
    Ok(())
}

fn make_notes(names: &[String], freqs: &[u32]) -> (notes: Vec<Note>)
    requires
        names@.len() == freqs@.len(),
    ensures
        note_views(notes@) == zip_notes(names@, freqs@),
{
    let n: usize = names.len();
    let mut notes: Vec<Note> = Vec::new();
    let mut k: usize = 0;
    while k < n
        invariant
            k <= n,
            n == names@.len(),
            n == freqs@.len(),
            notes@.len() == k,
            forall|x: int|
                0 <= x < k ==> (#[trigger] notes@[x]).name@ == names@[x]@ && notes@[x].freq
                    == freqs@[x],
        decreases n - k,
    {
        notes.push(Note { name: names[k].clone(), freq: freqs[k] });
        k = k + 1;
    }
    assert(note_views(notes@) =~= zip_notes(names@, freqs@));
    notes
}

impl TuningRegistry {
    /// Whether the registry is well formed: no id occurs twice, and every
    /// scheme has positive frequencies and distinct note names.
    pub closed spec fn wf(&self) -> bool {
        &&& forall|i: int, j: int|
            0 <= i < j < self.schemes@.len() ==> (#[trigger] self.schemes@[i]).id@ != (
            #[trigger] self.schemes@[j]).id@
        &&& forall|i: int|
            0 <= i < self.schemes@.len() ==> valid_notes(
                note_views((#[trigger] self.schemes@[i]).notes@),
            )
    }

    spec fn holds(self, id: Seq<char>, i: int) -> bool {
        0 <= i < self.schemes@.len() && self.schemes@[i].id@ == id
    }

    spec fn position(self, id: Seq<char>) -> int {
        choose|i: int| self.holds(id, i)
    }

    /// The registry as a map from scheme id to the scheme's notes.
    pub closed spec fn view(&self) -> Map<Seq<char>, Seq<NoteView>> {
        Map::new(
            |id: Seq<char>| exists|i: int| self.holds(id, i),
            |id: Seq<char>| note_views(self.schemes@[self.position(id)].notes@),
        )
    }

    /// The display label of each registered scheme, by id.
    pub closed spec fn labels(&self) -> Map<Seq<char>, Seq<char>> {
        Map::new(
            |id: Seq<char>| exists|i: int| self.holds(id, i),
            |id: Seq<char>| self.schemes@[self.position(id)].label@,
        )
    }

    proof fn lemma_position(self, id: Seq<char>, i: int)
        requires
            self.wf(),
            self.holds(id, i),
        ensures
            self.position(id) == i,
            self@.dom().contains(id),
            self@[id] == note_views(self.schemes@[i].notes@),
            self.labels()[id] == self.schemes@[i].label@,
    {
        let p = self.position(id);
        assert(self.holds(id, p));
        if p < i {
            assert(self.schemes@[p].id@ != self.schemes@[i].id@);
        } else if i < p {
            assert(self.schemes@[i].id@ != self.schemes@[p].id@);
        }
    }

    /// A registry without schemes.
    pub fn new() -> (r: Self)
        ensures
            r.wf(),
            r@ == Map::<Seq<char>, Seq<NoteView>>::empty(),
            r.labels() == Map::<Seq<char>, Seq<char>>::empty(),
    {
        let r = TuningRegistry { schemes: Vec::new() };
        assert(r@ =~= Map::<Seq<char>, Seq<NoteView>>::empty());
        assert(r.labels() =~= Map::<Seq<char>, Seq<char>>::empty());
        r
    }

    fn find(&self, key: &String) -> (r: Option<usize>)
        ensures
            match r {
                Some(i) => self.holds(key@, i as int),
                None => forall|i: int| !self.holds(key@, i),
            },
    {
        let mut i: usize = 0;
        while i < self.schemes.len()
            invariant
                i <= self.schemes@.len(),
                forall|k: int| 0 <= k < i ==> self.schemes@[k].id@ != key@,
            decreases self.schemes@.len() - i,
        {
            if self.schemes[i].id == *key {
                return Some(i);
            }
            i = i + 1;
        }
        None
    }

    /// Whether a scheme is registered under `id`.
    pub fn contains_key(&self, id: &str) -> (r: bool)
        requires
            self.wf(),
        ensures
            r == self@.dom().contains(id@),
    {
        let key = id.to_owned();
        self.find(&key).is_some()
    }

    proof fn lemma_replaced(before: Self, after: Self, id: Seq<char>, at: int)
        requires
            before.wf(),
            after.wf(),
            after.holds(id, at),
            forall|other: Seq<char>, p: int|
                other != id ==> (#[trigger] before.holds(other, p) <==> #[trigger] after.holds(
                    other,
                    p,
                )),
            forall|p: int|
                0 <= p < after.schemes@.len() && p != at ==> #[trigger] before.schemes@[p]
                    == after.schemes@[p],
        ensures
            after@ == before@.insert(id, note_views(after.schemes@[at].notes@)),
            after.labels() == before.labels().insert(id, after.schemes@[at].label@),
    {
        let notes = note_views(after.schemes@[at].notes@);
        let label = after.schemes@[at].label@;
        after.lemma_position(id, at);
        assert forall|k: Seq<char>| #[trigger]
            after@.dom().contains(k) <==> before@.insert(id, notes).dom().contains(k) by {
            if k != id {
                if after@.dom().contains(k) {
                    let p = after.position(k);
                    assert(after.holds(k, p));
                    assert(before.holds(k, p));
                }
                if before@.dom().contains(k) {
                    let p = before.position(k);
                    assert(before.holds(k, p));
                    assert(after.holds(k, p));
                }
            }
        }
        assert forall|k: Seq<char>| #[trigger] after@.dom().contains(k) implies after@[k]
            == before@.insert(id, notes)[k] && after.labels()[k] == before.labels().insert(
            id,
            label,
        )[k] by {
            if k != id {
                let p = after.position(k);
                assert(after.holds(k, p));
                assert(before.holds(k, p));
                after.lemma_position(k, p);
                before.lemma_position(k, p);
            }
        }
        assert(after@ =~= before@.insert(id, notes));
        assert(after.labels().dom() =~= after@.dom());
        assert(before.labels().dom() =~= before@.dom());
        assert(after.labels() =~= before.labels().insert(id, label));
    }

    /// Registers a scheme under `id`, in place of any scheme already there.
    ///
    /// Fails, leaving the registry as it was, when the two lists differ in
    /// length, when a frequency is zero, or when a name occurs twice.
    pub fn register_tuning(&mut self, id: &str, label: &str, names: &[String], freqs: &[u32]) -> (r:
        Result<(), TuningError>)
        requires
            old(self).wf(),
        ensures
            final(self).wf(),
            r == validate(names@, freqs@),
            r is Ok ==> final(self)@ == old(self)@.insert(id@, zip_notes(names@, freqs@))
                && final(self).labels() == old(self).labels().insert(id@, label@),
            r is Err ==> final(self)@ == old(self)@ && final(self).labels() == old(self).labels(),
    {
        match check_notes(names, freqs) {
            Err(e) => {
                return Err(e);
            },
            Ok(()) => {},
        }
        let notes = make_notes(names, freqs);
        let key = id.to_owned();
        let found = self.find(&key);
        let scheme = TuningScheme { id: key, label: label.to_owned(), notes };
        let ghost before = *self;
        match found {
            Some(at) => {
                self.schemes.set(at, scheme);
                proof {
                    let after = *self;
                    assert(after.wf());
                    assert(after.holds(id@, at as int));
                    Self::lemma_replaced(before, after, id@, at as int);
                }
            },
            None => {
                self.schemes.push(scheme);
                proof {
                    let after = *self;
                    let last = before.schemes@.len() as int;
                    assert forall|x: int, y: int|
                        0 <= x < y < after.schemes@.len() implies (#[trigger] after.schemes@[x]).id@
                        != (#[trigger] after.schemes@[y]).id@ by {
                        if y == last {
                            assert(!before.holds(id@, x));
                        }
                    }
                    assert(after.wf());
                    assert(after.holds(id@, last));
                    assert forall|other: Seq<char>, p: int| other != id@ implies (
                    #[trigger] before.holds(other, p) <==> #[trigger] after.holds(other, p)) by {}
                    Self::lemma_replaced(before, after, id@, last);
                }
            },
        }
        Ok(())
    }

    /// The note of scheme `id` nearest to `freq`: its name, its frequency and
    /// its distance from `freq`. Nothing when no scheme is registered under
    /// `id`, or when the scheme has no notes.
    pub fn nearest_note(&self, id: &str, freq: u32) -> (r: Option<(String, u32, u32)>)
        requires
            self.wf(),
        ensures
            match r {
                None => !self@.dom().contains(id@) || self@[id@].len() == 0,
                Some((name, f, d)) => self@.dom().contains(id@) && nearest_in(
                    self@[id@],
                    freq as int,
                ) == Some((name@, f as int, d as int)) && f > 0,
            },
    {
        let key = id.to_owned();
        match self.find(&key) {
            None => None,
            Some(at) => {
                proof {
                    self.lemma_position(id@, at as int);
                }
                let notes = &self.schemes[at].notes;
                if notes.len() == 0 {
                    None
                } else {
                    let best: usize = nearest_position(notes, freq);
                    let note = &notes[best];
                    assert(note_views(notes@)[best as int].1 > 0);
                    Some((note.name.clone(), note.freq, distance(note.freq, freq)))
                }
            },
        }
    }

    /// The registered schemes, each id once.
    pub fn list_tunings(&self) -> (table: &Vec<TuningScheme>)
        requires
            self.wf(),
        ensures
            forall|id: Seq<char>|
                self@.dom().contains(id) <==> exists|i: int|
                    0 <= i < table@.len() && (#[trigger] table@[i]).id@ == id,
            forall|i: int, j: int|
                0 <= i < j < table@.len() ==> (#[trigger] table@[i]).id@ != (
                #[trigger] table@[j]).id@,
            forall|i: int|
                0 <= i < table@.len() ==> self@[(#[trigger] table@[i]).id@] == note_views(
                    table@[i].notes@,
                ) && self.labels()[table@[i].id@] == table@[i].label@ && valid_notes(
                    note_views(table@[i].notes@),
                ),
            self.labels().dom() == self@.dom(),
    {
        proof {
            assert forall|id: Seq<char>| self@.dom().contains(id) implies exists|i: int|
                0 <= i < self.schemes@.len() && (#[trigger] self.schemes@[i]).id@ == id by {
                let p = self.position(id);
                assert(self.holds(id, p));
            }
            assert forall|id: Seq<char>|
                (exists|i: int|
                    0 <= i < self.schemes@.len() && (#[trigger] self.schemes@[i]).id@
                        == id) implies self@.dom().contains(id) by {
                let p = choose|i: int|
                    0 <= i < self.schemes@.len() && (#[trigger] self.schemes@[i]).id@ == id;
                assert(self.holds(id, p));
            }
            assert forall|i: int| 0 <= i < self.schemes@.len() implies self@[(
            #[trigger] self.schemes@[i]).id@] == note_views(self.schemes@[i].notes@)
                && self.labels()[self.schemes@[i].id@] == self.schemes@[i].label@ && valid_notes(
                note_views(self.schemes@[i].notes@),
            ) by {
                self.lemma_position(self.schemes@[i].id@, i);
            }
            assert(self.labels().dom() =~= self@.dom());
        }
        &self.schemes
    }
}

} // verus!
