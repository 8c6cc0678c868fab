use vstd::prelude::*;

use crate::note::{NoteEvent, TrackNote};

verus! {

/// The largest index the host can address in a track's event list.
pub const MAX_EVENT_INDEX: i32 = 0x7fff_ffff;

/// The notes that a scan reading `evs` from its first event collects: every
/// event while `filter` is `None`, else the leading run of events whose step
/// equals the filter.
pub open spec fn scan_run(evs: Seq<NoteEvent>, filter: Option<u32>) -> Seq<TrackNote>
    decreases evs.len(),
{
    if evs.len() == 0 {
        seq![]
    } else if filter is Some && evs[0].step != filter->0 {
        seq![]
    } else {
        seq![evs[0].note] + scan_run(evs.drop_first(), filter)
    }
}

/// What a scan starting at index `start` of a host holding `evs` collects. An
/// index outside the list reads as the end of the list.
pub open spec fn host_scan(evs: Seq<NoteEvent>, start: int, filter: Option<u32>) -> Seq<TrackNote> {
    if 0 <= start <= evs.len() {
        scan_run(evs.subrange(start, evs.len() as int), filter)
    } else {
        seq![]
    }
}

/// The host's answer when asked for the event at index `i` of `evs`.
pub open spec fn reply_at(evs: Seq<NoteEvent>, i: int) -> Option<NoteEvent> {
    if 0 <= i < evs.len() {
        Some(evs[i])
    } else {
        None
    }
}

/// The abstract state of a scan.
pub ghost struct ScanState {
    pub filter: Option<u32>,
    pub next: int,
    pub found: Seq<TrackNote>,
    pub finished: bool,
}

impl ScanState {
    /// The state after the host answered the query for index `next`.
    pub open spec fn fed(self, reply: Option<NoteEvent>) -> ScanState {
        match reply {
            None => ScanState { finished: true, ..self },
            Some(e) => if self.filter is Some && e.step != self.filter->0 {
                ScanState { finished: true, ..self }
            } else {
                ScanState {
                    filter: self.filter,
                    next: if self.next < MAX_EVENT_INDEX { self.next + 1 } else { self.next },
                    found: self.found.push(e.note),
                    finished: self.next >= MAX_EVENT_INDEX,
                }
            },
        }
    }

    /// The scan agrees with a host holding `evs` that it started on at `start`:
    /// what it found, followed by what is still ahead, is what the whole scan
    /// yields.
    pub open spec fn consistent(self, evs: Seq<NoteEvent>, start: int) -> bool {
        &&& self.next <= MAX_EVENT_INDEX
        &&& self.found + (if self.finished {
            seq![]
        } else {
            host_scan(evs, self.next, self.filter)
        }) == host_scan(evs, start, self.filter)
    }
}

/// A scan over a track's event list, driven one host query at a time: ask
/// `next_index` which index to read, hand the host's answer to `feed`, and stop
/// once `is_finished` holds.
pub struct NoteScan {
    filter: Option<u32>,
    next: i32,
    found: Vec<TrackNote>,
    finished: bool,
}

impl View for NoteScan {
    type V = ScanState;

    closed spec fn view(&self) -> ScanState {
        ScanState {
            filter: self.filter,
            next: self.next as int,
            found: self.found@,
            finished: self.finished,
        }
    }
}

impl NoteScan {
    /// A scan of every event of the track, from index 0 on.
    pub fn all() -> (r: NoteScan)
        ensures
            r@ == (ScanState { filter: None, next: 0, found: seq![], finished: false }),
    {
        NoteScan { filter: None, next: 0, found: Vec::new(), finished: false }
    }

    /// A scan of the notes that start at `step`, from `first_index`, the host's
    /// first index at or after that step.
    pub fn at_step(step: u32, first_index: i32) -> (r: NoteScan)
        ensures
            r@ == (ScanState {
                filter: Some(step),
                next: first_index as int,
                found: seq![],
                finished: false,
            }),
    {
        NoteScan { filter: Some(step), next: first_index, found: Vec::new(), finished: false }
    }

    /// The index to ask the host for next, or `None` once the scan is over.
    pub fn next_index(&self) -> (r: Option<i32>)
        ensures
            r == (if self@.finished { None } else { Some(self@.next as i32) }),
    {
        if self.finished {
            None
        } else {
            Some(self.next)
        }
    }

    pub fn is_finished(&self) -> (r: bool)
        ensures
            r == self@.finished,
    {
        self.finished
    }

    /// Takes the host's answer for the index `next_index` gave: `None` where the
    /// host reported no event there.
    pub fn feed(&mut self, reply: Option<NoteEvent>)
        requires
            !old(self)@.finished,
        ensures
            final(self)@ == old(self)@.fed(reply),
    {
        match reply {
            None => {
                self.finished = true;
            },
            Some(e) => {
                let matches = match self.filter {
                    Some(s) => e.step == s,
                    None => true,
                };
                if !matches {
                    self.finished = true;
                } else {
                    self.found.push(e.note);
                    if self.next < MAX_EVENT_INDEX {
                        self.next = self.next + 1;
                    } else {
                        self.finished = true;
                    }
                }
            },
        }
    }

    /// The notes collected so far, in the host's order.
    pub fn notes(&self) -> (r: &Vec<TrackNote>)
        ensures
            r@ == self@.found,
    {
        &self.found
    }

    /// Ends the scan, handing out the notes it collected.
    pub fn into_notes(self) -> (r: Vec<TrackNote>)
        ensures
            r@ == self@.found,
    {
        self.found
    }
}

/// The host lists a track's events ordered by step.
pub open spec fn sorted_by_step(evs: Seq<NoteEvent>) -> bool {
    forall|i: int, j: int| 0 <= i < j < evs.len() ==> evs[i].step <= evs[j].step
}

/// The host's first index at or after step `s`: the number of leading events
/// that start before `s`.
pub open spec fn first_index(evs: Seq<NoteEvent>, s: int) -> int
    decreases evs.len(),
{
    if evs.len() == 0 {
        0
    } else if evs[0].step < s {
        1 + first_index(evs.drop_first(), s)
    } else {
        0
    }
}

/// The notes of the events that start at step `s`, in list order.
pub open spec fn notes_at(evs: Seq<NoteEvent>, s: int) -> Seq<TrackNote>
    decreases evs.len(),
{
    if evs.len() == 0 {
        seq![]
    } else {
        (if evs[0].step == s {
            seq![evs[0].note]
        } else {
            seq![]
        }) + notes_at(evs.drop_first(), s)
    }
}

/// The notes of the events that start before step `b`, in list order.
pub open spec fn notes_before(evs: Seq<NoteEvent>, b: int) -> Seq<TrackNote>
    decreases evs.len(),
{
    if evs.len() == 0 {
        seq![]
    } else {
        (if evs[0].step < b {
            seq![evs[0].note]
        } else {
            seq![]
        }) + notes_before(evs.drop_first(), b)
    }
}

/// The per-step scans of steps `0 .. bound`, one after another.
pub open spec fn per_step_scans(evs: Seq<NoteEvent>, bound: nat) -> Seq<TrackNote>
    decreases bound,
{
    if bound == 0 {
        seq![]
    } else {
        let s = bound - 1;
        per_step_scans(evs, s as nat) + host_scan(evs, first_index(evs, s), Some(s as u32))
    }
}

/// Number of distinct steps a track can hold.
pub open spec fn step_space() -> nat {
    0x1_0000_0000
}

/// A fresh scan agrees with the host it is about to read.
pub proof fn lemma_fresh_scan_consistent(s: ScanState, evs: Seq<NoteEvent>)
    requires
        s.found == Seq::<TrackNote>::empty(),
        !s.finished,
        s.next <= MAX_EVENT_INDEX,
    ensures
        s.consistent(evs, s.next),
{
    assert(s.found + host_scan(evs, s.next, s.filter) =~= host_scan(evs, s.next, s.filter));
}

/// Feeding a scan the host's true answer for the index it asked keeps it in
/// agreement with the host; so a scan driven to its end has found exactly
/// `host_scan(evs, start, filter)`.
pub proof fn lemma_feed_consistent(s: ScanState, evs: Seq<NoteEvent>, start: int)
    requires
        evs.len() <= MAX_EVENT_INDEX,
        s.consistent(evs, start),
        !s.finished,
    ensures
        s.fed(reply_at(evs, s.next)).consistent(evs, start),
{
    let n = s.next;
    let t = s.fed(reply_at(evs, n));
    if 0 <= n < evs.len() {
        let rest = evs.subrange(n, evs.len() as int);
        assert(rest[0] == evs[n]);
        assert(rest.drop_first() =~= evs.subrange(n + 1, evs.len() as int));
        if !(s.filter is Some && evs[n].step != s.filter->0) {
            assert(host_scan(evs, n, s.filter) == seq![evs[n].note] + host_scan(evs, n + 1, s.filter));
            if n >= MAX_EVENT_INDEX {
                assert(false);
            }
            assert(t.found + host_scan(evs, n + 1, s.filter) =~= s.found + host_scan(evs, n, s.filter));
        } else {
            assert(host_scan(evs, n, s.filter) == Seq::<TrackNote>::empty());
            assert(t.found + Seq::<TrackNote>::empty() =~= s.found + host_scan(evs, n, s.filter));
        }
    } else {
        if n == evs.len() {
            assert(evs.subrange(n, evs.len() as int).len() == 0);
        }
        assert(host_scan(evs, n, s.filter) == Seq::<TrackNote>::empty());
        assert(t.found + Seq::<TrackNote>::empty() =~= s.found + host_scan(evs, n, s.filter));
    }
}

/// Two scans that start alike on an unchanged track and are driven to their end
/// find the same notes.
pub proof fn lemma_scan_restartable(a: ScanState, b: ScanState, evs: Seq<NoteEvent>, start: int)
    requires
        a.consistent(evs, start),
        b.consistent(evs, start),
        a.filter == b.filter,
        a.finished,
        b.finished,
    ensures
        a.found == b.found,
{
    assert(a.found =~= a.found + Seq::<TrackNote>::empty());
    assert(b.found =~= b.found + Seq::<TrackNote>::empty());
}

proof fn lemma_notes_at_empty(evs: Seq<NoteEvent>, s: int)
    requires
        forall|i: int| 0 <= i < evs.len() ==> evs[i].step != s,
    ensures
        notes_at(evs, s) == Seq::<TrackNote>::empty(),
    decreases evs.len(),
{
    if evs.len() > 0 {
        lemma_notes_at_empty(evs.drop_first(), s);
        assert(notes_at(evs, s) =~= Seq::<TrackNote>::empty());
    }
}

proof fn lemma_notes_before_empty(evs: Seq<NoteEvent>, b: int)
    requires
        forall|i: int| 0 <= i < evs.len() ==> evs[i].step >= b,
    ensures
        notes_before(evs, b) == Seq::<TrackNote>::empty(),
    decreases evs.len(),
{
    if evs.len() > 0 {
        lemma_notes_before_empty(evs.drop_first(), b);
        assert(notes_before(evs, b) =~= Seq::<TrackNote>::empty());
    }
}

proof fn lemma_notes_before_all(evs: Seq<NoteEvent>)
    ensures
        notes_before(evs, step_space() as int) == scan_run(evs, None),
    decreases evs.len(),
{
    if evs.len() > 0 {
        lemma_notes_before_all(evs.drop_first());
        assert(notes_before(evs, step_space() as int) =~= scan_run(evs, None));
    }
}

/// Scanning from the first step at or after `s`, in a sorted list whose events
/// all start at or after `s`, yields the events at `s`.
proof fn lemma_run_at(evs: Seq<NoteEvent>, s: u32)
    requires
        sorted_by_step(evs),
        forall|i: int| 0 <= i < evs.len() ==> evs[i].step >= s,
    ensures
        scan_run(evs, Some(s)) == notes_at(evs, s as int),
    decreases evs.len(),
{
    if evs.len() > 0 {
        let rest = evs.drop_first();
        if evs[0].step == s {
            assert forall|i: int| 0 <= i < rest.len() implies rest[i].step >= s by {
                assert(rest[i] == evs[i + 1]);
            }
            lemma_run_at(rest, s);
        } else {
            assert forall|i: int| 0 <= i < rest.len() implies rest[i].step != s by {
                assert(rest[i] == evs[i + 1]);
            }
            lemma_notes_at_empty(rest, s as int);
            assert(notes_at(evs, s as int) =~= Seq::<TrackNote>::empty());
        }
    }
}

/// In a sorted list, the scan for step `s` from the host's first index for `s`
/// yields the notes of every event at `s`.
pub proof fn lemma_step_scan(evs: Seq<NoteEvent>, s: u32)
    requires
        sorted_by_step(evs),
    ensures
        host_scan(evs, first_index(evs, s as int), Some(s)) == notes_at(evs, s as int),
    decreases evs.len(),
{
    if evs.len() == 0 {
        assert(evs.subrange(0, 0) =~= evs);
    } else {
        let rest = evs.drop_first();
        assert(sorted_by_step(rest)) by {
            assert forall|i: int, j: int| 0 <= i < j < rest.len() implies rest[i].step <= rest[j].step by {
                assert(rest[i] == evs[i + 1] && rest[j] == evs[j + 1]);
            }
        }
        if evs[0].step < s {
            lemma_step_scan(rest, s);
            let k = first_index(rest, s as int);
            lemma_first_index_bound(rest, s as int);
            assert(evs.subrange(1 + k, evs.len() as int) =~= rest.subrange(k, rest.len() as int));
            assert(notes_at(evs, s as int) =~= notes_at(rest, s as int));
        } else {
            assert(evs.subrange(0, evs.len() as int) =~= evs);
            lemma_run_at(evs, s);
        }
    }
}

proof fn lemma_first_index_bound(evs: Seq<NoteEvent>, s: int)
    ensures
        0 <= first_index(evs, s) <= evs.len(),
    decreases evs.len(),
{
    if evs.len() > 0 {
        lemma_first_index_bound(evs.drop_first(), s);
    }
}

/// In a sorted list, the events before `s + 1` are those before `s` followed by
/// those at `s`.
proof fn lemma_notes_before_next(evs: Seq<NoteEvent>, s: int)
    requires
        sorted_by_step(evs),
    ensures
        notes_before(evs, s + 1) == notes_before(evs, s) + notes_at(evs, s),
    decreases evs.len(),
{
    if evs.len() == 0 {
        assert(notes_before(evs, s) + notes_at(evs, s) =~= Seq::<TrackNote>::empty());
    } else {
        let e = evs[0];
        let rest = evs.drop_first();
        assert(sorted_by_step(rest)) by {
            assert forall|i: int, j: int| 0 <= i < j < rest.len() implies rest[i].step <= rest[j].step by {
                assert(rest[i] == evs[i + 1] && rest[j] == evs[j + 1]);
            }
        }
        assert forall|i: int| 0 <= i < rest.len() implies rest[i].step >= e.step by {
            assert(rest[i] == evs[i + 1]);
        }
        if e.step < s {
            lemma_notes_before_next(rest, s);
            assert(notes_before(evs, s + 1) =~= notes_before(evs, s) + notes_at(evs, s));
        } else if e.step == s {
            lemma_notes_before_next(rest, s);
            lemma_notes_before_empty(rest, s);
            assert(notes_before(evs, s + 1) =~= notes_before(evs, s) + notes_at(evs, s));
        } else {
            lemma_notes_before_empty(evs, s + 1);
            lemma_notes_before_empty(evs, s);
            assert forall|i: int| 0 <= i < evs.len() implies evs[i].step != s by {
                if i > 0 {
                    assert(evs[i] == rest[i - 1]);
                }
            }
            lemma_notes_at_empty(evs, s);
            assert(notes_before(evs, s + 1) =~= notes_before(evs, s) + notes_at(evs, s));
        }
    }
}

proof fn lemma_per_step_scans(evs: Seq<NoteEvent>, bound: nat)
    requires
        sorted_by_step(evs),
        bound <= step_space(),
    ensures
        per_step_scans(evs, bound) == notes_before(evs, bound as int),
    decreases bound,
{
    if bound == 0 {
        lemma_notes_before_empty(evs, 0);
    } else {
        let s = bound - 1;
        lemma_per_step_scans(evs, s as nat);
        lemma_step_scan(evs, s as u32);
        lemma_notes_before_next(evs, s);
    }
}

/// Reading every note of a track yields exactly the per-step reads of all
/// steps, one after another in step order: each note once, and no other.
pub proof fn lemma_notes_are_union_of_steps(evs: Seq<NoteEvent>)
    requires
        sorted_by_step(evs),
    ensures
        host_scan(evs, 0, None) == per_step_scans(evs, step_space()),
{
    lemma_per_step_scans(evs, step_space());
    lemma_notes_before_all(evs);
    assert(evs.subrange(0, evs.len() as int) =~= evs);
}

proof fn lemma_notes_at_contains(evs: Seq<NoteEvent>, k: int)
    requires
        0 <= k < evs.len(),
    ensures
        notes_at(evs, evs[k].step as int).contains(evs[k].note),
    decreases evs.len(),
{
    let s = evs[k].step as int;
    if k == 0 {
        assert(notes_at(evs, s)[0] == evs[0].note);
    } else {
        let rest = evs.drop_first();
        assert(rest[k - 1] == evs[k]);
        lemma_notes_at_contains(rest, k - 1);
        let j = choose|j: int| 0 <= j < notes_at(rest, s).len() && notes_at(rest, s)[j] == evs[k].note;
        let pre: Seq<TrackNote> = if evs[0].step == s { seq![evs[0].note] } else { seq![] };
        assert(notes_at(evs, s)[pre.len() + j] == evs[k].note);
    }
}

/// Once a track holds a note at step `s`, reading the notes at `s` yields it.
pub proof fn lemma_added_note_found(evs: Seq<NoteEvent>, s: u32, n: TrackNote)
    requires
        sorted_by_step(evs),
        evs.contains(NoteEvent { step: s, note: n }),
    ensures
        host_scan(evs, first_index(evs, s as int), Some(s)).contains(n),
{
    let k = choose|k: int| 0 <= k < evs.len() && evs[k] == NoteEvent { step: s, note: n };
    lemma_notes_at_contains(evs, k);
    lemma_step_scan(evs, s);
}

/// A track holding no events yields no notes.
pub proof fn lemma_empty_track_no_notes()
    ensures
        host_scan(Seq::<NoteEvent>::empty(), 0, None) == Seq::<TrackNote>::empty(),
{
    assert(Seq::<NoteEvent>::empty().subrange(0, 0) =~= Seq::<NoteEvent>::empty());
}

/// The events left once every event at step `s` playing pitch `p` is removed.
pub open spec fn without_note(evs: Seq<NoteEvent>, s: u32, p: u32) -> Seq<NoteEvent>
    decreases evs.len(),
{
    if evs.len() == 0 {
        seq![]
    } else {
        let rest = without_note(evs.drop_first(), s, p);
        if evs[0].step == s && evs[0].note.midi_note == p {
            rest
        } else {
            seq![evs[0]] + rest
        }
    }
}

/// The notes of `ns` whose pitch is not `p`, in order.
pub open spec fn other_pitches(ns: Seq<TrackNote>, p: u32) -> Seq<TrackNote>
    decreases ns.len(),
{
    if ns.len() == 0 {
        seq![]
    } else {
        (if ns[0].midi_note == p {
            seq![]
        } else {
            seq![ns[0]]
        }) + other_pitches(ns.drop_first(), p)
    }
}

proof fn lemma_without_note_lower(evs: Seq<NoteEvent>, s: u32, p: u32, b: int)
    requires
        forall|i: int| 0 <= i < evs.len() ==> evs[i].step >= b,
    ensures
        forall|j: int|
            0 <= j < without_note(evs, s, p).len() ==> #[trigger] without_note(evs, s, p)[j].step >= b,
    decreases evs.len(),
{
    if evs.len() > 0 {
        let rest = evs.drop_first();
        assert forall|i: int| 0 <= i < rest.len() implies rest[i].step >= b by {
            assert(rest[i] == evs[i + 1]);
        }
        lemma_without_note_lower(rest, s, p, b);
        let w = without_note(evs, s, p);
        let wr = without_note(rest, s, p);
        if !(evs[0].step == s && evs[0].note.midi_note == p) {
            assert forall|j: int| 0 <= j < w.len() implies #[trigger] w[j].step >= b by {
                if j > 0 {
                    assert(w[j] == wr[j - 1]);
                }
            }
        }
    }
}

proof fn lemma_without_note_sorted(evs: Seq<NoteEvent>, s: u32, p: u32)
    requires
        sorted_by_step(evs),
    ensures
        sorted_by_step(without_note(evs, s, p)),
    decreases evs.len(),
{
    if evs.len() > 0 {
        let rest = evs.drop_first();
        assert(sorted_by_step(rest)) by {
            assert forall|i: int, j: int| 0 <= i < j < rest.len() implies rest[i].step <= rest[j].step by {
                assert(rest[i] == evs[i + 1] && rest[j] == evs[j + 1]);
            }
        }
        lemma_without_note_sorted(rest, s, p);
        assert forall|i: int| 0 <= i < rest.len() implies rest[i].step >= evs[0].step by {
            assert(rest[i] == evs[i + 1]);
        }
        lemma_without_note_lower(rest, s, p, evs[0].step as int);
        let w = without_note(evs, s, p);
        let wr = without_note(rest, s, p);
        if !(evs[0].step == s && evs[0].note.midi_note == p) {
            assert forall|i: int, j: int| 0 <= i < j < w.len() implies w[i].step <= w[j].step by {
                assert(w[j] == wr[j - 1]);
                if i > 0 {
                    assert(w[i] == wr[i - 1]);
                }
            }
        }
    }
}

proof fn lemma_without_note_at(evs: Seq<NoteEvent>, s: u32, p: u32, t: int)
    ensures
        notes_at(without_note(evs, s, p), t) == (if t == s {
            other_pitches(notes_at(evs, t), p)
        } else {
            notes_at(evs, t)
        }),
    decreases evs.len(),
{
    if evs.len() > 0 {
        let e = evs[0];
        let rest = evs.drop_first();
        lemma_without_note_at(rest, s, p, t);
        let w = without_note(evs, s, p);
        let wr = without_note(rest, s, p);
        if !(e.step == s && e.note.midi_note == p) {
            assert(w.drop_first() =~= wr);
            assert(w[0] == e);
        }
        if e.step == t {
            let na = notes_at(evs, t);
            assert(na.drop_first() =~= notes_at(rest, t));
            assert(na[0] == e.note);
            if t == s {
                assert(notes_at(w, t) =~= other_pitches(na, p));
            } else {
                assert(notes_at(w, t) =~= na);
            }
        } else {
            assert(notes_at(evs, t) =~= notes_at(rest, t));
            if t == s {
                assert(notes_at(w, t) =~= other_pitches(notes_at(evs, t), p));
            } else {
                assert(notes_at(w, t) =~= notes_at(evs, t));
            }
        }
    }
}

/// Removing the events at step `s` with pitch `p` leaves the reading of step
/// `s` with exactly the notes of other pitches, and the reading of every other
/// step as it was.
pub proof fn lemma_remove_note_event(evs: Seq<NoteEvent>, s: u32, p: u32, t: u32)
    requires
        sorted_by_step(evs),
    ensures
        ({
            let after = without_note(evs, s, p);
            let before_t = host_scan(evs, first_index(evs, t as int), Some(t));
            let after_t = host_scan(after, first_index(after, t as int), Some(t));
            after_t == (if t == s {
                other_pitches(before_t, p)
            } else {
                before_t
            })
        }),
{
    lemma_without_note_sorted(evs, s, p);
    lemma_step_scan(evs, t);
    lemma_step_scan(without_note(evs, s, p), t);
    lemma_without_note_at(evs, s, p, t as int);
}

} // verus!
