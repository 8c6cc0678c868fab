use playdate_tracks::note::{NoteEvent, TrackNote};
use playdate_tracks::scan::{NoteScan, MAX_EVENT_INDEX};
use playdate_tracks::sequence::{Instrument, Sequence};
use playdate_tracks::track::SequenceTrackRef;

fn note(length: u32, pitch: f32, velocity: f32) -> TrackNote {
    TrackNote::new(length, pitch.to_bits(), velocity.to_bits())
}

fn event(step: u32, length: u32, pitch: f32) -> NoteEvent {
    NoteEvent { step, note: note(length, pitch, 1.0) }
}

/// Plays the host: answers each query of the scan from `host`.
fn drive(mut scan: NoteScan, host: &[NoteEvent]) -> Vec<TrackNote> {
    while let Some(i) = scan.next_index() {
        let reply = if i >= 0 && (i as usize) < host.len() { Some(host[i as usize]) } else { None };
        scan.feed(reply);
    }
    scan.into_notes()
}

/// Plays the host's lookup of the first event index at or after `step`.
fn first_index(host: &[NoteEvent], step: u32) -> i32 {
    host.iter().position(|e| e.step >= step).unwrap_or(host.len()) as i32
}

/// Plays the host's insertion of a note, keeping the list ordered by step.
fn host_add(host: &mut Vec<NoteEvent>, step: u32, n: TrackNote) {
    let at = host.iter().position(|e| e.step > step).unwrap_or(host.len());
    host.insert(at, NoteEvent { step, note: n });
}

fn track(ptr: usize) -> SequenceTrackRef<'static> {
    SequenceTrackRef::new(ptr, 0, None)
}

fn sample_host() -> Vec<NoteEvent> {
    vec![
        event(0, 2, 60.0),
        event(0, 1, 64.0),
        event(4, 2, 67.0),
        event(8, 4, 72.0),
        event(8, 1, 48.0),
    ]
}

#[test]
fn notes_reads_every_event_in_order() {
    let host = sample_host();
    let t = track(0x1000);
    let got = drive(t.notes(), &host);
    let want: Vec<TrackNote> = host.iter().map(|e| e.note).collect();
    assert_eq!(got, want);
}

#[test]
fn notes_at_step_reads_only_that_step() {
    let host = sample_host();
    let t = track(0x1000);
    let got = drive(t.notes_at_step(8, first_index(&host, 8)), &host);
    assert_eq!(got, vec![note(4, 72.0, 1.0), note(1, 48.0, 1.0)]);
    let none = drive(t.notes_at_step(5, first_index(&host, 5)), &host);
    assert!(none.is_empty());
}

#[test]
fn notes_is_union_of_per_step_reads() {
    let host = sample_host();
    let t = track(0x1000);
    let all = drive(t.notes(), &host);
    let mut joined = Vec::new();
    for step in 0..=8u32 {
        joined.extend(drive(t.notes_at_step(step, first_index(&host, step)), &host));
    }
    assert_eq!(all, joined);
    assert_eq!(all.len(), 5);
}

#[test]
fn notes_at_step_is_restartable() {
    let host = sample_host();
    let t = track(0x1000);
    let a = drive(t.notes_at_step(0, first_index(&host, 0)), &host);
    let b = drive(t.notes_at_step(0, first_index(&host, 0)), &host);
    assert_eq!(a, b);
    assert_eq!(a.len(), 2);
}

#[test]
fn added_note_is_read_back_at_its_step() {
    let mut host = sample_host();
    let t = track(0x1000);
    let n = note(3, 62.5, 0.75);
    host_add(&mut host, 4, n);
    let got = drive(t.notes_at_step(4, first_index(&host, 4)), &host);
    assert!(got.contains(&n));
    assert_eq!(got.len(), 2);
}

#[test]
fn removing_one_pitch_keeps_the_other() {
    let mut host = Vec::new();
    host_add(&mut host, 4, note(1, 60.0, 1.0));
    host_add(&mut host, 4, note(1, 64.0, 1.0));
    let pitch = 60.0f32.to_bits();
    host.retain(|e| !(e.step == 4 && e.note.midi_note == pitch));
    let t = track(0x1000);
    let got = drive(t.notes_at_step(4, first_index(&host, 4)), &host);
    assert_eq!(got, vec![note(1, 64.0, 1.0)]);
}

#[test]
fn empty_track_has_no_notes() {
    let host: Vec<NoteEvent> = Vec::new();
    let t = track(0x1000);
    assert!(drive(t.notes(), &host).is_empty());
    assert!(drive(t.notes_at_step(0, first_index(&host, 0)), &host).is_empty());
}

#[test]
fn scan_stops_at_first_other_step() {
    let mut scan = NoteScan::at_step(3, 0);
    assert_eq!(scan.next_index(), Some(0));
    scan.feed(Some(event(3, 1, 50.0)));
    assert_eq!(scan.next_index(), Some(1));
    scan.feed(Some(event(4, 1, 51.0)));
    assert!(scan.is_finished());
    assert_eq!(scan.next_index(), None);
    assert_eq!(scan.notes(), &vec![note(1, 50.0, 1.0)]);
}

#[test]
fn scan_with_negative_start_ends_empty() {
    let host = sample_host();
    let got = drive(NoteScan::at_step(0, -1), &host);
    assert!(got.is_empty());
}

#[test]
fn scan_ends_at_last_host_index() {
    let mut scan = NoteScan::at_step(7, MAX_EVENT_INDEX);
    assert_eq!(scan.next_index(), Some(i32::MAX));
    scan.feed(Some(event(7, 2, 40.0)));
    assert!(scan.is_finished());
    assert_eq!(scan.into_notes(), vec![note(2, 40.0, 1.0)]);
}

#[test]
fn handle_reports_pointer_and_index() {
    let t = SequenceTrackRef::new(0xbeef, 3, None);
    assert_eq!(t.cptr(), 0xbeef);
    assert_eq!(t.index(), 3);
    assert!(t.instrument().is_none());
}

#[test]
fn unbound_track_then_two_instruments() {
    let mut seq = Sequence::new(0x10, 1);
    assert_eq!(seq.track_count(), 1);
    assert!(seq.track(0x20, 0).instrument().is_none());
    {
        let mut t = seq.track_mut(0x20, 0);
        assert_eq!(t.index(), 0);
        assert!(t.instrument().is_none());
        let replaced = t.set_instrument(Instrument::from_handle(0xa1));
        assert!(replaced.is_none());
        assert_eq!(t.instrument().map(|i| i.cptr()), Some(0xa1));
        let replaced = t.set_instrument(Instrument::from_handle(0xb2));
        assert_eq!(replaced.map(|i| i.cptr()), Some(0xa1));
        assert_eq!(t.instrument().map(|i| i.cptr()), Some(0xb2));
    }
    let shared = seq.track(0x20, 0);
    assert_eq!(shared.instrument().map(|i| i.cptr()), Some(0xb2));
    assert_eq!(shared.as_ref().instrument().map(|i| i.cptr()), Some(0xb2));
    assert_eq!(shared.cptr(), 0x20);
}

#[test]
fn set_instrument_touches_only_its_track() {
    let mut seq = Sequence::new(0x10, 3);
    seq.set_track_instrument(0, Instrument::from_handle(0x1));
    {
        let mut t = seq.track_mut(0x30, 2);
        t.set_instrument(Instrument::from_handle(0x2));
        assert_eq!(t.as_ref().instrument().map(|i| i.cptr()), Some(0x2));
        assert_eq!(t.as_ref().index(), 2);
    }
    assert_eq!(seq.track_instrument(0).map(|i| i.cptr()), Some(0x1));
    assert!(seq.track_instrument(1).is_none());
    assert_eq!(seq.track_instrument(2).map(|i| i.cptr()), Some(0x2));
}

#[test]
fn instrument_mut_reaches_stored_instrument() {
    let mut seq = Sequence::new(0x10, 2);
    let mut t = seq.track_mut(0x40, 1);
    assert!(t.instrument_mut().is_none());
    t.set_instrument(Instrument::from_handle(0x9));
    assert_eq!(t.instrument_mut().map(|i| i.cptr()), Some(0x9));
    assert_eq!(t.cptr(), 0x40);
}

#[test]
fn replaced_instrument_is_handed_back() {
    let mut seq = Sequence::new(0x10, 1);
    assert!(seq.set_track_instrument(0, Instrument::from_handle(0x5)).is_none());
    let old = seq.set_track_instrument(0, Instrument::from_handle(0x6));
    assert_eq!(old.map(|i| i.cptr()), Some(0x5));
    assert_eq!(seq.cptr(), 0x10);
}

#[test]
fn empty_sequence_has_no_tracks() {
    let seq = Sequence::new(0x10, 0);
    assert_eq!(seq.track_count(), 0);
}
