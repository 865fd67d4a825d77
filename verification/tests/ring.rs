//! The shared frame ring and the section that holds it.

use deskcam::layout::{
    begin_write, end_write, frame_size, header_matches, header_stores, is_fresh, next_slot, section_name,
    section_size, FrameRing, Namespace, ReadEvent, ReadOutcome, ReadState, Store, WriteEvent, WriteState, HEADER_SIZE,
    NO_SLOT, OFF_LATEST, OFF_SEQ, SECTION_MAGIC, SLOT_COUNT,
};
use deskcam::section::{request, Attempt, Mapped, OpenEvent, OpenStep, Section, LOCAL_SECTION_SDDL, SECTION_SDDL};

fn alloc_section(w: u32, h: u32) -> Vec<u8> {
    vec![0u8; section_size(w, h).div_ceil(8) * 8]
}

fn ring(w: u32, h: u32) -> FrameRing {
    FrameRing::from_raw(alloc_section(w, h), w, h, true)
}

/// A ring of another size over the same bytes.
fn reopened(r: FrameRing, w: u32, h: u32, writable: bool) -> FrameRing {
    let mut bytes = r.into_bytes();
    if bytes.len() < section_size(w, h) {
        bytes.resize(section_size(w, h), 0);
    }
    FrameRing::from_raw(bytes, w, h, writable)
}

#[test]
fn header_and_heartbeats() {
    let mut r = ring(64, 32);
    assert!(!r.header_valid());
    r.init_header();
    assert!(r.header_valid());
    let other = reopened(r, 64, 34, false);
    assert!(!other.header_valid());
    let mut r = reopened(other, 64, 32, true);
    assert!(r.header_valid());
    assert_eq!(r.read_latest(10_000, |_: &[u8]| {}), ReadOutcome::WriterGone);
    r.touch_writer(10_000);
    assert_eq!(r.read_latest(10_500, |_: &[u8]| {}), ReadOutcome::NoFrame);
    assert!(!r.reader_active(10_000));
    r.touch_reader(10_000);
    assert!(r.reader_active(11_000));
    assert!(!r.reader_active(11_600));
    r.publish(|b: &mut [u8]| b.fill(7));
    let mut seen = 0;
    assert_eq!(r.read_latest(10_100, |b: &[u8]| seen = b[0]), ReadOutcome::Frame);
    assert_eq!(seen, 7);
    r.invalidate();
    assert_eq!(r.read_latest(10_100, |_: &[u8]| {}), ReadOutcome::NoFrame);
}

#[test]
fn publish_never_writes_latest_slot() {
    let mut r = ring(16, 16);
    r.init_header();
    let starts: Vec<usize> = (0..SLOT_COUNT).map(|k| r.slot(k).as_ptr() as usize).collect();
    for i in 0..10u8 {
        let before = r.latest_slot();
        let mut written = usize::MAX;
        r.publish(|b: &mut [u8]| {
            b.fill(i);
            written = starts.iter().position(|&p| p == b.as_ptr() as usize).unwrap();
        });
        assert_ne!(written as u32, before);
        assert_eq!(r.latest_slot(), written as u32);
    }
}

#[test]
fn published_frames_are_read_back() {
    let mut r = ring(16, 16);
    r.init_header();
    r.touch_writer(100);
    for i in 1..=7u8 {
        r.publish(|b: &mut [u8]| {
            for (k, v) in b.iter_mut().enumerate() {
                *v = i.wrapping_mul(k as u8);
            }
        });
        let mut calls = 0;
        let mut copy = Vec::new();
        let outcome = r.read_latest(101, |b: &[u8]| {
            calls += 1;
            copy = b.to_vec();
        });
        assert_eq!(outcome, ReadOutcome::Frame);
        assert_eq!(calls, 1);
        assert_eq!(copy.len(), frame_size(16, 16));
        assert!(copy.iter().enumerate().all(|(k, &v)| v == i.wrapping_mul(k as u8)));
        assert_eq!(r.newest(101), (ReadOutcome::Frame, &copy[..]));
    }
}

#[test]
fn read_only_ring_changes_nothing() {
    let mut r = ring(16, 16);
    r.init_header();
    r.touch_writer(5000);
    r.publish(|b: &mut [u8]| b.fill(3));
    let mut r = reopened(r, 16, 16, false);
    r.touch_reader(9000);
    r.touch_writer(9000);
    r.invalidate();
    assert!(!r.writable());
    assert!(!r.reader_active(9000));
    assert!(!r.writer_alive(9000));
    assert!(r.writer_alive(6999));
    assert!(!r.writer_alive(7000));
    assert_eq!(r.newest(5001).0, ReadOutcome::Frame);
    assert_eq!(r.newest(9000).0, ReadOutcome::WriterGone);
    assert_eq!((r.width(), r.height()), (16, 16));
}

#[test]
fn slots_are_used_in_turn() {
    assert_eq!(next_slot(NO_SLOT), 0);
    assert_eq!(next_slot(0), 1);
    assert_eq!(next_slot(1), 2);
    assert_eq!(next_slot(2), 0);
    assert_eq!(next_slot(3), 0);
    let mut r = ring(16, 16);
    r.init_header();
    for i in 1..=3u8 {
        r.publish(|b: &mut [u8]| b.fill(i));
    }
    assert_eq!([r.slot(0)[0], r.slot(1)[0], r.slot(2)[0]], [1, 2, 3]);
}

#[test]
fn sequence_numbers_bracket_a_write() {
    assert_eq!((begin_write(0), end_write(0)), (1, 2));
    assert_eq!((begin_write(7), end_write(7)), (7, 8));
    assert_eq!((begin_write(u64::MAX), end_write(u64::MAX)), (u64::MAX, 0));
}

#[test]
fn heartbeat_windows() {
    assert!(is_fresh(1000, 1000, 1));
    assert!(!is_fresh(1001, 1000, 1));
    assert!(is_fresh(1000, 5000, 1));
    assert!(!is_fresh(1000, 1000, 0));
}

#[test]
fn section_names_and_sizes() {
    assert_eq!(section_name(Namespace::Global, 1920, 1080), "Global\\DeskCam-v1-1920x1080");
    assert_eq!(section_name(Namespace::Local, 640, 480), "Local\\DeskCam-v1-640x480");
    assert_ne!(section_name(Namespace::Local, 64, 480), section_name(Namespace::Local, 644, 80));
    assert_eq!(frame_size(1920, 1080), 3_110_400);
    assert_eq!(section_size(1920, 1080), HEADER_SIZE + 3 * 3_110_400);
}

fn load32(mem: &[u8], off: usize) -> u32 {
    u32::from_le_bytes(mem[off..off + 4].try_into().unwrap())
}

fn load64(mem: &[u8], off: usize) -> u64 {
    u64::from_le_bytes(mem[off..off + 8].try_into().unwrap())
}

fn apply(mem: &mut [u8], store: Store) {
    match store {
        Store::Word { off, value } => mem[off..off + 4].copy_from_slice(&value.to_le_bytes()),
        Store::Long { off, value } => mem[off..off + 8].copy_from_slice(&value.to_le_bytes()),
    }
}

#[test]
fn header_becomes_valid_with_its_last_store() {
    let mut mem = vec![0xFFu8; section_size(32, 16)];
    let valid = |m: &[u8]| header_matches(load32(m, 0), load32(m, 4), load32(m, 8), load32(m, 12), 32, 16);
    for store in header_stores(32, 16) {
        assert!(!valid(&mem));
        apply(&mut mem, store);
    }
    assert!(valid(&mem));
    assert_eq!(load32(&mem, 0), SECTION_MAGIC);
    assert_eq!(&mem[..4], b"DKCM");
    assert_eq!(load32(&mem, 16), NO_SLOT);
    assert_eq!([load64(&mem, 64), load64(&mem, 72), load64(&mem, 80)], [0, 0, 0]);
    assert_eq!([load64(&mem, 32), load64(&mem, 40)], [0, 0]);
    assert!(FrameRing::from_raw(mem, 32, 16, false).header_valid());
}

/// A writer that publishes frames of one repeated byte, one access at a time.
struct Writer {
    next: u8,
    filled: usize,
    state: WriteState,
}

impl Writer {
    fn step(&mut self, mem: &mut [u8], len: usize) {
        let event = match self.state {
            WriteState::Latest => WriteEvent::Latest { value: load32(mem, 16) },
            WriteState::Sequence { slot } => {
                self.next = self.next.wrapping_add(1);
                self.filled = 0;
                WriteEvent::Sequence { value: load64(mem, 64 + 8 * slot) }
            }
            WriteState::Fill { slot, .. } => {
                mem[HEADER_SIZE + slot * len + self.filled] = self.next;
                self.filled += 1;
                if self.filled < len {
                    return;
                }
                WriteEvent::Filled
            }
            WriteState::Done => {
                self.state = WriteState::first();
                return;
            }
            _ => {
                apply(mem, self.state.store().unwrap());
                WriteEvent::Stored
            }
        };
        self.state = self.state.next(event);
    }
}

#[test]
fn writer_protocol_by_hand() {
    let s = WriteState::first();
    assert_eq!(s.store(), None);
    let s = s.next(WriteEvent::Latest { value: 1 });
    assert_eq!(s, WriteState::Sequence { slot: 2 });
    assert_eq!(WriteState::first().next(WriteEvent::Latest { value: NO_SLOT }), WriteState::Sequence { slot: 0 });
    let s = s.next(WriteEvent::Sequence { value: 4 });
    assert_eq!(s, WriteState::Begin { slot: 2, before: 4 });
    assert_eq!(s.store(), Some(Store::Long { off: OFF_SEQ + 16, value: 5 }));
    // What does not answer the action changes nothing.
    assert_eq!(s.next(WriteEvent::Filled), s);
    let s = s.next(WriteEvent::Stored);
    assert_eq!(s, WriteState::Fill { slot: 2, before: 4 });
    assert_eq!(s.store(), None);
    let s = s.next(WriteEvent::Filled);
    assert_eq!(s, WriteState::End { slot: 2, before: 4 });
    assert_eq!(s.store(), Some(Store::Long { off: OFF_SEQ + 16, value: 6 }));
    let s = s.next(WriteEvent::Stored);
    assert_eq!(s.store(), Some(Store::Word { off: OFF_LATEST, value: 2 }));
    assert_eq!(s.next(WriteEvent::Stored), WriteState::Done);
}

#[test]
fn stepwise_writing_is_publishing() {
    let (w, h) = (4u32, 2u32);
    let len = frame_size(w, h);
    let mut whole = ring(w, h);
    whole.init_header();
    let mut mem = alloc_section(w, h);
    for store in header_stores(w, h) {
        apply(&mut mem, store);
    }
    for round in 1..=7u8 {
        let mut writer = Writer { next: round - 1, filled: 0, state: WriteState::first() };
        let latest = load32(&mem, 16);
        while writer.state != WriteState::Done {
            assert_eq!(load32(&mem, 16), latest);
            if let WriteState::Fill { slot, .. } = writer.state {
                assert_eq!(load64(&mem, 64 + 8 * slot) % 2, 1);
            }
            writer.step(&mut mem, len);
        }
        whole.publish(|b: &mut [u8]| b.fill(round));
        let bytes = whole.into_bytes();
        assert_eq!(bytes, mem);
        whole = FrameRing::from_raw(bytes, w, h, true);
    }
}

#[test]
fn frame_is_dropped_before_the_next_one() {
    let (w, h) = (4u32, 2u32);
    let len = frame_size(w, h);
    let mut mem = alloc_section(w, h);
    for store in header_stores(w, h) {
        apply(&mut mem, store);
    }
    let mut writer = Writer { next: 0, filled: 0, state: WriteState::first() };
    for _ in 0..3 {
        // Dropped before the writer looks for a slot.
        apply(&mut mem, Store::Word { off: OFF_LATEST, value: NO_SLOT });
        while writer.state != WriteState::Done {
            writer.step(&mut mem, len);
        }
        assert_eq!(load32(&mem, 16), 0);
        assert_eq!(load64(&mem, 64) % 2, 0);
        writer.state = WriteState::first();
    }
    assert_eq!(load64(&mem, 64), 6);
}

#[test]
fn any_changes_leave_the_frame_published_last() {
    let mut r = ring(4, 2);
    r.init_header();
    let mut random = 99u64;
    let (mut frame, mut heartbeat) = (None, 0u64);
    for now in 1..3000u64 {
        random = random.wrapping_mul(6364136223846793005).wrapping_add(1442695040888963407);
        match (random >> 33) % 40 {
            0 => {
                r.init_header();
                (frame, heartbeat) = (None, 0);
            }
            1 | 2 => {
                r.invalidate();
                frame = None;
            }
            3..=5 => {
                r.touch_writer(now);
                heartbeat = now;
            }
            6..=9 => r.touch_reader(now),
            _ => {
                r.publish(|b: &mut [u8]| b.fill(now as u8));
                frame = Some(now as u8);
            }
        }
        let later = now + (random >> 40) % 4000;
        let want = if later - heartbeat >= 2000 {
            ReadOutcome::WriterGone
        } else if frame.is_none() {
            ReadOutcome::NoFrame
        } else {
            ReadOutcome::Frame
        };
        let mut seen = Vec::new();
        assert_eq!(r.read_latest(later, |b: &[u8]| seen.push(b.to_vec())), want);
        if want == ReadOutcome::Frame {
            assert_eq!(seen, [vec![frame.unwrap(); frame_size(4, 2)]]);
        } else {
            assert!(seen.is_empty());
        }
    }
}

#[test]
fn reading_ends_whatever_is_loaded() {
    let mut random = 7u64;
    let mut below = |n: u64| {
        random = random.wrapping_mul(6364136223846793005).wrapping_add(1442695040888963407);
        (random >> 33) % n
    };
    for _ in 0..2000 {
        let (mut state, mut steps, mut copies) = (ReadState::first(true), 0, 0);
        let outcome = loop {
            steps += 1;
            assert!(steps <= 13);
            state = match state {
                ReadState::Latest { .. } => state.next(ReadEvent::Latest { value: below(6) as u32 % 4 }),
                ReadState::Copy { slot, .. } => {
                    assert!(slot < SLOT_COUNT);
                    copies += 1;
                    state.next(ReadEvent::Copied)
                }
                ReadState::Done { outcome } => break outcome,
                _ => state.next(ReadEvent::Sequence { value: below(4) }),
            };
        };
        assert!(copies <= 3);
        assert!(outcome != ReadOutcome::Frame || copies >= 1);
    }
    // A writer that died in the middle of a frame: one copy.
    let (mut state, mut copies) = (ReadState::first(true), 0);
    while !matches!(state, ReadState::Done { .. }) {
        state = match state {
            ReadState::Latest { .. } => state.next(ReadEvent::Latest { value: 1 }),
            ReadState::Copy { .. } => {
                copies += 1;
                state.next(ReadEvent::Copied)
            }
            _ => state.next(ReadEvent::Sequence { value: 9 }),
        };
    }
    assert_eq!((state, copies), (ReadState::Done { outcome: ReadOutcome::Frame }, 1));
}

#[test]
fn reader_among_writer_steps_gets_whole_frames() {
    let (w, h) = (4u32, 2u32);
    let len = frame_size(w, h);
    let mut mem = vec![0u8; section_size(w, h)];
    for store in header_stores(w, h) {
        apply(&mut mem, store);
    }
    let mut writer = Writer { next: 0, filled: 0, state: WriteState::first() };
    let mut random = 12345u64;
    let mut below = |n: u64| {
        random = random.wrapping_mul(6364136223846793005).wrapping_add(1442695040888963407);
        (random >> 33) % n
    };
    let (mut early, mut late) = (0, 0);
    for round in 0..4000u64 {
        let pace = 1 + round % 40;
        let mut state = ReadState::first(true);
        let mut copy = vec![0u8; len];
        let mut attempts = 0;
        loop {
            for _ in 0..below(pace) {
                writer.step(&mut mem, len);
            }
            state = match state {
                ReadState::Latest { .. } => {
                    attempts += 1;
                    state.next(ReadEvent::Latest { value: load32(&mem, 16) })
                }
                ReadState::Sequence { slot, .. } | ReadState::Recheck { slot, .. } => {
                    state.next(ReadEvent::Sequence { value: load64(&mem, 64 + 8 * slot) })
                }
                ReadState::Copy { slot, .. } => {
                    for i in 0..len {
                        for _ in 0..below(3) {
                            writer.step(&mut mem, len);
                        }
                        copy[i] = mem[HEADER_SIZE + slot * len + i];
                    }
                    state.next(ReadEvent::Copied)
                }
                ReadState::Done { outcome } => {
                    if outcome == ReadOutcome::Frame && attempts < 3 {
                        early += 1;
                        assert!(copy.iter().all(|&v| v == copy[0]), "torn: {copy:?}");
                    } else {
                        late += 1;
                    }
                    break;
                }
            };
        }
        assert!(attempts <= 3);
    }
    assert!(early > 1000, "accepted early {early}, otherwise {late}");
}

#[test]
fn reader_protocol_by_hand() {
    assert_eq!(ReadState::first(false), ReadState::Done { outcome: ReadOutcome::WriterGone });
    let s = ReadState::first(true);
    assert_eq!(s.next(ReadEvent::Latest { value: NO_SLOT }), ReadState::Done { outcome: ReadOutcome::NoFrame });
    assert_eq!(s.next(ReadEvent::Latest { value: 3 }), ReadState::Done { outcome: ReadOutcome::NoFrame });
    let s = s.next(ReadEvent::Latest { value: 2 });
    assert_eq!(s, ReadState::Sequence { attempt: 0, slot: 2 });
    assert_eq!(s.next(ReadEvent::Sequence { value: 5 }), ReadState::Latest { attempt: 1 });
    let s = s.next(ReadEvent::Sequence { value: 6 });
    assert_eq!(s, ReadState::Copy { attempt: 0, slot: 2, seen: 6 });
    let s = s.next(ReadEvent::Copied);
    assert_eq!(s.next(ReadEvent::Sequence { value: 8 }), ReadState::Latest { attempt: 1 });
    assert_eq!(s.next(ReadEvent::Sequence { value: 6 }), ReadState::Done { outcome: ReadOutcome::Frame });
    // The last attempt takes what it gets.
    let s = ReadState::Sequence { attempt: 2, slot: 0 }.next(ReadEvent::Sequence { value: 5 });
    assert_eq!(s, ReadState::Copy { attempt: 2, slot: 0, seen: 5 });
    let s = s.next(ReadEvent::Copied).next(ReadEvent::Sequence { value: 7 });
    assert_eq!(s, ReadState::Done { outcome: ReadOutcome::Frame });
}

#[test]
fn torn_slot_is_accepted_by_a_lone_reader_in_the_end() {
    let mut r = ring(16, 16);
    r.init_header();
    r.touch_writer(1);
    r.publish(|b: &mut [u8]| b.fill(9));
    let mut bytes = r.into_bytes();
    bytes[64] = 1;
    let r = FrameRing::from_raw(bytes, 16, 16, false);
    assert_eq!(r.newest(1).0, ReadOutcome::Frame);
    assert_eq!(r.newest(1).1[0], 9);
}

#[test]
fn new_sections_are_initialised_and_existing_ones_checked() {
    let fresh = Mapped { bytes: vec![1u8; section_size(16, 16)], existed: false };
    let s = Section::create(fresh, 16, 16).unwrap();
    assert!(s.ring.header_valid() && s.ring.writable());
    assert_eq!(s.ring.latest_slot(), NO_SLOT);
    let bytes = s.ring.into_bytes();
    assert!(Section::open(bytes.clone(), 16, 16, false).is_some());
    assert!(Section::create(Mapped { bytes: bytes.clone(), existed: true }, 16, 16).is_some());
    let foreign = Mapped { bytes: vec![1u8; section_size(16, 16)], existed: true };
    assert!(Section::create(foreign, 16, 16).is_none());
    let mut other = bytes.clone();
    other.resize(section_size(16, 18), 0);
    assert!(Section::open(other, 16, 18, true).is_none());
}

#[test]
fn source_section_is_created_or_opened() {
    let bytes = Section::create(Mapped { bytes: alloc_section(16, 16), existed: false }, 16, 16)
        .unwrap()
        .ring
        .into_bytes();
    let junk = alloc_section(16, 16);
    let open = |w: Option<&Vec<u8>>, r: Option<&Vec<u8>>| {
        Section::create_or_open_global(None, w.cloned(), r.cloned(), 16, 16)
    };
    assert!(open(Some(&bytes), None).unwrap().ring.writable());
    assert!(!open(Some(&junk), Some(&bytes)).unwrap().ring.writable());
    assert!(!open(None, Some(&bytes)).unwrap().ring.writable());
    assert!(open(Some(&junk), Some(&junk)).is_none());
    assert!(open(None, None).is_none());
    // A section that was created but not mapped is given up.
    let gone = Section::create_or_open_global(Some(None), Some(bytes.clone()), Some(bytes), 16, 16);
    assert!(gone.is_none());
}

#[test]
fn opening_steps() {
    let step = OpenStep::first(Attempt::Create);
    let map = step.next(OpenEvent::Acquired { existed: false }, true);
    assert_eq!(map, OpenStep::MapView { attempt: Attempt::Create, existed: false });
    let init = map.next(OpenEvent::Mapped, true);
    assert_eq!(init, OpenStep::Init { attempt: Attempt::Create });
    let check = init.next(OpenEvent::Initialised, true);
    assert_eq!(check.next(OpenEvent::Checked { valid: true }, true), OpenStep::Ready { writable: true });
    assert_eq!(check.next(OpenEvent::Checked { valid: false }, true), OpenStep::Unavailable);
    assert_eq!(map.next(OpenEvent::Failed, true), OpenStep::Unavailable);
    let existing = step.next(OpenEvent::Acquired { existed: true }, true).next(OpenEvent::Mapped, true);
    assert_eq!(existing, OpenStep::Check { attempt: Attempt::Create });
    assert_eq!(step.next(OpenEvent::Failed, false), OpenStep::Unavailable);
    let write = step.next(OpenEvent::Failed, true);
    assert_eq!(write, OpenStep::Acquire { attempt: Attempt::OpenWrite });
    let read = write
        .next(OpenEvent::Acquired { existed: true }, true)
        .next(OpenEvent::Mapped, true)
        .next(OpenEvent::Checked { valid: false }, true);
    assert_eq!(read, OpenStep::Acquire { attempt: Attempt::OpenRead });
    let ready = read
        .next(OpenEvent::Acquired { existed: false }, true)
        .next(OpenEvent::Mapped, true)
        .next(OpenEvent::Checked { valid: true }, true);
    assert_eq!(ready, OpenStep::Ready { writable: false });
    assert_eq!(read.next(OpenEvent::Failed, true), OpenStep::Unavailable);
}

#[test]
fn section_requests() {
    let r = request(Namespace::Global, 1920, 1080);
    assert_eq!(r.name, "Global\\DeskCam-v1-1920x1080");
    assert_eq!(r.descriptor, SECTION_SDDL);
    assert_eq!((r.size_high, r.size_low as usize), (0, section_size(1920, 1080)));
    let l = request(Namespace::Local, 1920, 1080);
    assert_eq!(l.descriptor, LOCAL_SECTION_SDDL);
    assert_eq!(LOCAL_SECTION_SDDL, format!("{SECTION_SDDL}S:(ML;;NW;;;LW)"));
}
