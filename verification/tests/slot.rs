use rt0::io::{init, IoBackend};
use rt0::is64::Ring;
use rt0::sink::{Capture, IsViewer, Null, Sink, WriteError};
use rt0::slot::{InstallError, Slot};
use rt0::start::{report_panic, Termination};
use rt0::stdio::{eprint, print, Stdio};
use rt0::text::{decimal_text, line_text, location_text, panic_report_text, trace_text};
use std::cell::Cell;
use std::rc::Rc;

fn capture_with(text: &str) -> Capture {
    let mut capture = Capture::new();
    capture.write_str(text).expect("a capture takes everything");
    capture
}

fn text_in(slot: &mut Slot<Capture>) -> String {
    let mut text = String::new();
    slot.with_lock(|capture: &mut Capture| text.push_str(capture.text()));
    text
}

// A sink that counts what it is offered and then fails.
struct Failing {
    offered: usize,
}

impl Sink for Failing {
    fn max_len(&self) -> Option<usize> {
        None
    }

    fn write_str(&mut self, _text: &str) -> Result<(), WriteError> {
        self.offered += 1;
        Err(WriteError)
    }
}

// A sink that records when its destructor runs.
struct Watched {
    dropped: Rc<Cell<bool>>,
}

impl Drop for Watched {
    fn drop(&mut self) {
        self.dropped.set(true);
    }
}

impl Sink for Watched {
    fn max_len(&self) -> Option<usize> {
        None
    }

    fn write_str(&mut self, _text: &str) -> Result<(), WriteError> {
        Ok(())
    }
}

// A sink that can be copied, and tells its copies apart from others.
#[derive(Clone, Copy, Debug, PartialEq, Eq)]
struct Tagged(u8);

impl Sink for Tagged {
    fn max_len(&self) -> Option<usize> {
        None
    }

    fn write_str(&mut self, _text: &str) -> Result<(), WriteError> {
        Ok(())
    }
}

fn tag_in(slot: &mut Slot<Tagged>) -> Option<u8> {
    let mut tag = None;
    slot.with_lock(|sink: &mut Tagged| tag = Some(sink.0));
    tag
}

#[test]
fn install_once_rejection() {
    let mut stdio: Stdio<Capture, Capture> = Stdio::new();
    stdio.out.install(capture_with("P:"));
    assert_eq!(
        stdio.out.install_once(capture_with("Q:")),
        Err(InstallError::AlreadyInstalled)
    );
    print(&mut stdio, "hi");
    assert_eq!(text_in(&mut stdio.out), "P:hi");
}

#[test]
fn install_once_succeeds_exactly_once_in_every_order() {
    let orders: [[u8; 3]; 6] =
        [[1, 2, 3], [1, 3, 2], [2, 1, 3], [2, 3, 1], [3, 1, 2], [3, 2, 1]];
    for order in orders {
        let mut slot: Slot<Tagged> = Slot::new();
        assert!(!slot.is_installed());
        let mut successes = 0;
        for tag in order {
            match slot.install_once(Tagged(tag)) {
                Ok(()) => successes += 1,
                Err(error) => assert_eq!(error, InstallError::AlreadyInstalled),
            }
            assert_eq!(tag_in(&mut slot), Some(order[0]));
        }
        assert_eq!(successes, 1);
        assert!(slot.is_installed());
    }
}

#[test]
fn install_replaces_whatever_is_there() {
    let mut slot: Slot<Tagged> = Slot::new();
    slot.install(Tagged(1));
    assert_eq!(tag_in(&mut slot), Some(1));
    slot.install(Tagged(2));
    assert_eq!(tag_in(&mut slot), Some(2));
    assert_eq!(slot.install_once(Tagged(3)), Err(InstallError::AlreadyInstalled));
    assert_eq!(tag_in(&mut slot), Some(2));
}

#[test]
fn install_abandons_the_previous_sink() {
    let first = Rc::new(Cell::new(false));
    let second = Rc::new(Cell::new(false));
    let rejected = Rc::new(Cell::new(false));
    {
        let mut slot: Slot<Watched> = Slot::new();
        slot.install(Watched { dropped: first.clone() });
        slot.install(Watched { dropped: second.clone() });
        assert!(!first.get(), "the replaced sink's destructor must not run");
        assert!(!second.get());
        assert!(slot.install_once(Watched { dropped: rejected.clone() }).is_err());
        assert!(!second.get());
    }
    assert!(!first.get());
}

#[test]
fn with_lock_is_a_no_op_on_an_empty_slot() {
    let mut slot: Slot<Capture> = Slot::new();
    let mut called = false;
    slot.with_lock(|_capture: &mut Capture| called = true);
    assert!(!called);
    assert!(!slot.is_installed());
    assert_eq!(slot.max_len(), None);
}

#[test]
fn with_lock_gives_the_sink_itself() {
    let mut slot: Slot<Capture> = Slot::new();
    slot.install(Capture::new());
    slot.with_lock(|capture: &mut Capture| {
        capture.write_str("one").unwrap();
        capture.write_str(" two").unwrap();
    });
    slot.write(" three");
    assert_eq!(text_in(&mut slot), "one two three");
    assert_eq!(slot.max_len(), None);
}

#[test]
fn messages_of_interleaved_writers_stay_whole() {
    // Three writers take the slot in turns, in every rotation of a fixed
    // schedule; what the sink sees is the messages in the order of the turns.
    let writers = [["a1;", "a2;", "a3;"], ["bb1;", "bb2;", "bb3;"], ["c1;", "c2;", "c3;"]];
    let schedule = [0usize, 1, 0, 2, 2, 1, 0, 1, 2];
    for rotation in 0..schedule.len() {
        let mut stdio: Stdio<Capture, Capture> = Stdio::new();
        stdio.out.install(Capture::new());
        let mut next = [0usize; 3];
        let mut expected = String::new();
        let mut starts = Vec::new();
        for turn in 0..schedule.len() {
            let writer = schedule[(turn + rotation) % schedule.len()];
            let message = writers[writer][next[writer]];
            next[writer] += 1;
            starts.push((expected.len(), message));
            expected.push_str(message);
            print(&mut stdio, message);
        }
        let seen = text_in(&mut stdio.out);
        assert_eq!(seen, expected);
        for (start, message) in starts {
            assert_eq!(&seen[start..start + message.len()], message);
        }
    }
}

#[test]
fn a_failing_sink_is_ignored() {
    let mut stdio: Stdio<Failing, Failing> = Stdio::new();
    stdio.out.install(Failing { offered: 0 });
    stdio.err.install(Failing { offered: 0 });
    assert_eq!(Failing { offered: 0 }.write_str("x"), Err(WriteError));
    print(&mut stdio, "one");
    print(&mut stdio, "two");
    eprint(&mut stdio, "three");
    let mut offered = (0, 0);
    stdio.out.with_lock(|sink: &mut Failing| offered.0 = sink.offered);
    stdio.err.with_lock(|sink: &mut Failing| offered.1 = sink.offered);
    assert_eq!(offered, (2, 1));
}

#[test]
fn null_sink_takes_everything() {
    let mut sink = Null;
    assert_eq!(sink.max_len(), None);
    assert_eq!(sink.write_str("anything"), Ok(()));
    assert_eq!(sink, Null);
}

#[test]
fn viewer_is_absent_until_detected() {
    let ring = Ring::from_parts(0, 0, 0, vec![0; 4]).expect("a valid window");
    let mut viewer = IsViewer::new(ring);
    assert!(!viewer.is_present());
    assert_eq!(viewer.max_len(), Some(15));
    viewer.write_str("lost").unwrap();
    assert_eq!(viewer.window().bytes(), vec![0; 16]);
    assert_eq!(viewer.window().write_head(), 0);

    assert!(viewer.detect());
    assert!(viewer.is_present());
    assert_eq!(viewer.window().magic(), 0x4953_3634);
    viewer.write_str("kept").unwrap();
    assert_eq!(&viewer.window().bytes()[..4], b"kept");
    assert_eq!(viewer.window().write_head(), 4);

    assert!(viewer.detect());
    assert!(viewer.is_present());
    assert_eq!(viewer.window().write_head(), 0);
}

#[test]
fn printing_reaches_the_ring_through_the_slot() {
    let ring = Ring::from_parts(0, 0, 0, vec![0; 8]).expect("a valid window");
    let mut viewer = IsViewer::new(ring);
    assert!(viewer.detect());
    let mut stdio: Stdio<IsViewer, Null> = Stdio::new();
    assert!(stdio.out.install_once(viewer).is_ok());
    rt0::stdio::println(&mut stdio, "héllo");
    print(&mut stdio, "!");
    let mut bytes = Vec::new();
    let mut head = 0;
    stdio.out.with_lock(|viewer: &mut IsViewer| {
        bytes = viewer.window().bytes();
        head = viewer.window().write_head();
    });
    assert_eq!(&bytes[..8], "héllo\n!".as_bytes());
    assert_eq!(head, 8);
    assert_eq!(stdio.out.max_len(), Some(31));
}

#[test]
fn init_installs_the_viewer_in_both_slots() {
    let mut stdio: Stdio<Tagged, Tagged> = Stdio::new();
    assert_eq!(init(&mut stdio, Some(Tagged(64))), IoBackend::IsViewer64);
    assert_eq!(tag_in(&mut stdio.out), Some(64));
    assert_eq!(tag_in(&mut stdio.err), Some(64));
}

#[test]
fn init_without_a_transport_installs_nothing() {
    let mut stdio: Stdio<Tagged, Tagged> = Stdio::new();
    assert_eq!(init(&mut stdio, None), IoBackend::NoBackend);
    assert!(!stdio.out.is_installed());
    assert!(!stdio.err.is_installed());
    print(&mut stdio, "nobody hears this");
}

#[test]
fn init_keeps_a_sink_that_is_installed() {
    let mut stdio: Stdio<Tagged, Tagged> = Stdio::new();
    stdio.err.install(Tagged(7));
    assert_eq!(init(&mut stdio, Some(Tagged(64))), IoBackend::IsViewer64);
    assert_eq!(tag_in(&mut stdio.out), Some(64));
    assert_eq!(tag_in(&mut stdio.err), Some(7));
    assert_eq!(init(&mut stdio, Some(Tagged(65))), IoBackend::IsViewer64);
    assert_eq!(tag_in(&mut stdio.out), Some(64));
}

#[test]
fn main_returning_is_a_panic() {
    assert_eq!(rt0::panic_main(), "main cannot return");
}

#[test]
fn unit_reports_success() {
    assert_eq!(().report(), 0);
}

#[test]
fn panic_is_reported_to_standard_error() {
    let mut stdio: Stdio<Capture, Capture> = Stdio::new();
    stdio.out.install(Capture::new());
    stdio.err.install(Capture::new());
    report_panic(&mut stdio, "panicked at src/main.rs:3:5:\nboom");
    assert_eq!(text_in(&mut stdio.err), "Application: panicked at src/main.rs:3:5:\nboom\n");
    assert_eq!(text_in(&mut stdio.out), "");
}

#[test]
fn panic_report_is_best_effort() {
    let mut empty: Stdio<Capture, Capture> = Stdio::new();
    report_panic(&mut empty, "nobody listens");
    assert!(!empty.err.is_installed());

    // The ring takes fifteen bytes at most: a longer report is left out.
    let ring = Ring::from_parts(0, 0, 0, vec![0; 4]).expect("a valid window");
    let mut viewer = IsViewer::new(ring);
    assert!(viewer.detect());
    let mut stdio: Stdio<Null, IsViewer> = Stdio::new();
    stdio.err.install(viewer);
    report_panic(&mut stdio, "far too long for this ring");
    let mut head = 1;
    stdio.err.with_lock(|viewer: &mut IsViewer| head = viewer.window().write_head());
    assert_eq!(head, 0);
    report_panic(&mut stdio, "x");
    let mut bytes = Vec::new();
    stdio.err.with_lock(|viewer: &mut IsViewer| bytes = viewer.window().bytes());
    assert_eq!(&bytes[..15], b"Application: x\n");
}

#[test]
fn numbers_are_written_in_decimal() {
    assert_eq!(decimal_text(0), "0");
    assert_eq!(decimal_text(7), "7");
    assert_eq!(decimal_text(10), "10");
    assert_eq!(decimal_text(234), "234");
    assert_eq!(decimal_text(1_000_000), "1000000");
    assert_eq!(decimal_text(9_876_543_210u64 as u32), (9_876_543_210u64 as u32).to_string());
    assert_eq!(decimal_text(u32::MAX), "4294967295");
}

#[test]
fn runtime_lines_are_composed_exactly() {
    assert_eq!(line_text(""), "\n");
    assert_eq!(line_text("Foo bar!"), "Foo bar!\n");
    assert_eq!(location_text("src/lib.rs", 42), "[src/lib.rs:42]");
    assert_eq!(trace_text("src/lib.rs", 42, "a + b", "3"), "[src/lib.rs:42] a + b = 3");
    assert_eq!(panic_report_text("oops"), "Application: oops");
}
