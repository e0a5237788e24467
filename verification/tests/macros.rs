use rt0::sink::{Capture, Sink};
use rt0::slot::Slot;
use rt0::stdio::{dbg, dbg2, dbg_here, eprint, eprintln, print, Stdio};

// Checks `actual` against `expected`, in which `*` stands for a run of
// decimal digits, such as a line number.
fn text_matches(expected: &str, actual: &str) -> bool {
    let mut rest = actual;
    let mut first = true;
    for needle in expected.split('*') {
        if !first {
            rest = rest.trim_start_matches(|c: char| c.is_ascii_digit());
        }
        first = false;
        match rest.strip_prefix(needle) {
            Some(tail) => rest = tail,
            None => return false,
        }
    }
    rest.is_empty()
}

fn captured(slot: &mut Slot<Capture>) -> String {
    let mut text = String::new();
    slot.with_lock(|capture: &mut Capture| text.push_str(capture.text()));
    text
}

// Two slots with a capture in each.
fn io_test() -> Stdio<Capture, Capture> {
    let mut stdio: Stdio<Capture, Capture> = Stdio::new();
    stdio.out.install(Capture::new());
    stdio.err.install(Capture::new());
    stdio
}

#[test]
fn test_dbg() {
    let mut stdio = io_test();
    let stdout = "";
    let stderr = [
        "[src/macros.rs:*] a = 1\n",
        "[src/macros.rs:*] b = 2\n",
        "[src/macros.rs:*] b = 2\n",
        "[src/macros.rs:*] a = 1\n",
        "[src/macros.rs:*] crate::dbg!(b, a,) = (\n",
        "    2,\n",
        "    1,\n",
        ")\n",
    ]
    .iter()
    .cloned()
    .collect::<String>();

    {
        let a = 1;
        let b = 2;
        let file = "src/macros.rs";

        let first = dbg(&mut stdio, file, 234, "a", &format!("{:#?}", a), a);
        let second = dbg(&mut stdio, file, 234, "b", &format!("{:#?}", b), b);
        let inner = dbg2(
            &mut stdio,
            file,
            234,
            "b",
            &format!("{:#?}", b),
            b,
            "a",
            &format!("{:#?}", a),
            a,
        );
        let third = dbg(
            &mut stdio,
            file,
            234,
            "crate::dbg!(b, a,)",
            &format!("{:#?}", inner),
            inner,
        );
        assert_eq!((first, second, third), (1, 2, (2, 1)));
    }

    assert!(text_matches(stdout, &captured(&mut stdio.out)));
    assert!(text_matches(&stderr, &captured(&mut stdio.err)));
}

#[test]
fn test_print() {
    let mut stdio = io_test();
    let stdout = "Foo bar!";
    let stderr = "";

    print(&mut stdio, "Foo bar!");

    assert!(text_matches(stdout, &captured(&mut stdio.out)));
    assert!(text_matches(stderr, &captured(&mut stdio.err)));
}

#[test]
fn test_println() {
    let mut stdio = io_test();
    let stdout = "Foo bar!\n";
    let stderr = "";

    rt0::stdio::println(&mut stdio, "Foo bar!");

    assert!(text_matches(stdout, &captured(&mut stdio.out)));
    assert!(text_matches(stderr, &captured(&mut stdio.err)));
}

#[test]
fn test_eprint() {
    let mut stdio = io_test();
    let stdout = "";
    let stderr = "Foo bar!";

    eprint(&mut stdio, "Foo bar!");

    assert!(text_matches(stdout, &captured(&mut stdio.out)));
    assert!(text_matches(stderr, &captured(&mut stdio.err)));
}

#[test]
fn test_eprintln() {
    let mut stdio = io_test();
    let stdout = "";
    let stderr = "Foo bar!\n";

    eprintln(&mut stdio, "Foo bar!");

    assert!(text_matches(stdout, &captured(&mut stdio.out)));
    assert!(text_matches(stderr, &captured(&mut stdio.err)));
}

#[test]
fn wildcard_stands_for_digits_only() {
    assert!(text_matches("[f:*] x", "[f:17] x"));
    assert!(text_matches("[f:*] x", "[f:] x"));
    assert!(!text_matches("[f:*] x", "[f:1a] x"));
    assert!(!text_matches("", "x"));
    assert!(!text_matches("Foo", "Foo bar"));
}

#[test]
fn dbg_line_is_exact() {
    let mut stdio = io_test();
    let value = dbg(&mut stdio, "src/main.rs", 24, "WHITE", "65535", 0xffffu16);
    assert_eq!(value, 0xffff);
    assert_eq!(captured(&mut stdio.err), "[src/main.rs:24] WHITE = 65535\n");
    assert_eq!(captured(&mut stdio.out), "");
}

#[test]
fn dbg_without_arguments_prints_the_location() {
    let mut stdio = io_test();
    dbg_here(&mut stdio, "src/lib.rs", 1007);
    assert_eq!(captured(&mut stdio.err), "[src/lib.rs:1007]\n");
    assert_eq!(captured(&mut stdio.out), "");
}

#[test]
fn dbg_hands_back_the_value_it_was_given() {
    let mut stdio = io_test();
    let mut evaluations = 0;
    let mut compute = || {
        evaluations += 1;
        String::from("payload")
    };
    let value = dbg(&mut stdio, "f.rs", 1, "compute()", "\"payload\"", compute());
    assert_eq!(value, "payload");
    assert_eq!(evaluations, 1);
    assert_eq!(captured(&mut stdio.err), "[f.rs:1] compute() = \"payload\"\n");
}

#[test]
fn dbg_of_two_is_two_dbgs() {
    let mut paired = io_test();
    let pair = dbg2(&mut paired, "f.rs", 9, "a", "1", 1u8, "b", "true", true);

    let mut single = io_test();
    let a = dbg(&mut single, "f.rs", 9, "a", "1", 1u8);
    let b = dbg(&mut single, "f.rs", 9, "b", "true", true);

    assert_eq!(pair, (a, b));
    assert_eq!(pair, (1, true));
    assert_eq!(captured(&mut paired.err), captured(&mut single.err));
    assert_eq!(captured(&mut paired.err), "[f.rs:9] a = 1\n[f.rs:9] b = true\n");
}

#[test]
fn printing_without_a_sink_discards() {
    let mut stdio: Stdio<Capture, Capture> = Stdio::new();
    print(&mut stdio, "lost");
    rt0::stdio::println(&mut stdio, "lost");
    eprint(&mut stdio, "lost");
    eprintln(&mut stdio, "lost");
    dbg_here(&mut stdio, "f.rs", 3);
    assert_eq!(dbg(&mut stdio, "f.rs", 3, "x", "7", 7), 7);
    assert!(!stdio.out.is_installed());
    assert!(!stdio.err.is_installed());
}

#[test]
fn print_keeps_non_ascii_text() {
    let mut stdio = io_test();
    rt0::stdio::println(&mut stdio, "héllo → 世界");
    assert_eq!(captured(&mut stdio.out), "héllo → 世界\n");
    let mut capture = Capture::new();
    assert!(capture.write_str("ü").is_ok());
    assert_eq!(capture.text(), "ü");
}
