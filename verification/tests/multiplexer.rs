use cmdmux::{process_cycle, Command, CommandCtx, ProcessStatus};

fn make_cmd(color: &str, filter: Option<&str>, follow: bool) -> Command {
    Command {
        bin: String::from("cat"),
        args: Vec::new(),
        out_color: String::from(color),
        filter: filter.map(String::from),
        follow,
    }
}

fn wrapped(code: &str, line: &str) -> Vec<u8> {
    let mut v = Vec::new();
    v.extend_from_slice(b"\x1b[");
    v.extend_from_slice(code.as_bytes());
    v.push(b'm');
    v.extend_from_slice(line.as_bytes());
    v.extend_from_slice(b"\x1b[0m\n");
    v
}

#[test]
fn filter_emits_only_matching_lines() {
    let mut ctx = CommandCtx::build(make_cmd("default", Some("ERROR"), false)).unwrap();
    let out = ctx.step(b"INFO ok\nERROR bad\nINFO ok2\n", ProcessStatus::Running);
    assert_eq!(out, wrapped("0", "ERROR bad"));
}

#[test]
fn no_filter_emits_every_line() {
    let mut ctx = CommandCtx::build(make_cmd("blue", None, false)).unwrap();
    let out = ctx.step(b"one\ntwo\n", ProcessStatus::Running);
    let mut expected = wrapped("34", "one");
    expected.extend_from_slice(&wrapped("34", "two"));
    assert_eq!(out, expected);
}

#[test]
fn lines_survive_arbitrary_fragmentation() {
    let mut ctx = CommandCtx::build(make_cmd("default", None, false)).unwrap();
    let mut all = Vec::new();
    for chunk in [&b"he"[..], &b"llo\nwo"[..], &b""[..], &b"rld\n"[..]] {
        all.extend_from_slice(&ctx.step(chunk, ProcessStatus::Running));
    }
    let mut expected = wrapped("0", "hello");
    expected.extend_from_slice(&wrapped("0", "world"));
    assert_eq!(all, expected);
}

#[test]
fn unterminated_fragment_is_retained_not_dropped() {
    let mut ctx = CommandCtx::build(make_cmd("default", None, false)).unwrap();
    // A complete line plus a fragment: the fragment must wait, then join the
    // bytes of the next cycle.
    let first = ctx.step(b"done\npar", ProcessStatus::Running);
    assert_eq!(first, wrapped("0", "done"));
    let second = ctx.step(b"tial\n", ProcessStatus::Running);
    assert_eq!(second, wrapped("0", "partial"));
}

#[test]
fn no_data_emits_nothing() {
    let mut ctx = CommandCtx::build(make_cmd("red", None, false)).unwrap();
    let out = ctx.step(b"", ProcessStatus::Running);
    assert_eq!(out, Vec::<u8>::new());
}

#[test]
fn green_lines_are_bracketed_by_green_and_reset_escapes() {
    let mut ctx = CommandCtx::build(make_cmd("green", None, false)).unwrap();
    let out = ctx.step(b"hi\n", ProcessStatus::Running);
    assert!(out.starts_with(b"\x1b[32m"));
    assert!(out.ends_with(b"\x1b[0m\n"));
    assert_eq!(out, wrapped("32", "hi"));
}

#[test]
fn silent_handle_does_not_stall_the_next_one() {
    // One fast producer after a silent source: the fast source's line appears
    // in the same cycle, undelayed and unchanged.
    let silent = CommandCtx::build(make_cmd("red", None, false)).unwrap();
    let fast = CommandCtx::build(make_cmd("green", None, false)).unwrap();
    let chunks = vec![Vec::new(), b"quick\n".to_vec()];
    let statuses = vec![ProcessStatus::Running, ProcessStatus::Running];
    let (ctxs, out) = process_cycle(vec![silent, fast], &chunks, &statuses);
    assert_eq!(out, wrapped("32", "quick"));
    assert_eq!(ctxs.len(), 2);
}

#[test]
fn followed_handle_retires_once_exited() {
    let mut ctx = CommandCtx::build(make_cmd("purple", None, true)).unwrap();
    assert!(ctx.is_alive());
    // The cycle that observes the exit still emits what was drained.
    let out = ctx.step(b"last\n", ProcessStatus::Exited);
    assert_eq!(out, wrapped("35", "last"));
    assert!(!ctx.is_alive());
    // Afterwards the handle produces nothing, whatever is handed to it.
    let out2 = ctx.step(b"ghost\n", ProcessStatus::Running);
    assert_eq!(out2, Vec::<u8>::new());
    assert!(!ctx.is_alive());
}

#[test]
fn signaled_and_stopped_also_retire_a_followed_handle() {
    let mut a = CommandCtx::build(make_cmd("default", None, true)).unwrap();
    a.step(b"", ProcessStatus::Signaled);
    assert!(!a.is_alive());
    let mut b = CommandCtx::build(make_cmd("default", None, true)).unwrap();
    b.step(b"", ProcessStatus::Stopped);
    assert!(!b.is_alive());
}

#[test]
fn unfollowed_handle_outlives_its_process() {
    let mut ctx = CommandCtx::build(make_cmd("default", None, false)).unwrap();
    ctx.step(b"", ProcessStatus::Exited);
    assert!(ctx.is_alive());
}

#[test]
fn cycle_output_keeps_handle_order() {
    let a = CommandCtx::build(make_cmd("red", None, false)).unwrap();
    let b = CommandCtx::build(make_cmd("green", None, false)).unwrap();
    let chunks = vec![b"from a\n".to_vec(), b"from b\n".to_vec()];
    let statuses = vec![ProcessStatus::Running, ProcessStatus::Running];
    let (_, out) = process_cycle(vec![a, b], &chunks, &statuses);
    let mut expected = wrapped("31", "from a");
    expected.extend_from_slice(&wrapped("32", "from b"));
    assert_eq!(out, expected);
}

#[test]
fn two_command_scenario() {
    // Two commands: `echo hello` in green with no filter, and a printer of
    // "a\nb\n" in yellow filtered to lines matching "b". Expected console
    // output: a green hello line and a single yellow b line, never a.
    let echo = CommandCtx::build(Command {
        bin: String::from("echo"),
        args: vec![String::from("hello")],
        out_color: String::from("green"),
        filter: None,
        follow: true,
    })
    .unwrap();
    let printer = CommandCtx::build(Command {
        bin: String::from("printf"),
        args: vec![String::from("a\\nb\\n")],
        out_color: String::from("yellow"),
        filter: Some(String::from("b")),
        follow: true,
    })
    .unwrap();
    let chunks = vec![b"hello\n".to_vec(), b"a\nb\n".to_vec()];
    let statuses = vec![ProcessStatus::Running, ProcessStatus::Running];
    let (ctxs, out) = process_cycle(vec![echo, printer], &chunks, &statuses);
    let mut expected = wrapped("32", "hello");
    expected.extend_from_slice(&wrapped("33", "b"));
    assert_eq!(out, expected);
    let shown = String::from_utf8(out).unwrap();
    assert!(!shown.contains("\x1b[33ma"));
    assert_eq!(ctxs.len(), 2);
}

#[test]
fn all_retired_reports_when_polling_may_stop() {
    let mut a = CommandCtx::build(make_cmd("default", None, true)).unwrap();
    let b = CommandCtx::build(make_cmd("default", None, true)).unwrap();
    a.step(b"", ProcessStatus::Exited);
    let ctxs = vec![a, b];
    assert!(!cmdmux::all_retired(&ctxs));
    let chunks = vec![Vec::new(), Vec::new()];
    let statuses = vec![ProcessStatus::Running, ProcessStatus::Exited];
    let (ctxs, _) = process_cycle(ctxs, &chunks, &statuses);
    assert!(cmdmux::all_retired(&ctxs));
    assert!(cmdmux::all_retired(&Vec::new()));
}

#[test]
fn handle_reports_its_executable() {
    let ctx = CommandCtx::build(make_cmd("default", None, false)).unwrap();
    assert_eq!(ctx.bin().as_str(), "cat");
}

#[test]
fn trailing_fragment_is_never_emitted() {
    let mut ctx = CommandCtx::build(make_cmd("default", None, false)).unwrap();
    let out = ctx.step(b"whole\nfragment without end", ProcessStatus::Running);
    assert_eq!(out, wrapped("0", "whole"));
}

#[test]
fn empty_lines_are_lines_too() {
    let mut ctx = CommandCtx::build(make_cmd("default", None, false)).unwrap();
    let out = ctx.step(b"\n\n", ProcessStatus::Running);
    let mut expected = wrapped("0", "");
    expected.extend_from_slice(&wrapped("0", ""));
    assert_eq!(out, expected);
}

#[test]
fn chunk_split_inside_a_multibyte_character_is_harmless() {
    let mut ctx = CommandCtx::build(make_cmd("default", None, false)).unwrap();
    let text = "héllo\n".as_bytes();
    // Split in the middle of the two-byte é.
    let first = ctx.step(&text[..2], ProcessStatus::Running);
    assert_eq!(first, Vec::<u8>::new());
    let second = ctx.step(&text[2..], ProcessStatus::Running);
    assert_eq!(second, wrapped("0", "héllo"));
}
