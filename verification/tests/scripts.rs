//! Scripts: their headers, their output, how they are found and how they run.

use tessera::config::scripts::{set_autostart, Header, Mode, HEADER_LINES};
use tessera::config::values::ConfigValues;
use tessera::ipc::{Event, ExitStatus, OutputLine, RunMode, ScriptState};
use tessera::scripts::discover::{is_ignored, names_script, scan, Discovered, FolderEntry};
use tessera::scripts::list::{millis_since, Script, Scripts};
use tessera::scripts::output::{clean, OutputBuffer, MAX_LINES, MAX_LINE_BYTES};
use tessera::session::input::{Action, KeyName, Mods};

const EXAMPLE: &str = "#!/bin/sh
# tessera: name = \"Sync notes\"
# tessera: description = \"Push ~/notes to the remote and pull changes\"
# tessera: mode = \"background\"        # background | terminal
# tessera: bind = \"Mod+Shift+N\"
# tessera: autostart = false
set -eu
cd ~/notes && git pull --rebase && git push
";

#[test]
fn the_design_example_parses() {
    let header = Header::parse(EXAMPLE);
    assert_eq!(header.name.as_deref(), Some("Sync notes"));
    assert_eq!(
        header.description.as_deref(),
        Some("Push ~/notes to the remote and pull changes")
    );
    assert_eq!(header.mode, Mode::Background);
    assert_eq!(header.bind.as_deref(), Some("Mod+Shift+N"));
    assert!(!header.autostart);
    assert!(header.problems.is_empty(), "{:?}", header.problems);
}

#[test]
fn a_script_without_a_header_gets_defaults() {
    let header = Header::parse("#!/bin/sh\necho hi\n");
    assert_eq!(header, Header::default());
}

#[test]
fn bare_words_and_spacing_variations_are_accepted() {
    let header = Header::parse("#tessera:mode=terminal\n  #  tessera: autostart = true\n");
    assert_eq!(header.mode, Mode::Terminal);
    assert!(header.autostart);
    assert!(header.problems.is_empty(), "{:?}", header.problems);
}

#[test]
fn malformed_lines_are_reported_and_skipped() {
    let header = Header::parse(
        "#!/bin/sh
# tessera: name \"no equals sign\"
# tessera: mode = \"sideways\"
# tessera: colour = \"blue\"
# tessera: autostart = \"yes\"
# tessera: bind = \"Shift+N\"
# tessera: name = \"Still read\"
",
    );
    assert_eq!(header.name.as_deref(), Some("Still read"), "good lines still apply");
    assert_eq!(header.problems.len(), 5, "{:#?}", header.problems);
    assert!(header.problems[0].starts_with("line 2:"));
    assert!(header.problems[1].contains("sideways"));
    assert!(header.problems[2].contains("colour"));
    assert!(header.problems[3].contains("true or false"));
    assert!(header.problems[4].contains("Mod"), "{}", header.problems[4]);
    assert_eq!(header.bind, None);
}

#[test]
fn only_the_first_twenty_lines_count() {
    let mut text = "#!/bin/sh\n".repeat(HEADER_LINES);
    text.push_str("# tessera: name = \"too late\"\n");
    assert_eq!(Header::parse(&text).name, None);
}

#[test]
fn ordinary_comments_are_not_header_lines() {
    let header = Header::parse("# this script is for tessera: it syncs\n# name = x\n");
    assert_eq!(header, Header::default());
}

#[test]
fn autostart_is_rewritten_in_place() {
    let text = set_autostart(EXAMPLE, true);
    assert!(text.contains("# tessera: autostart = true\n"), "{text}");
    assert!(!text.contains("autostart = false"));
    assert_eq!(text.lines().count(), EXAMPLE.lines().count());
    assert!(Header::parse(&text).autostart);
}

#[test]
fn a_trailing_comment_on_the_autostart_line_survives() {
    let text = set_autostart("# tessera: autostart = false  # at login\n", true);
    assert_eq!(text, "# tessera: autostart = true  # at login\n");
}

#[test]
fn autostart_is_added_after_the_header_or_the_shebang() {
    let text = set_autostart("#!/bin/sh\n# tessera: name = \"x\"\necho\n", true);
    assert_eq!(
        text,
        "#!/bin/sh\n# tessera: name = \"x\"\n# tessera: autostart = true\necho\n"
    );

    let text = set_autostart("#!/bin/sh\necho\n", true);
    assert_eq!(text, "#!/bin/sh\n# tessera: autostart = true\necho\n");

    let text = set_autostart("#!/bin/sh", true);
    assert_eq!(text, "#!/bin/sh\n# tessera: autostart = true\n");

    let text = set_autostart("echo\n", false);
    assert_eq!(text, "# tessera: autostart = false\necho\n");
}

fn push(buffer: &mut OutputBuffer, stderr: bool, bytes: &[u8]) {
    buffer.push(stderr, &bytes.to_vec());
}

fn texts(buffer: &OutputBuffer) -> Vec<String> {
    buffer.tail(MAX_LINES).into_iter().map(|line| line.text).collect()
}

#[test]
fn lines_split_on_newlines_across_reads() {
    let mut buffer = OutputBuffer::default();
    push(&mut buffer, false, b"hel");
    push(&mut buffer, false, b"lo\nwor");
    assert_eq!(texts(&buffer), ["hello"]);
    push(&mut buffer, false, b"ld\n");
    assert_eq!(texts(&buffer), ["hello", "world"]);
}

#[test]
fn stdout_and_stderr_keep_separate_partial_lines() {
    let mut buffer = OutputBuffer::default();
    push(&mut buffer, false, b"out ");
    push(&mut buffer, true, b"err\n");
    push(&mut buffer, false, b"line\n");
    let lines = buffer.tail(10);
    assert_eq!(lines[0].text, "err");
    assert!(lines[0].stderr);
    assert_eq!(lines[1].text, "out line");
    assert!(!lines[1].stderr);
}

#[test]
fn only_the_newest_lines_are_kept() {
    let mut buffer = OutputBuffer::default();
    for index in 0..MAX_LINES + 20 {
        push(&mut buffer, false, format!("{index}\n").as_bytes());
    }
    let lines = texts(&buffer);
    assert_eq!(lines.len(), MAX_LINES);
    assert_eq!(lines[0], "20");
    assert_eq!(buffer.tail(2)[..], buffer.tail(MAX_LINES)[MAX_LINES - 2..]);
}

#[test]
fn a_last_line_without_newline_is_kept_on_flush() {
    let mut buffer = OutputBuffer::default();
    push(&mut buffer, false, b"no newline");
    assert!(texts(&buffer).is_empty());
    buffer.flush(false);
    assert_eq!(texts(&buffer), ["no newline"]);
    buffer.flush(false);
    assert_eq!(texts(&buffer).len(), 1, "flushing twice adds nothing");
}

#[test]
fn colour_codes_and_carriage_returns_are_removed() {
    let mut buffer = OutputBuffer::default();
    push(&mut buffer, false, b"\x1b[1;31mred\x1b[0m done\r\n");
    assert_eq!(texts(&buffer), ["red done"]);
}

#[test]
fn endless_lines_are_split() {
    let mut buffer = OutputBuffer::default();
    push(&mut buffer, false, &vec![b'x'; MAX_LINE_BYTES * 2 + 5]);
    buffer.flush(false);
    assert_eq!(texts(&buffer).len(), 3);
}

#[test]
fn output_is_cleaned_and_decoded() {
    assert_eq!(clean("a\tb\u{7}c\u{1b}x\u{9f}"), "a    bcx");
    assert_eq!(clean("\u{1b}[31"), "", "a code that never ends takes the rest");
    let mut buffer = OutputBuffer::default();
    push(&mut buffer, false, b"caf\xc3\xa9 \xff\n");
    assert_eq!(texts(&buffer), ["café \u{fffd}"]);
    buffer.clear();
    assert!(texts(&buffer).is_empty());
}

#[test]
fn reads_may_be_cut_anywhere() {
    let bytes = b"one\ntwo\x1b[1m!\nthree";
    for at in 0..bytes.len() {
        let mut buffer = OutputBuffer::default();
        push(&mut buffer, false, &bytes[..at]);
        push(&mut buffer, false, &bytes[at..]);
        buffer.flush(false);
        assert_eq!(texts(&buffer), ["one", "two!", "three"], "cut at {at}");
    }
}

fn entry(name: &str, text: &str, mode: u32) -> FolderEntry {
    FolderEntry {
        name: Some(name.to_string()),
        path: format!("/scripts/{name}"),
        metadata: Some((true, mode)),
        head: text.as_bytes().to_vec(),
    }
}

#[test]
fn scripts_are_executables_sorted_by_title() {
    let found = scan(&vec![
        entry("zeta", "#!/bin/sh\n# tessera: name = \"Alpha\"\n", 0o755),
        entry("beta", "#!/bin/sh\n", 0o700),
        entry("notes.txt", "not a script", 0o644),
    ]);
    let names: Vec<&str> = found.iter().map(|script| script.name.as_str()).collect();
    assert_eq!(names, ["zeta", "beta"], "Alpha sorts before beta");
    assert_eq!(found[0].title(), "Alpha");
    assert_eq!(found[1].title(), "beta");
}

#[test]
fn titles_sort_whatever_their_case() {
    let found = scan(&vec![
        entry("c", "# tessera: name = \"ÉTÉ\"\n", 0o755),
        entry("b", "# tessera: name = \"beta\"\n", 0o755),
        entry("a", "# tessera: name = \"Beta\"\n", 0o755),
        entry("Zed", "", 0o755),
    ]);
    let names: Vec<&str> = found.iter().map(|script| script.name.as_str()).collect();
    assert_eq!(names, ["a", "b", "Zed", "c"], "equal titles sort by file name");
}

#[test]
fn hidden_files_and_editor_leftovers_are_skipped() {
    let mut entries: Vec<FolderEntry> = [".hidden", "backup~", "script.swp", "old.bak"]
        .iter()
        .map(|name| entry(name, "#!/bin/sh\n", 0o755))
        .collect();
    entries.push(entry("real", "#!/bin/sh\n", 0o755));
    let found = scan(&entries);
    assert_eq!(found.len(), 1);
    assert_eq!(found[0].name, "real");
    for name in ["x.swo", "x.orig", "x.tmp"] {
        assert!(is_ignored(name));
    }
    assert!(!is_ignored("swp"));
}

#[test]
fn folders_are_not_scripts() {
    let folder = FolderEntry { metadata: Some((false, 0o755)), ..entry("lib", "", 0o755) };
    assert!(scan(&vec![folder]).is_empty());
    let unreadable = FolderEntry { metadata: None, ..entry("x", "", 0o755) };
    assert!(scan(&vec![unreadable]).is_empty());
    let nameless = FolderEntry { name: None, ..entry("x", "", 0o755) };
    assert!(scan(&vec![nameless]).is_empty());
    assert!(names_script(&Some("x".to_string()), Some((true, 0o100))));
}

#[test]
fn a_missing_folder_has_no_scripts() {
    assert!(scan(&Vec::new()).is_empty());
}

#[test]
fn header_problems_travel_with_the_script() {
    let found =
        scan(&vec![entry("broken", "#!/bin/sh\n# tessera: mode = \"sideways\"\n", 0o755)]);
    assert_eq!(found[0].header.problems.len(), 1);
}

fn found(name: &str, head: &str) -> Discovered {
    Discovered {
        name: name.to_string(),
        path: format!("/scripts/{name}"),
        header: Header::parse(head),
    }
}

fn names() -> Vec<KeyName> {
    [
        ("n", 0x6e),
        ("e", 0x65),
        ("q", 0x71),
        ("a", 0x61),
        ("space", 0x20),
        ("backslash", 0x5c),
        ("Return", 0xff0d),
    ]
    .iter()
    .map(|(name, sym)| KeyName { name: name.to_string(), exact: *sym, any_case: *sym })
    .collect()
}

#[test]
fn a_run_goes_through_its_life() {
    let mut scripts = Scripts::default();
    scripts.rescan_scripts(vec![found("job", "# tessera: name = \"Job\"\n")]);
    assert_eq!(scripts.script_index("job"), Some(0));
    assert_eq!(scripts.script_index("other"), None);
    assert_eq!(scripts.mode_for(0, None), Ok(RunMode::Background));
    assert_eq!(scripts.mode_for(0, Some(RunMode::Terminal)), Ok(RunMode::Terminal));
    assert_eq!(scripts.mode_for(9, None), Err("no such script".to_string()));
    assert_eq!(scripts.may_start(0), Ok(()));
    assert_eq!(scripts.stop_script(0), Err("Job is not running".to_string()));

    let run = scripts.start_background(0, 42, 1_000, 77);
    assert_eq!(run, 1);
    assert_eq!(scripts.may_start(0), Err("Job is already running (pid 42)".to_string()));
    assert!(scripts.still_running("job", run));
    assert!(scripts.pipe_read("job", run, false, &b"hello\nwor".to_vec()));
    assert!(!scripts.pipe_read("job", run + 1, false, &b"stray\n".to_vec()));
    let (lines, running) = scripts.script_output(0, 10);
    assert_eq!(lines, vec![OutputLine { text: "hello".to_string(), stderr: false }]);
    assert!(running);
    assert_eq!(scripts.stop_script(0).map(|run| run.pid), Ok(42));
    assert_eq!(scripts.stop_all_scripts(), vec![42]);

    assert_eq!(scripts.script_process_ended("job", run + 1, Some(0), None, 9), None);
    let event = scripts.script_process_ended("job", run, None, Some(15), 1_250);
    assert_eq!(
        event,
        Some(Event::ScriptExited {
            name: "job".to_string(),
            exit: ExitStatus::Signal { signal: 15 },
            duration_ms: 250,
        })
    );
    assert_eq!(
        scripts.script(0).state,
        ScriptState::Exited {
            exit: ExitStatus::Signal { signal: 15 },
            started_at_ms: 77,
            duration_ms: 250,
        }
    );
    let (lines, running) = scripts.script_output(0, 1);
    assert_eq!(lines[0].text, "wor", "the last line is kept without its newline");
    assert!(!running);
    assert!(!scripts.still_running("job", run));
}

#[test]
fn a_newer_run_keeps_older_pipes_out() {
    let mut scripts = Scripts::default();
    scripts.rescan_scripts(vec![found("job", "")]);
    let first = scripts.start_background(0, 1, 0, 0);
    scripts.pipe_read("job", first, false, &b"old\n".to_vec());
    scripts.script_process_ended("job", first, Some(3), None, 5);
    let second = scripts.start_background(0, 2, 10, 10);
    assert!(second > first);
    assert!(!scripts.pipe_read("job", first, false, &b"late\n".to_vec()));
    scripts.pipe_closed("job", first, false);
    assert!(scripts.script_output(0, 10).0.is_empty());
    scripts.pipe_read("job", second, true, &b"new".to_vec());
    scripts.pipe_closed("job", second, true);
    assert_eq!(scripts.script_output(0, 10).0[0].text, "new");
}

#[test]
fn a_rescan_keeps_what_is_known_and_lists_what_still_runs() {
    let mut scripts = Scripts::default();
    scripts.rescan_scripts(vec![found("a", ""), found("b", ""), found("c", "")]);
    let run = scripts.start_background(1, 7, 0, 0);
    scripts.start_in_terminal(2, 99);
    scripts.rescan_scripts(vec![found("c", "# tessera: autostart = true\n"), found("d", "")]);
    let listed: Vec<String> = scripts.script_infos().into_iter().map(|info| info.name).collect();
    assert_eq!(listed, ["c", "d", "b"], "a is gone; b still runs");
    assert_eq!(scripts.script(0).state, ScriptState::InTerminal { started_at_ms: 99 });
    assert_eq!(scripts.script(1).state, ScriptState::NeverRun);
    assert!(scripts.still_running("b", run));
    assert_eq!(scripts.autostart(), vec![0]);
    assert_eq!(scripts.len(), 3);
}

#[test]
fn clashing_script_keys_are_noted_with_the_scripts() {
    let mut scripts = Scripts::default();
    scripts.rescan_scripts(vec![
        found("good", "# tessera: bind = \"Mod+Shift+N\"\n"),
        found("bad", "# tessera: bind = \"Mod+Shift+E\"\n"),
    ]);
    let bindings = scripts.rebuild_bindings(&ConfigValues::default(), &names());
    assert_eq!(
        bindings.get(Mods::new(true, true, false), Some(0x6e)),
        Some(Action::RunScript(0))
    );
    assert_eq!(bindings.get(Mods::new(true, true, false), Some(0x65)), Some(Action::Quit));
    let infos = scripts.script_infos();
    assert_eq!(infos[0].bind.as_deref(), Some("Mod+Shift+N"));
    assert!(infos[0].problems.is_empty());
    assert_eq!(infos[1].bind, None);
    assert!(infos[1].problems[0].contains("quit Tessera"), "{:?}", infos[1].problems);
}

#[test]
fn one_rescan_waits_at_a_time() {
    let mut scripts = Scripts::default();
    assert!(scripts.schedule_rescan());
    assert!(!scripts.schedule_rescan());
    scripts.rescan_due();
    assert!(scripts.schedule_rescan());
}

#[test]
fn elapsed_time_never_goes_back() {
    assert_eq!(millis_since(100, 350), 250);
    assert_eq!(millis_since(100, 50), 0);
    let script = Script::new(found("x", ""));
    assert_eq!(script.info().title, "x");
}

#[test]
fn what_was_set_reads_back() {
    let odd = "#!/bin/sh\r\n  #\ttessera:\tautostart\t=  maybe # at login\r\necho\r\n";
    for on in [true, false] {
        for text in ["", "#!/bin/sh", "echo\n", EXAMPLE, odd] {
            let set = set_autostart(text, on);
            assert_eq!(Header::parse(&set).autostart, on, "{set:?}");
        }
    }
    assert_eq!(
        set_autostart(odd, true),
        "#!/bin/sh\r\n  #\ttessera:\tautostart\t= true  # at login\r\necho\r\n"
    );
}

#[test]
fn the_last_autostart_line_decides() {
    let text = "# tessera: autostart = true\n# tessera: autostart = false\n";
    assert!(!Header::parse(text).autostart);
    let set = set_autostart(text, false);
    assert_eq!(set, "# tessera: autostart = false\n# tessera: autostart = false\n");
    let set = set_autostart(&set, true);
    assert_eq!(set, "# tessera: autostart = true\n# tessera: autostart = true\n");
    assert!(Header::parse(&set).autostart);
}

#[test]
fn only_a_line_that_is_too_long_is_split() {
    let mut buffer = OutputBuffer::default();
    let mut bytes = vec![b'x'; 4096];
    bytes.push(b'\n');
    push(&mut buffer, false, &bytes);
    assert_eq!(texts(&buffer), ["x".repeat(4096)]);

    let mut buffer = OutputBuffer::default();
    let mut bytes = vec![b'x'; 4097];
    bytes.push(b'\n');
    push(&mut buffer, true, &bytes);
    assert_eq!(texts(&buffer), ["x".repeat(4096), "x".to_string()]);
}

#[test]
fn setting_autostart_again_overrides_it_and_keeps_the_rest_of_the_header() {
    let commented = "# tessera: autostart = \"a#b\"  # c\n# tessera: bind = \"Mod+n\"";
    for text in ["", "#!/bin/sh", "echo", EXAMPLE, commented] {
        let old = Header::parse(text);
        for (a, b) in [(true, true), (true, false), (false, true), (false, false)] {
            let once = set_autostart(text, a);
            assert_eq!(set_autostart(&once, b), set_autostart(text, b), "{text:?}");
            let new = Header::parse(&once);
            assert_eq!(new.autostart, a, "{once:?}");
            assert_eq!(
                (new.name, new.description, new.mode, new.bind),
                (old.name.clone(), old.description.clone(), old.mode, old.bind.clone())
            );
        }
    }
}
