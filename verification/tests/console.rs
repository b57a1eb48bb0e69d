//! The script console.

use articara::editor::console::{ScriptConsole, ScriptLine, Submission, HELP, LOG_LIMIT};

fn shown(c: &ScriptConsole) -> Vec<String> {
    c.output
        .iter()
        .map(|l| match l {
            ScriptLine::Input(s) => format!("> {s}"),
            ScriptLine::Output(s) => format!("= {s}"),
            ScriptLine::Error(s) => format!("! {s}"),
            ScriptLine::System(s) => format!("# {s}"),
        })
        .collect()
}

fn strings(ss: &[&str]) -> Vec<String> {
    ss.iter().map(|s| s.to_string()).collect()
}

fn typed(c: &mut ScriptConsole, line: &str) -> Submission {
    c.input = line.to_string();
    c.submit()
}

#[test]
fn greets_once() {
    let mut c = ScriptConsole::new();
    assert!(c.start());
    assert!(!c.start());
    assert_eq!(shown(&c), vec!["# Articara Script Console (Rhai)  — type help() for commands"]);
    assert!(c.scroll_to_bottom);
}

#[test]
fn a_line_is_echoed_and_handed_on() {
    let mut c = ScriptConsole::new();
    assert!(matches!(c.submit(), Submission::Nothing));
    match typed(&mut c, "  fk() ") {
        Submission::Evaluate(s) => assert_eq!(s, "  fk() "),
        _ => panic!("not handed on"),
    }
    c.finish(Ok(strings(&["a", "b"])));
    typed(&mut c, "bad");
    c.finish(Err("no such thing".to_string()));
    assert_eq!(shown(&c), vec![">   fk() ", "= a", "= b", "> bad", "! no such thing"]);
    assert_eq!(c.history, strings(&["  fk() ", "bad"]));
    assert_eq!(c.input, "");
}

#[test]
fn commands_of_the_console() {
    let mut c = ScriptConsole::new();
    assert!(matches!(typed(&mut c, " help() "), Submission::Handled));
    assert_eq!(c.output.len(), HELP.len());
    assert_eq!(shown(&c)[2], "#   Model:");
    // No-break and narrow spaces are white space too.
    assert!(matches!(typed(&mut c, "\u{A0}clear\u{2003}"), Submission::Handled));
    assert!(c.output.is_empty());
    assert!(matches!(typed(&mut c, "help"), Submission::Handled));
    assert!(matches!(typed(&mut c, "clear()"), Submission::Handled));
    assert!(matches!(typed(&mut c, "clear x"), Submission::Evaluate(_)));
    c.clear();
    assert!(c.output.is_empty());
}

#[test]
fn history_is_walked_both_ways() {
    let mut c = ScriptConsole::new();
    c.key_up();
    assert_eq!(c.history_idx, 0);
    for line in ["one", "two", "two", "three"] {
        typed(&mut c, line);
    }
    assert_eq!(c.history, strings(&["one", "two", "three"]));
    let mut seen = vec![];
    for _ in 0..4 {
        c.key_up();
        seen.push(c.input.clone());
    }
    assert_eq!(seen, strings(&["three", "two", "one", "one"]));
    c.key_down();
    assert_eq!(c.input, "two");
    c.key_down();
    c.key_down();
    assert_eq!((c.input.as_str(), c.history_idx), ("", 0));
}

#[test]
fn the_log_keeps_its_last_lines() {
    let mut c = ScriptConsole::new();
    typed(&mut c, "x");
    let many: Vec<String> = (0..LOG_LIMIT + 5).map(|i| format!("{i}")).collect();
    c.finish(Ok(many));
    assert_eq!(c.output.len(), LOG_LIMIT);
    assert_eq!(shown(&c)[0], "= 5");
    assert_eq!(shown(&c)[LOG_LIMIT - 1], format!("= {}", LOG_LIMIT + 4));
}

#[test]
fn files_are_announced_echoed_and_run() {
    let mut c = ScriptConsole::new();
    c.announce_file("a.rhai");
    c.echo_source("let x = 1;\r\n\nx\n");
    c.finish_file(Ok(strings(&["1"])));
    c.unreadable_file("b.rhai", "not found");
    assert_eq!(
        shown(&c),
        vec![
            "# ── Running script: a.rhai ──",
            "> let x = 1;",
            "> ",
            "> x",
            "= 1",
            "! Failed to read b.rhai: not found",
        ]
    );
}

#[test]
fn a_single_completion_is_taken() {
    let mut c = ScriptConsole::new();
    c.input = "print(joint_na".to_string();
    c.complete(&strings(&["joint_names", "joint_pos", "link_names"]));
    assert_eq!(c.input, "print(joint_names");
    assert!(c.output.is_empty());
    // The finished word has nothing more to offer.
    c.complete(&strings(&["joint_names"]));
    assert_eq!(c.input, "print(joint_names");
}

#[test]
fn several_completions_are_listed() {
    let all = ["set_kp", "set_kp_all", "set_kv", "set_kv_all", "set_joint", "set_joints", "set_x"];
    let mut c = ScriptConsole::new();
    c.input = "a+se".to_string();
    c.complete(&strings(&all));
    assert_eq!(c.input, "a+set_");
    assert_eq!(c.tab_candidates, strings(&all));
    assert_eq!(
        shown(&c),
        vec!["# set_kp  set_kp_all  set_kv  set_kv_all  set_joint  set_joints\nset_x"]
    );
}

#[test]
fn letters_beyond_ascii_belong_to_a_word() {
    let mut c = ScriptConsole::new();
    c.input = "x-größ".to_string();
    c.complete(&strings(&["größe"]));
    assert_eq!(c.input, "x-größe");
    // Nothing to complete behind a space, or without a match.
    c.input = "größ ".to_string();
    c.complete(&strings(&["größe"]));
    assert_eq!(c.input, "größ ");
    c.input = "zz".to_string();
    c.complete(&strings(&["größe"]));
    assert_eq!(c.input, "zz");
}
