use dmm::config::{Custom, Numbered, Run, Separator, Shell};
use dmm::imstr::ImStr;
use dmm::launch::{command_action, Action, Executor, Outcome};
use dmm::menu::{display_entries, resolve_choice, resolve_selection, SelectionError};
use dmm::resolve::RunEntry;
use dmm::tag::{Binary, Decimal, Tag, SEP};

fn s(text: &str) -> ImStr {
    ImStr::from(text)
}

fn entry(name: &str, run: Run) -> RunEntry {
    RunEntry { name: s(name), run, group: 0 }
}

fn tag_of<T: Tag>(n: usize) -> String {
    let mut t = String::new();
    T::push_tag(n, &mut t);
    t
}

fn shell_text(run: &Run) -> Option<String> {
    match run {
        Run::Shell(t) => Some(t.as_str().to_string()),
        Run::Bare(_) => None,
    }
}

#[test]
fn display_compact_lines() {
    let entries = vec![entry("a", Run::Shell(s("x"))), entry("b", Run::Shell(s("y")))];
    let text = display_entries::<Binary>(&Numbered::Disabled, &entries);
    assert_eq!(text, format!("a{}\nb{}\n", tag_of::<Binary>(0), tag_of::<Binary>(1)));
}

#[test]
fn display_numbered_lines() {
    let entries = vec![entry("a", Run::Shell(s("x"))), entry("b", Run::Shell(s("y")))];
    let numbered = Numbered::Enabled(Separator::default());
    let text = display_entries::<Decimal>(&numbered, &entries);
    assert_eq!(text, format!("{SEP}0{SEP}: a\n{SEP}1{SEP}: b\n"));
    let bare = Numbered::Enabled(Separator::Disabled);
    let text = display_entries::<Decimal>(&bare, &entries);
    assert_eq!(text, format!("{SEP}0{SEP}a\n{SEP}1{SEP}b\n"));
}

#[test]
fn tagged_line_selects_entry() {
    let entries = vec![entry("same", Run::Shell(s("one"))), entry("same", Run::Shell(s("two")))];
    let line = format!("same{}", tag_of::<Binary>(1));
    let r = resolve_choice::<Binary>(&line, &entries, &Custom::Disabled);
    assert_eq!(shell_text(&r.ok().unwrap()), Some("two".to_string()));
}

#[test]
fn ad_hoc_line_runs_trimmed_when_enabled() {
    let r = resolve_choice::<Binary>("  echo hi \t", &Vec::new(), &Custom::Enabled);
    assert_eq!(shell_text(&r.ok().unwrap()), Some("echo hi".to_string()));
}

#[test]
fn ad_hoc_line_rejected_when_disabled() {
    let r = resolve_choice::<Binary>("  echo hi ", &Vec::new(), &Custom::Disabled);
    match r {
        Err(SelectionError::AdHocRejected(line)) => assert_eq!(line.as_str(), "echo hi"),
        _ => panic!("expected the line to be rejected"),
    }
}

#[test]
fn unknown_tag_is_reported() {
    let line = format!("ghost{}", tag_of::<Binary>(9));
    match resolve_choice::<Binary>(&line, &Vec::new(), &Custom::Enabled) {
        Err(SelectionError::UnknownTag(i)) => assert_eq!(i, 9),
        _ => panic!("expected an unknown tag"),
    }
}

#[test]
fn selection_skips_blank_lines() {
    let entries = vec![entry("a", Run::Shell(s("run-a")))];
    let out = format!("a{}\n\n   \nfree text\n", tag_of::<Binary>(0));
    let r = resolve_selection::<Binary>(&out, &entries, &Custom::Disabled);
    assert_eq!(r.len(), 2);
    assert_eq!(shell_text(r[0].as_ref().ok().unwrap()), Some("run-a".to_string()));
    assert!(matches!(&r[1], Err(SelectionError::AdHocRejected(t)) if t.as_str() == "free text"));
    assert!(resolve_selection::<Binary>("", &entries, &Custom::Enabled).is_empty());
}

fn spawn_parts(a: &Action) -> Option<(String, Vec<String>, Option<String>)> {
    match a {
        Action::Spawn { program, args, input } => Some((
            program.as_str().to_string(),
            args.iter().map(|x| x.as_str().to_string()).collect(),
            input.as_ref().map(|x| x.as_str().to_string()),
        )),
        _ => None,
    }
}

#[test]
fn bare_command_action() {
    let run = Run::Bare(vec![s("ls"), s("-l")]);
    let a = command_action(&run, &Shell::Disabled);
    assert_eq!(spawn_parts(&a), Some(("ls".to_string(), vec!["-l".to_string()], None)));
    assert!(matches!(command_action(&Run::Bare(Vec::new()), &Shell::Disabled), Action::Nothing));
}

#[test]
fn shell_command_actions() {
    let run = Run::Shell(s("echo hi"));
    let a = command_action(&run, &Shell::default());
    assert_eq!(
        spawn_parts(&a),
        Some(("sh".to_string(), vec!["-c".to_string(), "echo hi".to_string()], None))
    );
    let piped = Shell::Enabled { shell: vec![s("bash")], piped: true };
    let a = command_action(&run, &piped);
    assert_eq!(spawn_parts(&a), Some(("bash".to_string(), vec![], Some("echo hi".to_string()))));
    match command_action(&run, &Shell::Disabled) {
        Action::ShellDisabled(t) => assert_eq!(t.as_str(), "echo hi"),
        _ => panic!("expected the shell to be disabled"),
    }
    assert!(matches!(command_action(&Run::Shell(s("")), &Shell::default()), Action::Nothing));
}

#[test]
fn executor_isolates_failures() {
    let runs = vec![
        Run::Bare(vec![s("first")]),
        Run::Bare(vec![s("/nonexistent/second")]),
        Run::Bare(vec![s("third")]),
    ];
    let mut exec = Executor::new(runs, Shell::default());
    let mut attempted = Vec::new();
    while let Some((i, action)) = exec.next_action() {
        let (program, _, _) = spawn_parts(&action).unwrap();
        attempted.push(program.clone());
        let outcome = if program.starts_with("/nonexistent") {
            Outcome::Failed
        } else {
            Outcome::Started
        };
        exec.report(i, outcome);
    }
    assert_eq!(attempted, vec!["first", "/nonexistent/second", "third"]);
    assert_eq!(exec.failed(), &vec![1]);
    assert!(exec.is_done());
}
