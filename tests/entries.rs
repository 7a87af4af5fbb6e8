use dmm::config::{BinPath, Entry, Run, Shell};
use dmm::imstr::ImStr;
use dmm::resolve::{build_entries, expand_home, has_unique_names, Discovered, RunEntry};

fn s(text: &str) -> ImStr {
    ImStr::from(text)
}

fn full(name: &str, run: &str, group: i64) -> Entry {
    Entry::Full { name: s(name), run: Run::Shell(s(run)), group }
}

fn found(path: &str, name: &str) -> Discovered {
    Discovered { path: s(path), name: s(name) }
}

fn scan(replace: bool, group: i64) -> BinPath {
    BinPath::Enabled { path: Vec::new(), env: false, replace, recursive: false, group }
}

fn names(entries: &[RunEntry]) -> Vec<(String, i64)> {
    entries.iter().map(|e| (e.name.as_str().to_string(), e.group)).collect()
}

fn shell_text(run: &Run) -> Option<String> {
    match run {
        Run::Shell(t) => Some(t.as_str().to_string()),
        Run::Bare(_) => None,
    }
}

fn bare_args(run: &Run) -> Option<Vec<String>> {
    match run {
        Run::Bare(v) => Some(v.iter().map(|a| a.as_str().to_string()).collect()),
        Run::Shell(_) => None,
    }
}

#[test]
fn ordering_group_then_case_insensitive_name() {
    let entries = vec![full("b", "b", 0), full("A", "A", 0), full("a", "a", 1)];
    let r = build_entries(&entries, &Shell::default(), &BinPath::Disabled, &Vec::new());
    assert_eq!(
        names(&r),
        vec![("a".to_string(), 1), ("A".to_string(), 0), ("b".to_string(), 0)]
    );
}

#[test]
fn ordering_exact_case_breaks_ties() {
    let entries = vec![full("b", "x", 0), full("B", "x", 0), full("a", "x", 0), full("c", "x", -1)];
    let r = build_entries(&entries, &Shell::default(), &BinPath::Disabled, &Vec::new());
    assert_eq!(
        names(&r),
        vec![
            ("a".to_string(), 0),
            ("B".to_string(), 0),
            ("b".to_string(), 0),
            ("c".to_string(), -1)
        ]
    );
}

#[test]
fn replace_runs_discovered_binary() {
    let entries = vec![full("x", "echo hi", 3)];
    let d = vec![found("/usr/bin/x", "x")];
    let r = build_entries(&entries, &Shell::default(), &scan(true, 0), &d);
    assert_eq!(r.len(), 1);
    assert_eq!(r[0].name.as_str(), "x");
    assert_eq!(bare_args(&r[0].run), Some(vec!["/usr/bin/x".to_string()]));
    assert_eq!(r[0].group, 3);
}

#[test]
fn without_replace_configured_command_stays() {
    let entries = vec![full("x", "echo hi", 0)];
    let d = vec![found("/usr/bin/x", "x")];
    let r = build_entries(&entries, &Shell::default(), &scan(false, 0), &d);
    assert_eq!(r.len(), 1);
    assert_eq!(shell_text(&r[0].run), Some("echo hi".to_string()));
}

#[test]
fn filter_hides_discovered_binary() {
    let entries = vec![Entry::Filter(s("y")), full("z", "echo z", 0)];
    let d = vec![found("/usr/bin/y", "y"), found("/usr/bin/w", "w")];
    for replace in [false, true] {
        let r = build_entries(&entries, &Shell::default(), &scan(replace, 0), &d);
        assert!(r.iter().all(|e| e.name.as_str() != "y"));
        assert_eq!(names(&r), vec![("w".to_string(), 0), ("z".to_string(), 0)]);
    }
    let r = build_entries(&entries, &Shell::default(), &BinPath::Disabled, &d);
    assert_eq!(names(&r), vec![("z".to_string(), 0)]);
}

#[test]
fn first_discovery_wins() {
    let d = vec![found("/a/tool", "tool"), found("/b/tool", "tool")];
    let r = build_entries(&Vec::new(), &Shell::default(), &scan(false, 5), &d);
    assert_eq!(r.len(), 1);
    assert_eq!(bare_args(&r[0].run), Some(vec!["/a/tool".to_string()]));
    assert_eq!(r[0].group, 5);
}

#[test]
fn bare_name_runs_through_shell_when_enabled() {
    let entries = vec![Entry::Name(s("htop"))];
    let r = build_entries(&entries, &Shell::default(), &BinPath::Disabled, &Vec::new());
    assert_eq!(shell_text(&r[0].run), Some("htop".to_string()));
    let r = build_entries(&entries, &Shell::Disabled, &BinPath::Disabled, &Vec::new());
    assert_eq!(bare_args(&r[0].run), Some(vec!["htop".to_string()]));
}

#[test]
fn disabled_scan_ignores_discoveries() {
    let d = vec![found("/usr/bin/ls", "ls")];
    let r = build_entries(&Vec::new(), &Shell::default(), &BinPath::Disabled, &d);
    assert!(r.is_empty());
}

#[test]
fn run_entry_from_entry() {
    assert!(RunEntry::try_from(Entry::Filter(s("q")), true).is_none());
    let e = RunEntry::try_from(full("n", "echo", 2), false).unwrap();
    assert_eq!(e.group, 2);
    assert_eq!(shell_text(&e.run), Some("echo".to_string()));
}

#[test]
fn home_relative_paths() {
    assert_eq!(expand_home("~/bin", "/home/me"), "/home/me/bin");
    assert_eq!(expand_home("~/bin", "/home/me/"), "/home/me/bin");
    assert_eq!(expand_home("/opt/bin", "/home/me"), "/opt/bin");
    assert_eq!(expand_home("~bin", "/home/me"), "~bin");
    assert_eq!(expand_home("~//abs", "/home/me"), "/abs");
}

#[test]
fn unique_name_check() {
    assert!(has_unique_names(&vec![full("a", "x", 0), full("b", "x", 0)]));
    assert!(!has_unique_names(&vec![full("a", "x", 0), Entry::Filter(s("a"))]));
    assert!(has_unique_names(&Vec::new()));
}

#[test]
fn many_discovered_executables() {
    let d: Vec<Discovered> = (0..3000)
        .rev()
        .map(|i| found(&format!("/usr/bin/tool{i:04}"), &format!("tool{i:04}")))
        .collect();
    let entries = vec![Entry::Filter(s("tool0005")), full("tool0007", "echo seven", 1)];
    let r = build_entries(&entries, &Shell::default(), &scan(true, 0), &d);
    assert_eq!(r.len(), 2999);
    assert_eq!(r[0].name.as_str(), "tool0007");
    assert_eq!(r[0].group, 1);
    assert_eq!(bare_args(&r[0].run), Some(vec!["/usr/bin/tool0007".to_string()]));
    assert_eq!(r[1].name.as_str(), "tool0000");
    assert!(r.windows(2).skip(1).all(|w| w[0].name.as_str() < w[1].name.as_str()));
}
