use dmm::config::{Dmenu, Entry, Numbered, Run, Separator, Shell};
use dmm::imstr::ImStr;

#[test]
fn dmenu_args_in_order() {
    let mut d = Dmenu::default();
    d.prompt = Some(ImStr::new("run:"));
    d.lines = Some(10);
    d.bottom = true;
    d.monitor = Some(0);
    let args: Vec<String> = d.args().iter().map(|a| a.as_str().to_string()).collect();
    assert_eq!(args, vec!["-b", "-i", "-p", "run:", "-l", "10", "-m", "0"]);
    let mut quiet = Dmenu::default();
    quiet.case_sensitive = true;
    assert!(quiet.args().is_empty());
}

#[test]
fn dmenu_merge_prefers_own_options() {
    let mut mine = Dmenu::default();
    mine.prompt = Some(ImStr::new("mine"));
    let mut home = Dmenu::default();
    home.prompt = Some(ImStr::new("home"));
    home.font = Some(ImStr::new("mono"));
    home.fast = true;
    let m = mine.merge(home);
    assert_eq!(m.prompt.unwrap().as_str(), "mine");
    assert_eq!(m.font.unwrap().as_str(), "mono");
    assert!(m.fast);
}

#[test]
fn defaults() {
    match Shell::default() {
        Shell::Enabled { shell, piped } => {
            assert!(!piped);
            let words: Vec<&str> = shell.iter().map(|w| w.as_str()).collect();
            assert_eq!(words, vec!["sh", "-c"]);
        }
        Shell::Disabled => panic!("the shell is enabled by default"),
    }
    assert_eq!(Numbered::Enabled(Separator::default()).separator(), ": ");
    assert_eq!(Numbered::Disabled.separator(), "");
    assert!(!Numbered::default().is_enabled());
}

#[test]
fn entry_names_and_binary() {
    let e = Entry::Filter(ImStr::new("hidden"));
    assert_eq!(e.name().as_str(), "hidden");
    match Run::binary(ImStr::new("/bin/true")) {
        Run::Bare(v) => assert_eq!(v.len(), 1),
        Run::Shell(_) => panic!("binary runs bare"),
    }
    assert!(ImStr::from("abc") == ImStr::new("abc"));
    assert!(ImStr::from("abc") != ImStr::new("abd"));
}
