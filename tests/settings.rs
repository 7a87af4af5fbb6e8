use dmm::config::{display_bare, BinPath, Custom, Entry, Numbered, Run, Separator, Shell};
use dmm::imstr::ImStr;
use dmm::settings::{Config, ConfigError, ConfigValue, Field, Origin};

fn s(text: &str) -> ConfigValue {
    ConfigValue::String(ImStr::from(text))
}

fn table(fields: Vec<(&str, ConfigValue)>) -> ConfigValue {
    ConfigValue::Table(
        fields
            .into_iter()
            .map(|(k, v)| Field { key: ImStr::from(k), value: v })
            .collect(),
    )
}

fn shell_words(shell: &Shell) -> Option<(Vec<String>, bool)> {
    match shell {
        Shell::Enabled { shell, piped } => {
            Some((shell.iter().map(|w| w.as_str().to_string()).collect(), *piped))
        }
        Shell::Disabled => None,
    }
}

#[test]
fn entry_forms() {
    let name = || ImStr::from("x");
    assert!(matches!(Entry::try_new(name(), &ConfigValue::Boolean(true)), Ok(Entry::Name(_))));
    assert!(matches!(Entry::try_new(name(), &ConfigValue::Boolean(false)), Ok(Entry::Filter(_))));
    match Entry::try_new(name(), &s("echo hi")) {
        Ok(Entry::Full { run: Run::Shell(t), group: 0, .. }) => assert_eq!(t.as_str(), "echo hi"),
        _ => panic!("a string is a shell command"),
    }
    match Entry::try_new(name(), &ConfigValue::Array(vec![s("ls"), s("-l")])) {
        Ok(Entry::Full { run: Run::Bare(v), .. }) => assert_eq!(v.len(), 2),
        _ => panic!("an array is a bare command"),
    }
    let t = table(vec![("run", s("echo")), ("group", ConfigValue::Integer(-2))]);
    assert!(matches!(Entry::try_new(name(), &t), Ok(Entry::Full { group: -2, .. })));
}

#[test]
fn entry_errors() {
    let name = || ImStr::from("x");
    match Entry::try_new(name(), &ConfigValue::Integer(3)) {
        Err(e) => assert_eq!(
            e.message(),
            "`menu.x` must be of type `string`, `array`, `boolean`, or `table`, but is of type `integer`"
        ),
        Ok(_) => panic!("an integer is no entry"),
    }
    match Entry::try_new(name(), &table(vec![("group", ConfigValue::Integer(1))])) {
        Err(e) => assert_eq!(e.message(), "`menu.x.run` must have a value if `menu.x` is a table"),
        Ok(_) => panic!("a table needs a run"),
    }
    match Entry::try_new(name(), &ConfigValue::Array(vec![s("ls"), ConfigValue::Integer(1)])) {
        Err(e) => assert_eq!(
            e.message(),
            "the array `menu.x` must only contain elements of type `string`, but an element is of type `integer`"
        ),
        Ok(_) => panic!("arrays hold strings"),
    }
    let bad_group = table(vec![("run", s("echo")), ("group", s("one"))]);
    match Entry::try_new(name(), &bad_group) {
        Err(e) => assert_eq!(e.message(), "`menu.x.group` must be of type `integer`, but is of type `string`"),
        Ok(_) => panic!("a group is an integer"),
    }
    let bad_run = table(vec![("run", ConfigValue::Other(ImStr::new("float")))]);
    match Entry::try_new(name(), &bad_run) {
        Err(e) => assert_eq!(
            e.message(),
            "`menu.x.run` must be of type `string`, `array`, or `boolean`, but is of type `float`"
        ),
        Ok(_) => panic!("a float is no command"),
    }
}

#[test]
fn policies() {
    assert!(matches!(Shell::try_from(&ConfigValue::Boolean(false)), Ok(Shell::Disabled)));
    let piped = table(vec![
        ("shell", ConfigValue::Array(vec![s("bash")])),
        ("piped", ConfigValue::Boolean(true)),
    ]);
    assert_eq!(
        shell_words(&Shell::try_from(&piped).ok().unwrap()),
        Some((vec!["bash".to_string()], true))
    );
    match Shell::try_from(&s("sh")) {
        Err(e) => assert_eq!(
            e.message(),
            "`config.shell` must be of type `boolean`, `array`, or `table`, but is of type `string`"
        ),
        Ok(_) => panic!("a string is no shell"),
    }
    assert!(matches!(Custom::try_from(&ConfigValue::Boolean(true)), Ok(Custom::Enabled)));
    assert!(matches!(Custom::try_from(&ConfigValue::Boolean(false)), Ok(Custom::Disabled)));
    let numbered = table(vec![("numbered", ConfigValue::Boolean(true)), ("separator", s(" | "))]);
    assert_eq!(Numbered::try_from(&numbered).ok().unwrap().separator(), " | ");
    assert!(matches!(Separator::try_from(&ConfigValue::Boolean(false)), Ok(Separator::Disabled)));
    match Numbered::try_from(&ConfigValue::Integer(1)) {
        Err(e) => assert_eq!(
            e.message(),
            "`config.numbered` must be of type `boolean` or `table`, but is of type `integer`"
        ),
        Ok(_) => panic!("a number is no policy"),
    }
    match BinPath::try_from(&ConfigValue::Boolean(true)) {
        Ok(BinPath::Enabled { env: true, replace: false, recursive: false, group: 0, path }) => {
            assert!(path.is_empty())
        }
        _ => panic!("true scans PATH"),
    }
    let scan = table(vec![
        ("path", ConfigValue::Array(vec![s("~/bin")])),
        ("replace", ConfigValue::Boolean(true)),
        ("group", ConfigValue::Integer(-1)),
    ]);
    assert!(matches!(
        BinPath::try_from(&scan),
        Ok(BinPath::Enabled { env: false, replace: true, group: -1, .. })
    ));
}

#[test]
fn dmenu_options() {
    let t = table(vec![
        ("prompt", s("go:")),
        ("lines", ConfigValue::Integer(5)),
        ("case-sensitive", ConfigValue::Boolean(true)),
    ]);
    let d = dmm::config::Dmenu::try_from(&t).ok().unwrap();
    assert_eq!(d.prompt.unwrap().as_str(), "go:");
    assert_eq!(d.lines, Some(5));
    assert!(d.case_sensitive);
    let negative = table(vec![("monitor", ConfigValue::Integer(-1))]);
    match dmm::config::Dmenu::try_from(&negative) {
        Err(e) => assert_eq!(e.message(), "`config.dmenu.monitor` must be a positive integer, but is negative"),
        Ok(_) => panic!("monitors are not negative"),
    }
}

#[test]
fn config_merges_home() {
    let config = table(vec![
        ("menu", table(vec![("a", s("echo a")), ("b", ConfigValue::Boolean(false))])),
        ("config", table(vec![("custom", ConfigValue::Boolean(true))])),
    ]);
    let home = table(vec![
        ("menu", table(vec![("a", s("echo home")), ("c", s("echo c"))])),
        ("config", table(vec![
            ("custom", ConfigValue::Boolean(false)),
            ("shell", ConfigValue::Boolean(false)),
            ("dmenu", table(vec![("prompt", s("home:")), ("fast", ConfigValue::Boolean(true))])),
        ])),
    ]);
    let c = Config::try_new(&config, Some(&home)).ok().unwrap();
    let names: Vec<String> = c.entries.iter().map(|e| e.name().as_str().to_string()).collect();
    assert_eq!(names, vec!["a", "b", "c"]);
    match &c.entries[0] {
        Entry::Full { run: Run::Shell(t), .. } => assert_eq!(t.as_str(), "echo a"),
        _ => panic!("the main config wins"),
    }
    assert!(matches!(c.custom, Custom::Enabled));
    assert!(matches!(c.shell, Shell::Disabled));
    assert!(matches!(c.numbered, Numbered::Disabled));
    assert!(matches!(c.path, BinPath::Disabled));
    assert_eq!(c.dmenu.prompt.as_ref().unwrap().as_str(), "home:");
    assert!(c.dmenu.fast);
}

#[test]
fn config_defaults_and_problems() {
    let c = Config::try_new(&table(vec![]), None).ok().unwrap();
    assert!(c.entries.is_empty());
    assert_eq!(shell_words(&c.shell), Some((vec!["sh".to_string(), "-c".to_string()], false)));
    assert!(matches!(c.custom, Custom::Disabled));
    let bad_home = table(vec![("config", s("nope"))]);
    match Config::try_new(&table(vec![]), Some(&bad_home)) {
        Err(p) => {
            assert!(matches!(p.origin, Origin::Home));
            assert!(matches!(p.error, ConfigError::WrongType { .. }));
            assert_eq!(p.error.message(), "`config` must be of type `table`, but is of type `string`");
        }
        Ok(_) => panic!("the home config is broken"),
    }
    let bad_menu = table(vec![("menu", ConfigValue::Array(vec![]))]);
    match Config::try_new(&bad_menu, None) {
        Err(p) => assert!(matches!(p.origin, Origin::Target)),
        Ok(_) => panic!("the menu is a table"),
    }
}

#[test]
fn command_text() {
    let words = vec![ImStr::new("ls"), ImStr::new("-l"), ImStr::new("/tmp")];
    assert_eq!(display_bare(&words), "ls -l /tmp");
    assert_eq!(display_bare(&Vec::new()), "");
    assert_eq!(Run::Bare(words).to_text(), "ls -l /tmp");
    assert_eq!(Run::Shell(ImStr::new("echo hi")).to_text(), "echo hi");
}
