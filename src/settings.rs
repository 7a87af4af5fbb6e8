//! Reading the configuration from a parsed configuration document: menu
//! entries and policies, each checked for its type.

use vstd::prelude::*;
use crate::config::{
    strs_view, BinPath, BinPathView, Custom, Dmenu, DmenuView, Entry, dmenu_default, dmenu_merge, EntryView, Numbered, Run, RunView,
    Separator, Shell, ShellView, numbered_view, opt_view, separator_view,
};
use crate::imstr::ImStr;

verus! {

/// A value of a configuration document.
#[derive(Debug)]
pub enum ConfigValue {
    String(ImStr),
    Integer(i64),
    Boolean(bool),
    Array(Vec<ConfigValue>),
    Table(Vec<Field>),
    /// A value of a type that nothing here reads, by the name of its type.
    Other(ImStr),
}

/// One key of a table and its value.
#[derive(Debug)]
pub struct Field {
    pub key: ImStr,
    pub value: ConfigValue,
}

/// The name of the type of `v`.
pub open spec fn kind_name(v: ConfigValue) -> Seq<char> {
    match v {
        ConfigValue::String(_) => "string"@,
        ConfigValue::Integer(_) => "integer"@,
        ConfigValue::Boolean(_) => "boolean"@,
        ConfigValue::Array(_) => "array"@,
        ConfigValue::Table(_) => "table"@,
        ConfigValue::Other(t) => t@,
    }
}

impl ConfigValue {
    /// The name of the value's type.
    pub fn type_str(&self) -> (r: ImStr)
        ensures
            r@ == kind_name(*self),
    {
        match self {
            ConfigValue::String(_) => ImStr::new("string"),
            ConfigValue::Integer(_) => ImStr::new("integer"),
            ConfigValue::Boolean(_) => ImStr::new("boolean"),
            ConfigValue::Array(_) => ImStr::new("array"),
            ConfigValue::Table(_) => ImStr::new("table"),
            ConfigValue::Other(t) => t.clone(),
        }
    }
}

/// The value of the first field of `t` under `key`.
pub open spec fn lookup(t: Seq<Field>, key: Seq<char>) -> Option<ConfigValue>
    decreases t.len(),
{
    if t.len() == 0 {
        None
    } else if t[0].key@ == key {
        Some(t[0].value)
    } else {
        lookup(t.drop_first(), key)
    }
}

/// The value under `key` in the table `t`.
pub fn get<'a>(t: &'a Vec<Field>, key: &str) -> (r: Option<&'a ConfigValue>)
    ensures
        r matches Some(v) ==> lookup(t@, key@) == Some(*v),
        r is None ==> lookup(t@, key@) is None,
{
    let mut i: usize = 0;
    assert(t@.subrange(0, t@.len() as int) =~= t@);
    while i < t.len()
        invariant
            i <= t@.len(),
            lookup(t@, key@) == lookup(t@.subrange(i as int, t@.len() as int), key@),
        decreases t@.len() - i,
    {
        let ghost rest = t@.subrange(i as int, t@.len() as int);
        assert(rest[0] == t@[i as int]);
        if crate::text::str_eq(t[i].key.as_str(), key) {
            return Some(&t[i].value);
        }
        assert(rest.drop_first() =~= t@.subrange(i + 1, t@.len() as int));
        i = i + 1;
    }
    None
}

/// Why a configuration could not be read.
#[derive(Debug)]
pub enum ConfigError {
    /// The value at `key` is of type `found`, not one of `expected`.
    WrongType { key: ImStr, expected: Vec<ImStr>, found: ImStr },
    /// The array at `key` holds an element of type `found`, not a string.
    NotStrings { key: ImStr, found: ImStr },
    /// The table of the menu entry at `key` has no `run` key.
    MissingRun { key: ImStr },
    /// The number at `key` is negative.
    Negative { key: ImStr },
}

/// A [`ConfigError`] as plain values.
pub enum ConfigErrorView {
    WrongType { key: Seq<char>, expected: Seq<Seq<char>>, found: Seq<char> },
    NotStrings { key: Seq<char>, found: Seq<char> },
    MissingRun { key: Seq<char> },
    Negative { key: Seq<char> },
}

impl View for ConfigError {
    type V = ConfigErrorView;

    open spec fn view(&self) -> ConfigErrorView {
        match self {
            ConfigError::WrongType { key, expected, found } => ConfigErrorView::WrongType {
                key: key@,
                expected: strs_view(expected@),
                found: found@,
            },
            ConfigError::NotStrings { key, found } => ConfigErrorView::NotStrings {
                key: key@,
                found: found@,
            },
            ConfigError::MissingRun { key } => ConfigErrorView::MissingRun { key: key@ },
            ConfigError::Negative { key } => ConfigErrorView::Negative { key: key@ },
        }
    }
}

/// The error for a value at `key` of the wrong type.
pub open spec fn wrong_type(key: Seq<char>, expected: Seq<Seq<char>>, v: ConfigValue) -> ConfigErrorView {
    ConfigErrorView::WrongType { key, expected, found: kind_name(v) }
}

/// The strings of `items`, or the type of the first element that is not a string.
pub open spec fn strings(items: Seq<ConfigValue>) -> Result<Seq<Seq<char>>, Seq<char>>
    decreases items.len(),
{
    if items.len() == 0 {
        Ok(Seq::empty())
    } else {
        match strings(items.drop_last()) {
            Err(t) => Err(t),
            Ok(prefix) => match items.last() {
                ConfigValue::String(s) => Ok(prefix.push(s@)),
                other => Err(kind_name(other)),
            },
        }
    }
}

/// The strings of the array `items` at `key`.
pub open spec fn string_array(key: Seq<char>, items: Seq<ConfigValue>) -> Result<Seq<Seq<char>>, ConfigErrorView> {
    match strings(items) {
        Ok(v) => Ok(v),
        Err(t) => Err(ConfigErrorView::NotStrings { key, found: t }),
    }
}

/// A failed prefix decides the strings of the whole array.
proof fn lemma_strings_prefix_err(items: Seq<ConfigValue>, k: int)
    requires
        0 <= k <= items.len(),
        strings(items.subrange(0, k)) is Err,
    ensures
        strings(items) == strings(items.subrange(0, k)),
    decreases items.len() - k,
{
    if k < items.len() {
        let next = items.subrange(0, k + 1);
        assert(next.drop_last() =~= items.subrange(0, k));
        lemma_strings_prefix_err(items, k + 1);
    } else {
        assert(items.subrange(0, k) =~= items);
    }
}


/// The strings of the array `items` at `key` (see [`string_array`]).
pub fn try_into_array_string(key: &ImStr, items: &Vec<ConfigValue>) -> (r: Result<Vec<ImStr>, ConfigError>)
    ensures
        string_array(key@, items@) == match r {
            Ok(v) => Ok(strs_view(v@)),
            Err(e) => Err(e@),
        },
{
    let mut out: Vec<ImStr> = Vec::new();
    let mut i: usize = 0;
    assert(items@.subrange(0, 0) =~= Seq::<ConfigValue>::empty());
    assert(strs_view(out@) =~= Seq::<Seq<char>>::empty());
    while i < items.len()
        invariant
            i <= items@.len(),
            strings(items@.subrange(0, i as int)) == Ok::<Seq<Seq<char>>, Seq<char>>(strs_view(out@)),
        decreases items@.len() - i,
    {
        let ghost next = items@.subrange(0, i + 1);
        assert(next.drop_last() =~= items@.subrange(0, i as int));
        match &items[i] {
            ConfigValue::String(s) => {
                let ghost before = strs_view(out@);
                out.push(s.clone());
                assert(strs_view(out@) =~= before.push(s@));
            },
            other => {
                proof {
                    lemma_strings_prefix_err(items@, i + 1);
                }
                return Err(ConfigError::NotStrings { key: key.clone(), found: other.type_str() });
            },
        }
        i = i + 1;
    }
    assert(items@.subrange(0, i as int) =~= items@);
    Ok(out)
}

/// The string at `key`, or an error naming its type.
pub open spec fn string_value(key: Seq<char>, v: ConfigValue) -> Result<Seq<char>, ConfigErrorView> {
    match v {
        ConfigValue::String(s) => Ok(s@),
        other => Err(wrong_type(key, seq!["string"@], other)),
    }
}

/// The boolean at `key`, or an error naming its type.
pub open spec fn boolean_value(key: Seq<char>, v: ConfigValue) -> Result<bool, ConfigErrorView> {
    match v {
        ConfigValue::Boolean(b) => Ok(b),
        other => Err(wrong_type(key, seq!["boolean"@], other)),
    }
}

/// The integer at `key`, or an error naming its type.
pub open spec fn integer_value(key: Seq<char>, v: ConfigValue) -> Result<int, ConfigErrorView> {
    match v {
        ConfigValue::Integer(n) => Ok(n as int),
        other => Err(wrong_type(key, seq!["integer"@], other)),
    }
}

/// The non-negative integer at `key`.
pub open spec fn unsigned_value(key: Seq<char>, v: ConfigValue) -> Result<int, ConfigErrorView> {
    match v {
        ConfigValue::Integer(n) => if n >= 0 {
            Ok(n as int)
        } else {
            Err(ConfigErrorView::Negative { key })
        },
        other => Err(wrong_type(key, seq!["integer"@], other)),
    }
}

/// The array at `key`, or an error naming its type.
pub open spec fn array_value(key: Seq<char>, v: ConfigValue) -> Result<Seq<ConfigValue>, ConfigErrorView> {
    match v {
        ConfigValue::Array(a) => Ok(a@),
        other => Err(wrong_type(key, seq!["array"@], other)),
    }
}

/// The types named in a [`ConfigError::WrongType`].
fn type_names(names: &[&'static str]) -> (r: Vec<ImStr>)
    ensures
        r@.len() == names@.len(),
        forall|i: int| 0 <= i < names@.len() ==> #[trigger] r@[i]@ == names@[i]@,
{
    let mut out: Vec<ImStr> = Vec::new();
    let mut i: usize = 0;
    while i < names.len()
        invariant
            i <= names@.len(),
            out@.len() == i,
            forall|k: int| 0 <= k < i ==> #[trigger] out@[k]@ == names@[k]@,
        decreases names@.len() - i,
    {
        out.push(ImStr::new(names[i]));
        i = i + 1;
    }
    out
}

/// The error for `v` at `key`, which is not of the type `expected`.
fn type_error(key: &ImStr, expected: &'static str, v: &ConfigValue) -> (r: ConfigError)
    ensures
        r@ == wrong_type(key@, seq![expected@], *v),
{
    let names = type_names(&[expected]);
    let r = ConfigError::WrongType { key: key.clone(), expected: names, found: v.type_str() };
    assert(strs_view(names@) =~= seq![expected@]);
    r
}

pub fn try_into_string(key: &ImStr, v: &ConfigValue) -> (r: Result<ImStr, ConfigError>)
    ensures
        string_value(key@, *v) == match r {
            Ok(s) => Ok(s@),
            Err(e) => Err(e@),
        },
{
    match v {
        ConfigValue::String(s) => Ok(s.clone()),
        _ => Err(type_error(key, "string", v)),
    }
}

pub fn try_into_boolean(key: &ImStr, v: &ConfigValue) -> (r: Result<bool, ConfigError>)
    ensures
        boolean_value(key@, *v) == match r {
            Ok(b) => Ok(b),
            Err(e) => Err(e@),
        },
{
    match v {
        ConfigValue::Boolean(b) => Ok(*b),
        _ => Err(type_error(key, "boolean", v)),
    }
}

pub fn try_into_integer(key: &ImStr, v: &ConfigValue) -> (r: Result<i64, ConfigError>)
    ensures
        integer_value(key@, *v) == match r {
            Ok(n) => Ok(n as int),
            Err(e) => Err(e@),
        },
{
    match v {
        ConfigValue::Integer(n) => Ok(*n),
        _ => Err(type_error(key, "integer", v)),
    }
}

pub fn try_into_unsigned_integer(key: &ImStr, v: &ConfigValue) -> (r: Result<u64, ConfigError>)
    ensures
        unsigned_value(key@, *v) == match r {
            Ok(n) => Ok(n as int),
            Err(e) => Err(e@),
        },
{
    match v {
        ConfigValue::Integer(n) => {
            if *n >= 0 {
                Ok(*n as u64)
            } else {
                Err(ConfigError::Negative { key: key.clone() })
            }
        },
        _ => Err(type_error(key, "integer", v)),
    }
}

pub fn try_into_array<'a>(key: &ImStr, v: &'a ConfigValue) -> (r: Result<&'a Vec<ConfigValue>, ConfigError>)
    ensures
        array_value(key@, *v) == match r {
            Ok(a) => Ok(a@),
            Err(e) => Err(e@),
        },
{
    match v {
        ConfigValue::Array(a) => Ok(a),
        _ => Err(type_error(key, "array", v)),
    }
}

/// `prefix`, then `name`, then `suffix`.
fn join_key(prefix: &str, name: &str, suffix: &str) -> (r: ImStr)
    ensures
        r@ == prefix@ + name@ + suffix@,
{
    let mut s = prefix.to_owned();
    s.append(name);
    s.append(suffix);
    ImStr::from(s)
}

/// The types a menu entry's command may have, and within a table.
pub open spec fn run_types(in_table: bool) -> Seq<Seq<char>> {
    if in_table {
        seq!["string"@, "array"@, "boolean"@]
    } else {
        seq!["string"@, "array"@, "boolean"@, "table"@]
    }
}

/// The entry `name` whose command is the value `v` at `key`: `true` runs
/// the name itself, `false` hides it, a string is a shell command, an array
/// of strings a program with its arguments.
pub open spec fn entry_run(
    name: Seq<char>,
    key: Seq<char>,
    v: ConfigValue,
    group: int,
    in_table: bool,
) -> Result<EntryView, ConfigErrorView> {
    match v {
        ConfigValue::Boolean(b) => if b {
            Ok(EntryView::Name(name))
        } else {
            Ok(EntryView::Filter(name))
        },
        ConfigValue::String(s) => Ok(EntryView::Full { name, run: RunView::Shell(s@), group }),
        ConfigValue::Array(items) => match string_array(key, items@) {
            Ok(a) => Ok(EntryView::Full { name, run: RunView::Bare(a), group }),
            Err(e) => Err(e),
        },
        other => Err(wrong_type(key, run_types(in_table), other)),
    }
}

/// The menu entry `name` whose value is `v`: a command as [`entry_run`]
/// reads it, or a table with the command under `run` and an optional
/// integer `group`.
pub open spec fn entry_spec(name: Seq<char>, v: ConfigValue) -> Result<EntryView, ConfigErrorView> {
    let key = "menu."@ + name;
    match v {
        ConfigValue::Table(t) => {
            let group = match lookup(t@, "group"@) {
                None => Ok(0int),
                Some(g) => integer_value(key + ".group"@, g),
            };
            match group {
                Err(e) => Err(e),
                Ok(g) => match lookup(t@, "run"@) {
                    None => Err(ConfigErrorView::MissingRun { key }),
                    Some(rv) => entry_run(name, key + ".run"@, rv, g, true),
                },
            }
        },
        other => entry_run(name, key, other, 0, false),
    }
}

/// The view of a result of reading an entry.
pub open spec fn entry_result(r: Result<Entry, ConfigError>) -> Result<EntryView, ConfigErrorView> {
    match r {
        Ok(e) => Ok(e@),
        Err(e) => Err(e@),
    }
}

fn run_type_names(in_table: bool) -> (r: Vec<ImStr>)
    ensures
        strs_view(r@) == run_types(in_table),
{
    let r = if in_table {
        type_names(&["string", "array", "boolean"])
    } else {
        type_names(&["string", "array", "boolean", "table"])
    };
    assert(strs_view(r@) =~= run_types(in_table));
    r
}

fn entry_run_exec(name: ImStr, key: ImStr, v: &ConfigValue, group: i64, in_table: bool) -> (r: Result<
    Entry,
    ConfigError,
>)
    ensures
        entry_result(r) == entry_run(name@, key@, *v, group as int, in_table),
{
    match v {
        ConfigValue::Boolean(b) => {
            if *b {
                Ok(Entry::Name(name))
            } else {
                Ok(Entry::Filter(name))
            }
        },
        ConfigValue::String(s) => Ok(Entry::Full { name, run: Run::Shell(s.clone()), group }),
        ConfigValue::Array(items) => match try_into_array_string(&key, items) {
            Ok(a) => Ok(Entry::Full { name, run: Run::Bare(a), group }),
            Err(e) => Err(e),
        },
        _ => Err(ConfigError::WrongType { key, expected: run_type_names(in_table), found: v.type_str() }),
    }
}

impl Entry {
    /// The menu entry `name` configured as `entry` (see [`entry_spec`]).
    pub fn try_new(name: ImStr, entry: &ConfigValue) -> (r: Result<Self, ConfigError>)
        ensures
            entry_result(r) == entry_spec(name@, *entry),
    {
        match entry {
            ConfigValue::Table(table) => {
                let group = match get(table, "group") {
                    None => 0,
                    Some(g) => {
                        let key = join_key("menu.", name.as_str(), ".group");
                        match try_into_integer(&key, g) {
                            Ok(n) => n,
                            Err(e) => {
                                return Err(e);
                            },
                        }
                    },
                };
                match get(table, "run") {
                    None => {
                        let key = join_key("menu.", name.as_str(), "");
                        proof {
                            reveal_strlit("");
                            assert("menu."@ + name@ + ""@ =~= "menu."@ + name@);
                        }
                        Err(ConfigError::MissingRun { key })
                    },
                    Some(run) => {
                        let key = join_key("menu.", name.as_str(), ".run");
                        entry_run_exec(name, key, run, group, true)
                    },
                }
            },
            _ => {
                let key = join_key("menu.", name.as_str(), "");
                proof {
                    reveal_strlit("");
                    assert("menu."@ + name@ + ""@ =~= "menu."@ + name@);
                }
                entry_run_exec(name, key, entry, 0, false)
            },
        }
    }
}

/// A result with its error as plain values.
pub open spec fn err_view<A>(r: Result<A, ConfigError>) -> Result<A, ConfigErrorView> {
    match r {
        Ok(a) => Ok(a),
        Err(e) => Err(e@),
    }
}

/// A result as plain values.
pub open spec fn result_view<A: View>(r: Result<A, ConfigError>) -> Result<A::V, ConfigErrorView> {
    match r {
        Ok(a) => Ok(a@),
        Err(e) => Err(e@),
    }
}

/// The optional boolean `name` of the table `t`, read at `key`.
pub open spec fn opt_bool(t: Seq<Field>, name: Seq<char>, key: Seq<char>) -> Result<bool, ConfigErrorView> {
    match lookup(t, name) {
        None => Ok(false),
        Some(v) => boolean_value(key, v),
    }
}

/// The optional integer `name` of the table `t`, read at `key`.
pub open spec fn opt_int(t: Seq<Field>, name: Seq<char>, key: Seq<char>) -> Result<int, ConfigErrorView> {
    match lookup(t, name) {
        None => Ok(0),
        Some(v) => integer_value(key, v),
    }
}

/// The optional array of strings `name` of the table `t`, read at `key`.
pub open spec fn opt_strings(t: Seq<Field>, name: Seq<char>, key: Seq<char>) -> Result<Seq<Seq<char>>, ConfigErrorView> {
    match lookup(t, name) {
        None => Ok(Seq::empty()),
        Some(v) => match array_value(key, v) {
            Err(e) => Err(e),
            Ok(items) => string_array(key, items),
        },
    }
}

fn get_bool(t: &Vec<Field>, name: &str, key: &'static str) -> (r: Result<bool, ConfigError>)
    ensures
        err_view(r) == opt_bool(t@, name@, key@),
{
    match get(t, name) {
        None => Ok(false),
        Some(v) => try_into_boolean(&ImStr::new(key), v),
    }
}

fn get_int(t: &Vec<Field>, name: &str, key: &'static str) -> (r: Result<i64, ConfigError>)
    ensures
        match r {
            Ok(n) => opt_int(t@, name@, key@) == Ok::<int, ConfigErrorView>(n as int),
            Err(e) => opt_int(t@, name@, key@) == Err::<int, ConfigErrorView>(e@),
        },
{
    match get(t, name) {
        None => Ok(0),
        Some(v) => try_into_integer(&ImStr::new(key), v),
    }
}

fn get_strings(t: &Vec<Field>, name: &str, key: &'static str) -> (r: Result<Vec<ImStr>, ConfigError>)
    ensures
        match r {
            Ok(a) => opt_strings(t@, name@, key@) == Ok::<Seq<Seq<char>>, ConfigErrorView>(strs_view(a@)),
            Err(e) => opt_strings(t@, name@, key@) == Err::<Seq<Seq<char>>, ConfigErrorView>(e@),
        },
{
    let k = ImStr::new(key);
    match get(t, name) {
        None => {
            let none: Vec<ImStr> = Vec::new();
            assert(strs_view(none@) =~= Seq::<Seq<char>>::empty());
            Ok(none)
        },
        Some(v) => match try_into_array(&k, v) {
            Err(e) => Err(e),
            Ok(items) => try_into_array_string(&k, items),
        },
    }
}

/// The shell policy read from `v`: `false` disables it, `true` is the
/// default shell, an array of strings is the shell command, and a table
/// gives the command under `shell` and whether it is `piped`.
pub open spec fn shell_spec(v: ConfigValue) -> Result<ShellView, ConfigErrorView> {
    match v {
        ConfigValue::Boolean(b) => if b {
            Ok(ShellView::Enabled { shell: seq![seq!['s', 'h'], seq!['-', 'c']], piped: false })
        } else {
            Ok(ShellView::Disabled)
        },
        ConfigValue::Array(items) => match string_array("config.shell"@, items@) {
            Ok(a) => Ok(ShellView::Enabled { shell: a, piped: false }),
            Err(e) => Err(e),
        },
        ConfigValue::Table(t) => match opt_strings(t@, "shell"@, "config.shell.shell"@) {
            Err(e) => Err(e),
            Ok(sh) => match opt_bool(t@, "piped"@, "config.shell.piped"@) {
                Err(e) => Err(e),
                Ok(p) => Ok(ShellView::Enabled { shell: sh, piped: p }),
            },
        },
        other => Err(wrong_type("config.shell"@, seq!["boolean"@, "array"@, "table"@], other)),
    }
}

/// Whether typed commands are enabled, read from `v`.
pub open spec fn custom_spec(v: ConfigValue) -> Result<Custom, ConfigErrorView> {
    match v {
        ConfigValue::Boolean(b) => if b {
            Ok(Custom::Enabled)
        } else {
            Ok(Custom::Disabled)
        },
        other => Err(wrong_type("config.custom"@, seq!["boolean"@], other)),
    }
}

/// The separator read from `v`: `false` for none, `true` for the default,
/// or the string itself.
pub open spec fn separator_spec(v: ConfigValue) -> Result<Option<Seq<char>>, ConfigErrorView> {
    match v {
        ConfigValue::Boolean(b) => if b {
            Ok(Some(seq![':', ' ']))
        } else {
            Ok(None)
        },
        ConfigValue::String(s) => Ok(Some(s@)),
        other => Err(wrong_type("config.numbered.separator"@, seq!["boolean"@, "string"@], other)),
    }
}

/// The numbering policy read from `v`: a boolean, or a table with the
/// boolean `numbered` and an optional `separator`.
pub open spec fn numbered_spec(v: ConfigValue) -> Result<Option<Option<Seq<char>>>, ConfigErrorView> {
    match v {
        ConfigValue::Boolean(b) => if b {
            Ok(Some(Some(seq![':', ' '])))
        } else {
            Ok(None)
        },
        ConfigValue::Table(t) => match opt_bool(t@, "numbered"@, "config.numbered.numbered"@) {
            Err(e) => Err(e),
            Ok(on) => {
                let sep = match lookup(t@, "separator"@) {
                    None => Ok(Some(seq![':', ' '])),
                    Some(sv) => separator_spec(sv),
                };
                match sep {
                    Err(e) => Err(e),
                    Ok(sp) => if on {
                        Ok(Some(sp))
                    } else {
                        Ok(None)
                    },
                }
            },
        },
        other => Err(wrong_type("config.numbered"@, seq!["boolean"@, "table"@], other)),
    }
}

/// The scanning policy read from `v`: `false` disables it, `true` scans
/// `PATH`, an array of strings names the directories, and a table gives
/// `path`, `env`, `replace`, `recursive` and `group`.
pub open spec fn path_spec(v: ConfigValue) -> Result<BinPathView, ConfigErrorView> {
    match v {
        ConfigValue::Boolean(b) => if b {
            Ok(
                BinPathView::Enabled {
                    path: Seq::empty(),
                    env: true,
                    replace: false,
                    recursive: false,
                    group: 0,
                },
            )
        } else {
            Ok(BinPathView::Disabled)
        },
        ConfigValue::Array(items) => match string_array("config.path"@, items@) {
            Ok(a) => Ok(
                BinPathView::Enabled { path: a, env: false, replace: false, recursive: false, group: 0 },
            ),
            Err(e) => Err(e),
        },
        ConfigValue::Table(t) => match opt_strings(t@, "path"@, "config.path.path"@) {
            Err(e) => Err(e),
            Ok(path) => match opt_bool(t@, "env"@, "config.path.env"@) {
                Err(e) => Err(e),
                Ok(env) => match opt_bool(t@, "replace"@, "config.path.replace"@) {
                    Err(e) => Err(e),
                    Ok(replace) => match opt_bool(t@, "recursive"@, "config.path.recursive"@) {
                        Err(e) => Err(e),
                        Ok(recursive) => match opt_int(t@, "group"@, "config.path.group"@) {
                            Err(e) => Err(e),
                            Ok(group) => Ok(BinPathView::Enabled { path, env, replace, recursive, group }),
                        },
                    },
                },
            },
        },
        other => Err(wrong_type("config.path"@, seq!["boolean"@, "array"@, "table"@], other)),
    }
}

impl Shell {
    /// The shell policy configured as `shell` (see [`shell_spec`]).
    pub fn try_from(shell: &ConfigValue) -> (r: Result<Self, ConfigError>)
        ensures
            result_view(r) == shell_spec(*shell),
    {
        match shell {
            ConfigValue::Boolean(b) => {
                if *b {
                    let d = Shell::default();
                    Ok(d)
                } else {
                    Ok(Shell::Disabled)
                }
            },
            ConfigValue::Array(items) => {
                match try_into_array_string(&ImStr::new("config.shell"), items) {
                    Ok(a) => Ok(Shell::Enabled { shell: a, piped: false }),
                    Err(e) => Err(e),
                }
            },
            ConfigValue::Table(t) => {
                let sh = match get_strings(t, "shell", "config.shell.shell") {
                    Ok(a) => a,
                    Err(e) => {
                        return Err(e);
                    },
                };
                match get_bool(t, "piped", "config.shell.piped") {
                    Ok(p) => Ok(Shell::Enabled { shell: sh, piped: p }),
                    Err(e) => Err(e),
                }
            },
            _ => {
                let names = type_names(&["boolean", "array", "table"]);
                assert(strs_view(names@) =~= seq!["boolean"@, "array"@, "table"@]);
                Err(ConfigError::WrongType { key: ImStr::new("config.shell"), expected: names, found: shell.type_str() })
            },
        }
    }
}

impl Custom {
    /// Whether typed commands are enabled, as configured by `custom`.
    pub fn try_from(custom: &ConfigValue) -> (r: Result<Self, ConfigError>)
        ensures
            err_view(r) == custom_spec(*custom),
    {
        match try_into_boolean(&ImStr::new("config.custom"), custom) {
            Ok(true) => Ok(Custom::Enabled),
            Ok(false) => Ok(Custom::Disabled),
            Err(e) => Err(e),
        }
    }
}

impl Separator {
    /// The separator configured as `separator` (see [`separator_spec`]).
    pub fn try_from(separator: &ConfigValue) -> (r: Result<Self, ConfigError>)
        ensures
            match r {
                Ok(s) => separator_spec(*separator) == Ok::<Option<Seq<char>>, ConfigErrorView>(separator_view(s)),
                Err(e) => separator_spec(*separator) == Err::<Option<Seq<char>>, ConfigErrorView>(e@),
            },
    {
        match separator {
            ConfigValue::Boolean(b) => {
                if *b {
                    Ok(Separator::default())
                } else {
                    Ok(Separator::Disabled)
                }
            },
            ConfigValue::String(s) => Ok(Separator::Enabled(s.clone())),
            _ => {
                let names = type_names(&["boolean", "string"]);
                assert(strs_view(names@) =~= seq!["boolean"@, "string"@]);
                Err(ConfigError::WrongType {
                    key: ImStr::new("config.numbered.separator"),
                    expected: names,
                    found: separator.type_str(),
                })
            },
        }
    }
}

impl Numbered {
    /// The numbering policy configured as `numbered` (see [`numbered_spec`]).
    pub fn try_from(numbered: &ConfigValue) -> (r: Result<Self, ConfigError>)
        ensures
            match r {
                Ok(n) => numbered_spec(*numbered) == Ok::<Option<Option<Seq<char>>>, ConfigErrorView>(numbered_view(n)),
                Err(e) => numbered_spec(*numbered) == Err::<Option<Option<Seq<char>>>, ConfigErrorView>(e@),
            },
    {
        match numbered {
            ConfigValue::Boolean(b) => {
                if *b {
                    Ok(Numbered::Enabled(Separator::default()))
                } else {
                    Ok(Numbered::Disabled)
                }
            },
            ConfigValue::Table(t) => {
                let on = match get_bool(t, "numbered", "config.numbered.numbered") {
                    Ok(b) => b,
                    Err(e) => {
                        return Err(e);
                    },
                };
                let separator = match get(t, "separator") {
                    None => Separator::default(),
                    Some(sv) => match Separator::try_from(sv) {
                        Ok(sp) => sp,
                        Err(e) => {
                            return Err(e);
                        },
                    },
                };
                if on {
                    Ok(Numbered::Enabled(separator))
                } else {
                    Ok(Numbered::Disabled)
                }
            },
            _ => {
                let names = type_names(&["boolean", "table"]);
                assert(strs_view(names@) =~= seq!["boolean"@, "table"@]);
                Err(ConfigError::WrongType {
                    key: ImStr::new("config.numbered"),
                    expected: names,
                    found: numbered.type_str(),
                })
            },
        }
    }
}

impl BinPath {
    /// The scanning policy configured as `path` (see [`path_spec`]).
    pub fn try_from(path: &ConfigValue) -> (r: Result<Self, ConfigError>)
        ensures
            result_view(r) == path_spec(*path),
    {
        match path {
            ConfigValue::Boolean(b) => {
                if *b {
                    let none: Vec<ImStr> = Vec::new();
                    assert(strs_view(none@) =~= Seq::<Seq<char>>::empty());
                    Ok(BinPath::Enabled { path: none, env: true, replace: false, recursive: false, group: 0 })
                } else {
                    Ok(BinPath::Disabled)
                }
            },
            ConfigValue::Array(items) => {
                match try_into_array_string(&ImStr::new("config.path"), items) {
                    Ok(a) => Ok(BinPath::Enabled { path: a, env: false, replace: false, recursive: false, group: 0 }),
                    Err(e) => Err(e),
                }
            },
            ConfigValue::Table(t) => {
                let dirs = match get_strings(t, "path", "config.path.path") {
                    Ok(a) => a,
                    Err(e) => {
                        return Err(e);
                    },
                };
                let env = match get_bool(t, "env", "config.path.env") {
                    Ok(b) => b,
                    Err(e) => {
                        return Err(e);
                    },
                };
                let replace = match get_bool(t, "replace", "config.path.replace") {
                    Ok(b) => b,
                    Err(e) => {
                        return Err(e);
                    },
                };
                let recursive = match get_bool(t, "recursive", "config.path.recursive") {
                    Ok(b) => b,
                    Err(e) => {
                        return Err(e);
                    },
                };
                let group = match get_int(t, "group", "config.path.group") {
                    Ok(n) => n,
                    Err(e) => {
                        return Err(e);
                    },
                };
                Ok(BinPath::Enabled { path: dirs, env, replace, recursive, group })
            },
            _ => {
                let names = type_names(&["boolean", "array", "table"]);
                assert(strs_view(names@) =~= seq!["boolean"@, "array"@, "table"@]);
                Err(ConfigError::WrongType { key: ImStr::new("config.path"), expected: names, found: path.type_str() })
            },
        }
    }
}

/// The optional string `name` of the table `t`, read at `key`.
pub open spec fn opt_string(t: Seq<Field>, name: Seq<char>, key: Seq<char>) -> Result<Option<Seq<char>>, ConfigErrorView> {
    match lookup(t, name) {
        None => Ok(None),
        Some(v) => match string_value(key, v) {
            Ok(s) => Ok(Some(s)),
            Err(e) => Err(e),
        },
    }
}

/// The optional non-negative integer `name` of the table `t`, read at `key`.
pub open spec fn opt_unsigned(t: Seq<Field>, name: Seq<char>, key: Seq<char>) -> Result<Option<int>, ConfigErrorView> {
    match lookup(t, name) {
        None => Ok(None),
        Some(v) => match unsigned_value(key, v) {
            Ok(n) => Ok(Some(n)),
            Err(e) => Err(e),
        },
    }
}

/// The error of a result, if it failed.
pub open spec fn failure<A>(r: Result<A, ConfigErrorView>) -> Option<ConfigErrorView> {
    match r {
        Err(e) => Some(e),
        Ok(_) => None,
    }
}

/// The first error among `errors`.
pub open spec fn first_failure(errors: Seq<Option<ConfigErrorView>>) -> Option<ConfigErrorView>
    decreases errors.len(),
{
    if errors.len() == 0 {
        None
    } else if errors[0] is Some {
        errors[0]
    } else {
        first_failure(errors.drop_first())
    }
}

/// The first error is the first one that is there.
proof fn lemma_first_failure(errors: Seq<Option<ConfigErrorView>>, k: int)
    requires
        0 <= k <= errors.len(),
        forall|j: int| 0 <= j < k ==> errors[j] is None,
    ensures
        first_failure(errors) == first_failure(errors.subrange(k, errors.len() as int)),
    decreases k,
{
    assert(errors.subrange(0, errors.len() as int) =~= errors);
    if k > 0 {
        lemma_first_failure(errors, k - 1);
        let rest = errors.subrange(k - 1, errors.len() as int);
        assert(rest[0] == errors[k - 1]);
        assert(rest.drop_first() =~= errors.subrange(k, errors.len() as int));
    }
}

/// The first error is the one at `k` when none comes before it.
proof fn lemma_failure_at(errors: Seq<Option<ConfigErrorView>>, k: int)
    requires
        0 <= k < errors.len(),
        forall|j: int| 0 <= j < k ==> errors[j] is None,
        errors[k] is Some,
    ensures
        first_failure(errors) == errors[k],
{
    lemma_first_failure(errors, k);
    assert(errors.subrange(k, errors.len() as int)[0] == errors[k]);
}

/// The picker's options in the table `t`, each read in order; the first
/// one that cannot be read is the error.
pub open spec fn dmenu_fields(t: Seq<Field>) -> Result<DmenuView, ConfigErrorView> {
    let prompt = opt_string(t, "prompt"@, "config.dmenu.prompt"@);
    let font = opt_string(t, "font"@, "config.dmenu.font"@);
    let background = opt_string(t, "background"@, "config.dmenu.background"@);
    let foreground = opt_string(t, "foreground"@, "config.dmenu.foreground"@);
    let selected_background = opt_string(t, "selected-background"@, "config.dmenu.selected-background"@);
    let selected_foreground = opt_string(t, "selected-foreground"@, "config.dmenu.selected-foreground"@);
    let lines = opt_unsigned(t, "lines"@, "config.dmenu.lines"@);
    let bottom = opt_bool(t, "bottom"@, "config.dmenu.bottom"@);
    let case_sensitive = opt_bool(t, "case-sensitive"@, "config.dmenu.case-sensitive"@);
    let fast = opt_bool(t, "fast"@, "config.dmenu.fast"@);
    let monitor = opt_unsigned(t, "monitor"@, "config.dmenu.monitor"@);
    let window_id = opt_string(t, "window-id"@, "config.dmenu.window-id"@);
    let errors = seq![
        failure(prompt),
        failure(font),
        failure(background),
        failure(foreground),
        failure(selected_background),
        failure(selected_foreground),
        failure(lines),
        failure(bottom),
        failure(case_sensitive),
        failure(fast),
        failure(monitor),
        failure(window_id),
    ];
    match first_failure(errors) {
        Some(e) => Err(e),
        None => Ok(
            DmenuView {
            prompt: prompt->Ok_0,
            font: font->Ok_0,
            background: background->Ok_0,
            foreground: foreground->Ok_0,
            selected_background: selected_background->Ok_0,
            selected_foreground: selected_foreground->Ok_0,
            lines: lines->Ok_0,
            bottom: bottom->Ok_0,
            case_sensitive: case_sensitive->Ok_0,
            fast: fast->Ok_0,
            monitor: monitor->Ok_0,
            window_id: window_id->Ok_0,
            },
        ),
    }
}

/// The picker's options read from `v`, which must be a table.
pub open spec fn dmenu_spec(v: ConfigValue) -> Result<DmenuView, ConfigErrorView> {
    match v {
        ConfigValue::Table(t) => dmenu_fields(t@),
        other => Err(wrong_type("config.dmenu"@, seq!["table"@], other)),
    }
}

fn get_string(t: &Vec<Field>, name: &str, key: &'static str) -> (r: Result<Option<ImStr>, ConfigError>)
    ensures
        match r {
            Ok(s) => opt_string(t@, name@, key@) == Ok::<Option<Seq<char>>, ConfigErrorView>(opt_view(s)),
            Err(e) => opt_string(t@, name@, key@) == Err::<Option<Seq<char>>, ConfigErrorView>(e@),
        },
{
    match get(t, name) {
        None => Ok(None),
        Some(v) => match try_into_string(&ImStr::new(key), v) {
            Ok(s) => Ok(Some(s)),
            Err(e) => Err(e),
        },
    }
}

fn get_unsigned(t: &Vec<Field>, name: &str, key: &'static str) -> (r: Result<Option<u64>, ConfigError>)
    ensures
        match r {
            Ok(n) => opt_unsigned(t@, name@, key@) == Ok::<Option<int>, ConfigErrorView>(crate::config::opt_int_view(n)),
            Err(e) => opt_unsigned(t@, name@, key@) == Err::<Option<int>, ConfigErrorView>(e@),
        },
{
    match get(t, name) {
        None => Ok(None),
        Some(v) => match try_into_unsigned_integer(&ImStr::new(key), v) {
            Ok(n) => Ok(Some(n)),
            Err(e) => Err(e),
        },
    }
}

impl Dmenu {
    /// The picker's options configured as `dmenu` (see [`dmenu_spec`]).
    pub fn try_from(dmenu: &ConfigValue) -> (r: Result<Self, ConfigError>)
        ensures
            result_view(r) == dmenu_spec(*dmenu),
    {
        let t = match dmenu {
            ConfigValue::Table(t) => t,
            _ => {
                let names = type_names(&["table"]);
                assert(strs_view(names@) =~= seq!["table"@]);
                return Err(ConfigError::WrongType {
                    key: ImStr::new("config.dmenu"),
                    expected: names,
                    found: dmenu.type_str(),
                });
            },
        };
        let prompt = get_string(t, "prompt", "config.dmenu.prompt");
        let font = get_string(t, "font", "config.dmenu.font");
        let background = get_string(t, "background", "config.dmenu.background");
        let foreground = get_string(t, "foreground", "config.dmenu.foreground");
        let selected_background = get_string(t, "selected-background", "config.dmenu.selected-background");
        let selected_foreground = get_string(t, "selected-foreground", "config.dmenu.selected-foreground");
        let lines = get_unsigned(t, "lines", "config.dmenu.lines");
        let bottom = get_bool(t, "bottom", "config.dmenu.bottom");
        let case_sensitive = get_bool(t, "case-sensitive", "config.dmenu.case-sensitive");
        let fast = get_bool(t, "fast", "config.dmenu.fast");
        let monitor = get_unsigned(t, "monitor", "config.dmenu.monitor");
        let window_id = get_string(t, "window-id", "config.dmenu.window-id");
        let ghost errors = seq![
            failure(opt_string(t@, "prompt"@, "config.dmenu.prompt"@)),
            failure(opt_string(t@, "font"@, "config.dmenu.font"@)),
            failure(opt_string(t@, "background"@, "config.dmenu.background"@)),
            failure(opt_string(t@, "foreground"@, "config.dmenu.foreground"@)),
            failure(opt_string(t@, "selected-background"@, "config.dmenu.selected-background"@)),
            failure(opt_string(t@, "selected-foreground"@, "config.dmenu.selected-foreground"@)),
            failure(opt_unsigned(t@, "lines"@, "config.dmenu.lines"@)),
            failure(opt_bool(t@, "bottom"@, "config.dmenu.bottom"@)),
            failure(opt_bool(t@, "case-sensitive"@, "config.dmenu.case-sensitive"@)),
            failure(opt_bool(t@, "fast"@, "config.dmenu.fast"@)),
            failure(opt_unsigned(t@, "monitor"@, "config.dmenu.monitor"@)),
            failure(opt_string(t@, "window-id"@, "config.dmenu.window-id"@)),
        ];
        let prompt = match prompt {
            Ok(x) => x,
            Err(e) => {
                proof { lemma_failure_at(errors, 0) }
                return Err(e);
            },
        };
        let font = match font {
            Ok(x) => x,
            Err(e) => {
                proof { lemma_failure_at(errors, 1) }
                return Err(e);
            },
        };
        let background = match background {
            Ok(x) => x,
            Err(e) => {
                proof { lemma_failure_at(errors, 2) }
                return Err(e);
            },
        };
        let foreground = match foreground {
            Ok(x) => x,
            Err(e) => {
                proof { lemma_failure_at(errors, 3) }
                return Err(e);
            },
        };
        let selected_background = match selected_background {
            Ok(x) => x,
            Err(e) => {
                proof { lemma_failure_at(errors, 4) }
                return Err(e);
            },
        };
        let selected_foreground = match selected_foreground {
            Ok(x) => x,
            Err(e) => {
                proof { lemma_failure_at(errors, 5) }
                return Err(e);
            },
        };
        let lines = match lines {
            Ok(x) => x,
            Err(e) => {
                proof { lemma_failure_at(errors, 6) }
                return Err(e);
            },
        };
        let bottom = match bottom {
            Ok(x) => x,
            Err(e) => {
                proof { lemma_failure_at(errors, 7) }
                return Err(e);
            },
        };
        let case_sensitive = match case_sensitive {
            Ok(x) => x,
            Err(e) => {
                proof { lemma_failure_at(errors, 8) }
                return Err(e);
            },
        };
        let fast = match fast {
            Ok(x) => x,
            Err(e) => {
                proof { lemma_failure_at(errors, 9) }
                return Err(e);
            },
        };
        let monitor = match monitor {
            Ok(x) => x,
            Err(e) => {
                proof { lemma_failure_at(errors, 10) }
                return Err(e);
            },
        };
        let window_id = match window_id {
            Ok(x) => x,
            Err(e) => {
                proof { lemma_failure_at(errors, 11) }
                return Err(e);
            },
        };
        proof {
            lemma_first_failure(errors, 12);
            assert(errors.subrange(12, 12) =~= Seq::<Option<ConfigErrorView>>::empty());
        }
        Ok(Dmenu {
            prompt,
            font,
            background,
            foreground,
            selected_background,
            selected_foreground,
            lines,
            bottom,
            case_sensitive,
            fast,
            monitor,
            window_id,
        })
    }
}

/// Which configuration a problem was found in.
#[derive(Debug)]
pub enum Origin {
    /// The configuration given on the command line or piped in.
    Target,
    /// The configuration in the user's configuration directory.
    Home,
}

/// A problem found while reading a configuration.
#[derive(Debug)]
pub struct ConfigProblem {
    pub origin: Origin,
    pub error: ConfigError,
}

/// A problem as plain values: whether it is in the home configuration, and the error.
pub open spec fn problem_view(p: ConfigProblem) -> (bool, ConfigErrorView) {
    (p.origin is Home, p.error@)
}

/// The value at the top-level `key` of the document `doc`.
pub open spec fn doc_get(doc: ConfigValue, key: Seq<char>) -> Option<ConfigValue> {
    match doc {
        ConfigValue::Table(t) => lookup(t@, key),
        _ => None,
    }
}

fn doc_value<'a>(doc: &'a ConfigValue, key: &str) -> (r: Option<&'a ConfigValue>)
    ensures
        r matches Some(v) ==> doc_get(*doc, key@) == Some(*v),
        r is None ==> doc_get(*doc, key@) is None,
{
    match doc {
        ConfigValue::Table(t) => get(t, key),
        _ => None,
    }
}

/// The entries of the menu table `fields`, in order; the first entry that
/// cannot be read is the error.
pub open spec fn menu_entries(fields: Seq<Field>) -> Result<Seq<EntryView>, ConfigErrorView>
    decreases fields.len(),
{
    if fields.len() == 0 {
        Ok(Seq::empty())
    } else {
        match menu_entries(fields.drop_last()) {
            Err(e) => Err(e),
            Ok(p) => match entry_spec(fields.last().key@, fields.last().value) {
                Ok(e) => Ok(p.push(e)),
                Err(e) => Err(e),
            },
        }
    }
}

/// The menu entries of the document `doc`: none without a `menu` table.
pub open spec fn doc_entries(doc: ConfigValue) -> Result<Seq<EntryView>, ConfigErrorView> {
    match doc_get(doc, "menu"@) {
        None => Ok(Seq::empty()),
        Some(ConfigValue::Table(t)) => menu_entries(t@),
        Some(other) => Err(wrong_type("menu"@, seq!["table"@], other)),
    }
}

/// The entries of `home` whose names no entry of `target` has.
pub open spec fn extra_entries(home: Seq<EntryView>, target: Seq<EntryView>) -> Seq<EntryView>
    decreases home.len(),
{
    if home.len() == 0 {
        Seq::empty()
    } else {
        let p = extra_entries(home.drop_last(), target);
        if exists|i: int| 0 <= i < target.len() && #[trigger] target[i].name() == home.last().name() {
            p
        } else {
            p.push(home.last())
        }
    }
}

/// The entries of the configuration: those of `config`, then those of
/// `home` under names that `config` does not use.
pub open spec fn entries_spec(config: ConfigValue, home: Option<ConfigValue>) -> Result<Seq<EntryView>, (bool, ConfigErrorView)> {
    match doc_entries(config) {
        Err(e) => Err((false, e)),
        Ok(target) => match home {
            None => Ok(target),
            Some(h) => match doc_entries(h) {
                Err(e) => Err((true, e)),
                Ok(extra) => Ok(target + extra_entries(extra, target)),
            },
        },
    }
}

/// The entries of one document.
fn read_entries(doc: &ConfigValue) -> (r: Result<Vec<Entry>, ConfigError>)
    ensures
        match r {
            Ok(v) => doc_entries(*doc) == Ok::<Seq<EntryView>, ConfigErrorView>(crate::resolve::entries_view(v@)),
            Err(e) => doc_entries(*doc) == Err::<Seq<EntryView>, ConfigErrorView>(e@),
        },
{
    let mut out: Vec<Entry> = Vec::new();
    let fields = match doc_value(doc, "menu") {
        None => {
            assert(crate::resolve::entries_view(out@) =~= Seq::<EntryView>::empty());
            return Ok(out);
        },
        Some(ConfigValue::Table(t)) => t,
        Some(other) => {
            return Err(type_error(&ImStr::new("menu"), "table", other));
        },
    };
    let mut i: usize = 0;
    assert(fields@.subrange(0, 0) =~= Seq::<Field>::empty());
    assert(crate::resolve::entries_view(out@) =~= Seq::<EntryView>::empty());
    while i < fields.len()
        invariant
            i <= fields@.len(),
            menu_entries(fields@.subrange(0, i as int)) == Ok::<Seq<EntryView>, ConfigErrorView>(
                crate::resolve::entries_view(out@),
            ),
            doc_get(*doc, "menu"@) == Some(ConfigValue::Table(*fields)),
        decreases fields@.len() - i,
    {
        let ghost next = fields@.subrange(0, i + 1);
        assert(next.drop_last() =~= fields@.subrange(0, i as int));
        assert(next.last() == fields@[i as int]);
        match Entry::try_new(fields[i].key.clone(), &fields[i].value) {
            Ok(e) => {
                let ghost before = crate::resolve::entries_view(out@);
                out.push(e);
                assert(crate::resolve::entries_view(out@) =~= before.push(e@));
            },
            Err(e) => {
                proof {
                    lemma_entries_prefix_err(fields@, i + 1);
                }
                return Err(e);
            },
        }
        i = i + 1;
    }
    assert(fields@.subrange(0, i as int) =~= fields@);
    Ok(out)
}

/// A failed prefix decides the entries of the whole table.
proof fn lemma_entries_prefix_err(fields: Seq<Field>, k: int)
    requires
        0 <= k <= fields.len(),
        menu_entries(fields.subrange(0, k)) is Err,
    ensures
        menu_entries(fields) == menu_entries(fields.subrange(0, k)),
    decreases fields.len() - k,
{
    if k < fields.len() {
        let next = fields.subrange(0, k + 1);
        assert(next.drop_last() =~= fields.subrange(0, k));
        lemma_entries_prefix_err(fields, k + 1);
    } else {
        assert(fields.subrange(0, k) =~= fields);
    }
}

/// The document that an optional reference points to.
pub open spec fn opt_doc(doc: Option<&ConfigValue>) -> Option<ConfigValue> {
    match doc {
        Some(d) => Some(*d),
        None => None,
    }
}

/// The menu entries of the configuration (see [`entries_spec`]).
pub fn try_get_entries(config: &ConfigValue, home_config: Option<&ConfigValue>) -> (r: Result<Vec<Entry>, ConfigProblem>)
    ensures
        match r {
            Ok(v) => entries_spec(*config, opt_doc(home_config)) == Ok::<Seq<EntryView>, (bool, ConfigErrorView)>(
                crate::resolve::entries_view(v@),
            ),
            Err(p) => entries_spec(*config, opt_doc(home_config)) == Err::<Seq<EntryView>, (bool, ConfigErrorView)>(
                problem_view(p),
            ),
        },
{
    let mut menu = match read_entries(config) {
        Ok(v) => v,
        Err(error) => {
            return Err(ConfigProblem { origin: Origin::Target, error });
        },
    };
    let home = match home_config {
        None => {
            return Ok(menu);
        },
        Some(h) => h,
    };
    let home_menu = match read_entries(home) {
        Ok(v) => v,
        Err(error) => {
            return Err(ConfigProblem { origin: Origin::Home, error });
        },
    };
    let ghost target = crate::resolve::entries_view(menu@);
    let ghost extra = crate::resolve::entries_view(home_menu@);
    let mut names: Vec<Vec<char>> = Vec::new();
    let mut j: usize = 0;
    while j < menu.len()
        invariant
            j <= menu@.len(),
            names@.len() == j,
            forall|k: int| 0 <= k < j ==> #[trigger] names@[k]@ == menu@[k]@.name(),
        decreases menu@.len() - j,
    {
        let name = menu[j].name();
        names.push(crate::text::chars_of(name.as_str()));
        j = j + 1;
    }
    let mut k: usize = 0;
    assert(extra.subrange(0, 0) =~= Seq::<EntryView>::empty());
    assert(crate::resolve::entries_view(menu@) =~= target + extra_entries(extra.subrange(0, 0), target));
    while k < home_menu.len()
        invariant
            k <= home_menu@.len(),
            extra == crate::resolve::entries_view(home_menu@),
            names@.len() == target.len(),
            forall|x: int| 0 <= x < target.len() ==> #[trigger] names@[x]@ == target[x].name(),
            crate::resolve::entries_view(menu@) == target + extra_entries(extra.subrange(0, k as int), target),
        decreases home_menu@.len() - k,
    {
        let ghost next = extra.subrange(0, k + 1);
        assert(next.drop_last() =~= extra.subrange(0, k as int));
        assert(next.last() == home_menu@[k as int]@);
        let name = home_menu[k].name();
        let cs = crate::text::chars_of(name.as_str());
        let ghost before = crate::resolve::entries_view(menu@);
        match crate::resolve::find_name(&names, &cs) {
            Some(x) => {
                assert(target[x as int].name() == next.last().name());
            },
            None => {
                assert forall|x: int| 0 <= x < target.len() implies #[trigger] target[x].name() != next.last().name() by {
                    assert(names@[x]@ == target[x].name());
                }
                menu.push(home_menu[k].clone());
                assert(crate::resolve::entries_view(menu@) =~= before.push(next.last()));
            },
        }
        k = k + 1;
    }
    assert(extra.subrange(0, k as int) =~= extra);
    Ok(menu)
}


/// The value of the policy `name` in the `config` table of `doc`.
pub open spec fn section(doc: ConfigValue, name: Seq<char>) -> Result<Option<ConfigValue>, ConfigErrorView> {
    match doc_get(doc, "config"@) {
        None => Ok(None),
        Some(ConfigValue::Table(t)) => Ok(lookup(t@, name)),
        Some(other) => Err(wrong_type("config"@, seq!["table"@], other)),
    }
}

/// The policy `name` that `doc` sets, read by `parse`.
pub open spec fn parsed_section<V>(
    doc: ConfigValue,
    name: Seq<char>,
    parse: spec_fn(ConfigValue) -> Result<V, ConfigErrorView>,
) -> Result<Option<V>, ConfigErrorView> {
    match section(doc, name) {
        Err(e) => Err(e),
        Ok(None) => Ok(None),
        Ok(Some(v)) => match parse(v) {
            Ok(x) => Ok(Some(x)),
            Err(e) => Err(e),
        },
    }
}

/// The policy `name` of the configuration: `home`'s, merged over
/// `default`, is the base; `config`'s, merged over the base, wins.
pub open spec fn policy<V>(
    config: ConfigValue,
    home: Option<ConfigValue>,
    name: Seq<char>,
    parse: spec_fn(ConfigValue) -> Result<V, ConfigErrorView>,
    default: V,
    merge: spec_fn(V, V) -> V,
) -> Result<V, (bool, ConfigErrorView)> {
    match parsed_section(config, name, parse) {
        Err(e) => Err((false, e)),
        Ok(target) => {
            let from_home = match home {
                None => Ok(None),
                Some(h) => parsed_section(h, name, parse),
            };
            match from_home {
                Err(e) => Err((true, e)),
                Ok(hv) => {
                    let base = match hv {
                        Some(x) => merge(x, default),
                        None => default,
                    };
                    match target {
                        Some(x) => Ok(merge(x, base)),
                        None => Ok(base),
                    }
                },
            }
        },
    }
}

/// Keeps the first of two policies.
pub open spec fn first<V>(a: V, b: V) -> V {
    a
}

/// The default shell, as plain values.
pub open spec fn default_shell() -> ShellView {
    ShellView::Enabled { shell: seq![seq!['s', 'h'], seq!['-', 'c']], piped: false }
}

pub open spec fn shell_policy(config: ConfigValue, home: Option<ConfigValue>) -> Result<ShellView, (bool, ConfigErrorView)> {
    policy(config, home, "shell"@, |v: ConfigValue| shell_spec(v), default_shell(), |a: ShellView, b: ShellView| first(a, b))
}

pub open spec fn custom_policy(config: ConfigValue, home: Option<ConfigValue>) -> Result<Custom, (bool, ConfigErrorView)> {
    policy(config, home, "custom"@, |v: ConfigValue| custom_spec(v), Custom::Disabled, |a: Custom, b: Custom| first(a, b))
}

pub open spec fn numbered_policy(config: ConfigValue, home: Option<ConfigValue>) -> Result<Option<Option<Seq<char>>>, (bool, ConfigErrorView)> {
    policy(
        config,
        home,
        "numbered"@,
        |v: ConfigValue| numbered_spec(v),
        None,
        |a: Option<Option<Seq<char>>>, b: Option<Option<Seq<char>>>| first(a, b),
    )
}

pub open spec fn path_policy(config: ConfigValue, home: Option<ConfigValue>) -> Result<BinPathView, (bool, ConfigErrorView)> {
    policy(config, home, "path"@, |v: ConfigValue| path_spec(v), BinPathView::Disabled, |a: BinPathView, b: BinPathView| first(a, b))
}

pub open spec fn dmenu_policy(config: ConfigValue, home: Option<ConfigValue>) -> Result<DmenuView, (bool, ConfigErrorView)> {
    policy(config, home, "dmenu"@, |v: ConfigValue| dmenu_spec(v), dmenu_default(), |a: DmenuView, b: DmenuView| dmenu_merge(a, b))
}

fn section_value<'a>(doc: &'a ConfigValue, name: &str) -> (r: Result<Option<&'a ConfigValue>, ConfigError>)
    ensures
        match r {
            Ok(Some(v)) => section(*doc, name@) == Ok::<Option<ConfigValue>, ConfigErrorView>(Some(*v)),
            Ok(None) => section(*doc, name@) == Ok::<Option<ConfigValue>, ConfigErrorView>(None),
            Err(e) => section(*doc, name@) == Err::<Option<ConfigValue>, ConfigErrorView>(e@),
        },
{
    match doc_value(doc, "config") {
        None => Ok(None),
        Some(ConfigValue::Table(t)) => Ok(get(t, name)),
        Some(other) => Err(type_error(&ImStr::new("config"), "table", other)),
    }
}

fn problem(home: bool, error: ConfigError) -> (r: ConfigProblem)
    ensures
        problem_view(r) == (home, error@),
{
    ConfigProblem { origin: if home { Origin::Home } else { Origin::Target }, error }
}

fn read_shell(doc: &ConfigValue, home: bool) -> (r: Result<Option<Shell>, ConfigProblem>)
    ensures
        match r {
            Ok(Some(x)) => parsed_section(*doc, "shell"@, |v: ConfigValue| shell_spec(v)) == Ok::<Option<ShellView>, ConfigErrorView>(Some(x@)),
            Ok(None) => parsed_section(*doc, "shell"@, |v: ConfigValue| shell_spec(v)) == Ok::<Option<ShellView>, ConfigErrorView>(None),
            Err(p) => Err::<Option<ShellView>, ConfigErrorView>(p.error@) == parsed_section(*doc, "shell"@, |v: ConfigValue| shell_spec(v)) && (p.origin is Home) == home,
        },
{
    match section_value(doc, "shell") {
        Err(e) => Err(problem(home, e)),
        Ok(None) => Ok(None),
        Ok(Some(v)) => match Shell::try_from(v) {
            Ok(x) => Ok(Some(x)),
            Err(e) => Err(problem(home, e)),
        },
    }
}

fn read_custom(doc: &ConfigValue, home: bool) -> (r: Result<Option<Custom>, ConfigProblem>)
    ensures
        match r {
            Ok(x) => parsed_section(*doc, "custom"@, |v: ConfigValue| custom_spec(v)) == Ok::<Option<Custom>, ConfigErrorView>(x),
            Err(p) => Err::<Option<Custom>, ConfigErrorView>(p.error@) == parsed_section(*doc, "custom"@, |v: ConfigValue| custom_spec(v)) && (p.origin is Home) == home,
        },
{
    match section_value(doc, "custom") {
        Err(e) => Err(problem(home, e)),
        Ok(None) => Ok(None),
        Ok(Some(v)) => match Custom::try_from(v) {
            Ok(x) => Ok(Some(x)),
            Err(e) => Err(problem(home, e)),
        },
    }
}

/// The view of an optional numbering policy.
pub open spec fn opt_numbered(n: Option<Numbered>) -> Option<Option<Option<Seq<char>>>> {
    match n {
        Some(x) => Some(numbered_view(x)),
        None => None,
    }
}

fn read_numbered(doc: &ConfigValue, home: bool) -> (r: Result<Option<Numbered>, ConfigProblem>)
    ensures
        match r {
            Ok(x) => parsed_section(*doc, "numbered"@, |v: ConfigValue| numbered_spec(v)) == Ok::<Option<Option<Option<Seq<char>>>>, ConfigErrorView>(opt_numbered(x)),
            Err(p) => Err::<Option<Option<Option<Seq<char>>>>, ConfigErrorView>(p.error@) == parsed_section(*doc, "numbered"@, |v: ConfigValue| numbered_spec(v)) && (p.origin is Home) == home,
        },
{
    match section_value(doc, "numbered") {
        Err(e) => Err(problem(home, e)),
        Ok(None) => Ok(None),
        Ok(Some(v)) => match Numbered::try_from(v) {
            Ok(x) => Ok(Some(x)),
            Err(e) => Err(problem(home, e)),
        },
    }
}

fn read_path(doc: &ConfigValue, home: bool) -> (r: Result<Option<BinPath>, ConfigProblem>)
    ensures
        match r {
            Ok(Some(x)) => parsed_section(*doc, "path"@, |v: ConfigValue| path_spec(v)) == Ok::<Option<BinPathView>, ConfigErrorView>(Some(x@)),
            Ok(None) => parsed_section(*doc, "path"@, |v: ConfigValue| path_spec(v)) == Ok::<Option<BinPathView>, ConfigErrorView>(None),
            Err(p) => Err::<Option<BinPathView>, ConfigErrorView>(p.error@) == parsed_section(*doc, "path"@, |v: ConfigValue| path_spec(v)) && (p.origin is Home) == home,
        },
{
    match section_value(doc, "path") {
        Err(e) => Err(problem(home, e)),
        Ok(None) => Ok(None),
        Ok(Some(v)) => match BinPath::try_from(v) {
            Ok(x) => Ok(Some(x)),
            Err(e) => Err(problem(home, e)),
        },
    }
}

fn read_dmenu(doc: &ConfigValue, home: bool) -> (r: Result<Option<Dmenu>, ConfigProblem>)
    ensures
        match r {
            Ok(Some(x)) => parsed_section(*doc, "dmenu"@, |v: ConfigValue| dmenu_spec(v)) == Ok::<Option<DmenuView>, ConfigErrorView>(Some(x@)),
            Ok(None) => parsed_section(*doc, "dmenu"@, |v: ConfigValue| dmenu_spec(v)) == Ok::<Option<DmenuView>, ConfigErrorView>(None),
            Err(p) => Err::<Option<DmenuView>, ConfigErrorView>(p.error@) == parsed_section(*doc, "dmenu"@, |v: ConfigValue| dmenu_spec(v)) && (p.origin is Home) == home,
        },
{
    match section_value(doc, "dmenu") {
        Err(e) => Err(problem(home, e)),
        Ok(None) => Ok(None),
        Ok(Some(v)) => match Dmenu::try_from(v) {
            Ok(x) => Ok(Some(x)),
            Err(e) => Err(problem(home, e)),
        },
    }
}

fn shell_config(config: &ConfigValue, home: Option<&ConfigValue>) -> (r: Result<Shell, ConfigProblem>)
    ensures
        match r {
            Ok(x) => shell_policy(*config, opt_doc(home)) == Ok::<_, (bool, ConfigErrorView)>(x@),
            Err(p) => shell_policy(*config, opt_doc(home)) == Err::<ShellView, (bool, ConfigErrorView)>(problem_view(p)),
        },
{
    let target = match read_shell(config, false) {
        Ok(x) => x,
        Err(p) => {
            return Err(p);
        },
    };
    let from_home = match home {
        None => None,
        Some(h) => match read_shell(h, true) {
            Ok(x) => x,
            Err(p) => {
                return Err(p);
            },
        },
    };
    Ok(match target {
        Some(x) => x,
        None => match from_home {
            Some(x) => x,
            None => Shell::default(),
        },
    })
}

fn custom_config(config: &ConfigValue, home: Option<&ConfigValue>) -> (r: Result<Custom, ConfigProblem>)
    ensures
        match r {
            Ok(x) => custom_policy(*config, opt_doc(home)) == Ok::<_, (bool, ConfigErrorView)>(x),
            Err(p) => custom_policy(*config, opt_doc(home)) == Err::<Custom, (bool, ConfigErrorView)>(problem_view(p)),
        },
{
    let target = match read_custom(config, false) {
        Ok(x) => x,
        Err(p) => {
            return Err(p);
        },
    };
    let from_home = match home {
        None => None,
        Some(h) => match read_custom(h, true) {
            Ok(x) => x,
            Err(p) => {
                return Err(p);
            },
        },
    };
    Ok(match target {
        Some(x) => x,
        None => match from_home {
            Some(x) => x,
            None => Custom::Disabled,
        },
    })
}

fn numbered_config(config: &ConfigValue, home: Option<&ConfigValue>) -> (r: Result<Numbered, ConfigProblem>)
    ensures
        match r {
            Ok(x) => numbered_policy(*config, opt_doc(home)) == Ok::<_, (bool, ConfigErrorView)>(numbered_view(x)),
            Err(p) => numbered_policy(*config, opt_doc(home)) == Err::<Option<Option<Seq<char>>>, (bool, ConfigErrorView)>(problem_view(p)),
        },
{
    let target = match read_numbered(config, false) {
        Ok(x) => x,
        Err(p) => {
            return Err(p);
        },
    };
    let from_home = match home {
        None => None,
        Some(h) => match read_numbered(h, true) {
            Ok(x) => x,
            Err(p) => {
                return Err(p);
            },
        },
    };
    Ok(match target {
        Some(x) => x,
        None => match from_home {
            Some(x) => x,
            None => Numbered::Disabled,
        },
    })
}

fn path_config(config: &ConfigValue, home: Option<&ConfigValue>) -> (r: Result<BinPath, ConfigProblem>)
    ensures
        match r {
            Ok(x) => path_policy(*config, opt_doc(home)) == Ok::<_, (bool, ConfigErrorView)>(x@),
            Err(p) => path_policy(*config, opt_doc(home)) == Err::<BinPathView, (bool, ConfigErrorView)>(problem_view(p)),
        },
{
    let target = match read_path(config, false) {
        Ok(x) => x,
        Err(p) => {
            return Err(p);
        },
    };
    let from_home = match home {
        None => None,
        Some(h) => match read_path(h, true) {
            Ok(x) => x,
            Err(p) => {
                return Err(p);
            },
        },
    };
    Ok(match target {
        Some(x) => x,
        None => match from_home {
            Some(x) => x,
            None => BinPath::Disabled,
        },
    })
}

fn dmenu_config(config: &ConfigValue, home: Option<&ConfigValue>) -> (r: Result<Dmenu, ConfigProblem>)
    ensures
        match r {
            Ok(x) => dmenu_policy(*config, opt_doc(home)) == Ok::<_, (bool, ConfigErrorView)>(x@),
            Err(p) => dmenu_policy(*config, opt_doc(home)) == Err::<DmenuView, (bool, ConfigErrorView)>(problem_view(p)),
        },
{
    let target = match read_dmenu(config, false) {
        Ok(x) => x,
        Err(p) => {
            return Err(p);
        },
    };
    let from_home = match home {
        None => None,
        Some(h) => match read_dmenu(h, true) {
            Ok(x) => x,
            Err(p) => {
                return Err(p);
            },
        },
    };
    let base = match from_home {
        Some(x) => x.merge(Dmenu::default()),
        None => Dmenu::default(),
    };
    Ok(match target {
        Some(x) => x.merge(base),
        None => base,
    })
}

/// The configuration read from a document and the optional home document.
#[derive(Debug)]
pub struct Config {
    pub entries: Vec<Entry>,
    pub shell: Shell,
    pub custom: Custom,
    pub numbered: Numbered,
    pub path: BinPath,
    pub dmenu: Dmenu,
}

/// The first problem of the configuration, reading the entries, then the
/// shell, typed commands, numbering, scanning and picker policies.
pub open spec fn config_problem(config: ConfigValue, home: Option<ConfigValue>) -> Option<(bool, ConfigErrorView)> {
    if entries_spec(config, home) is Err {
        Some(entries_spec(config, home)->Err_0)
    } else if shell_policy(config, home) is Err {
        Some(shell_policy(config, home)->Err_0)
    } else if custom_policy(config, home) is Err {
        Some(custom_policy(config, home)->Err_0)
    } else if numbered_policy(config, home) is Err {
        Some(numbered_policy(config, home)->Err_0)
    } else if path_policy(config, home) is Err {
        Some(path_policy(config, home)->Err_0)
    } else if dmenu_policy(config, home) is Err {
        Some(dmenu_policy(config, home)->Err_0)
    } else {
        None
    }
}

impl Config {
    /// The configuration of `config`, with `home_config` filling in what
    /// it does not set.
    pub fn try_new(config: &ConfigValue, home_config: Option<&ConfigValue>) -> (r: Result<Self, ConfigProblem>)
        ensures
            r is Ok <==> config_problem(*config, opt_doc(home_config)) is None,
            r matches Err(p) ==> config_problem(*config, opt_doc(home_config)) == Some(problem_view(p)),
            r matches Ok(c) ==> {
                let home = opt_doc(home_config);
                &&& entries_spec(*config, home) == Ok::<_, (bool, ConfigErrorView)>(crate::resolve::entries_view(c.entries@))
                &&& shell_policy(*config, home) == Ok::<_, (bool, ConfigErrorView)>(c.shell@)
                &&& custom_policy(*config, home) == Ok::<_, (bool, ConfigErrorView)>(c.custom)
                &&& numbered_policy(*config, home) == Ok::<_, (bool, ConfigErrorView)>(numbered_view(c.numbered))
                &&& path_policy(*config, home) == Ok::<_, (bool, ConfigErrorView)>(c.path@)
                &&& dmenu_policy(*config, home) == Ok::<_, (bool, ConfigErrorView)>(c.dmenu@)
            },
    {
        let entries = match try_get_entries(config, home_config) {
            Ok(x) => x,
            Err(p) => {
                return Err(p);
            },
        };
        let shell = match shell_config(config, home_config) {
            Ok(x) => x,
            Err(p) => {
                return Err(p);
            },
        };
        let custom = match custom_config(config, home_config) {
            Ok(x) => x,
            Err(p) => {
                return Err(p);
            },
        };
        let numbered = match numbered_config(config, home_config) {
            Ok(x) => x,
            Err(p) => {
                return Err(p);
            },
        };
        let path = match path_config(config, home_config) {
            Ok(x) => x,
            Err(p) => {
                return Err(p);
            },
        };
        let dmenu = match dmenu_config(config, home_config) {
            Ok(x) => x,
            Err(p) => {
                return Err(p);
            },
        };
        Ok(Config { entries, shell, custom, numbered, path, dmenu })
    }
}

/// `s` between backquotes.
pub open spec fn quoted(s: Seq<char>) -> Seq<char> {
    "`"@ + s + "`"@
}

/// Each of `ts` quoted and followed by a comma and a space.
pub open spec fn comma_list(ts: Seq<Seq<char>>) -> Seq<char>
    decreases ts.len(),
{
    if ts.len() == 0 {
        Seq::empty()
    } else {
        comma_list(ts.drop_last()) + quoted(ts.last()) + ", "@
    }
}

/// The quoted names `ts` as a list with `or`: `a`; `a` or `b`; `a`, `b`, or `c`.
pub open spec fn type_list(ts: Seq<Seq<char>>) -> Seq<char> {
    if ts.len() == 0 {
        Seq::empty()
    } else if ts.len() == 1 {
        quoted(ts[0])
    } else if ts.len() == 2 {
        quoted(ts[0]) + " or "@ + quoted(ts[1])
    } else {
        comma_list(ts.drop_last()) + "or "@ + quoted(ts.last())
    }
}

/// The message that describes an error.
pub open spec fn error_message(e: ConfigErrorView) -> Seq<char> {
    match e {
        ConfigErrorView::WrongType { key, expected, found } => quoted(key) + " must be of type "@
            + type_list(expected) + ", but is of type "@ + quoted(found),
        ConfigErrorView::NotStrings { key, found } => "the array "@ + quoted(key)
            + " must only contain elements of type `string`, but an element is of type "@ + quoted(found),
        ConfigErrorView::MissingRun { key } => quoted(key + ".run"@) + " must have a value if "@ + quoted(key)
            + " is a table"@,
        ConfigErrorView::Negative { key } => quoted(key) + " must be a positive integer, but is negative"@,
    }
}

fn push_quoted(out: &mut String, s: &str)
    ensures
        final(out)@ == old(out)@ + quoted(s@),
{
    out.append("`");
    out.append(s);
    out.append("`");
    assert(final(out)@ =~= old(out)@ + quoted(s@));
}

fn push_type_list(out: &mut String, ts: &Vec<ImStr>)
    ensures
        final(out)@ == old(out)@ + type_list(strs_view(ts@)),
{
    let ghost v = strs_view(ts@);
    let n = ts.len();
    if n == 0 {
        assert(old(out)@ + type_list(v) =~= old(out)@);
    } else if n == 1 {
        push_quoted(out, ts[0].as_str());
    } else if n == 2 {
        push_quoted(out, ts[0].as_str());
        out.append(" or ");
        push_quoted(out, ts[1].as_str());
        assert(final(out)@ =~= old(out)@ + type_list(v));
    } else {
        let ghost start = out@;
        let mut i: usize = 0;
        assert(v.subrange(0, 0) =~= Seq::<Seq<char>>::empty());
        assert(out@ =~= start + comma_list(v.subrange(0, 0)));
        while i < n - 1
            invariant
                n == ts@.len(),
                n >= 3,
                v == strs_view(ts@),
                i <= n - 1,
                out@ == start + comma_list(v.subrange(0, i as int)),
            decreases n - 1 - i,
        {
            let ghost before = out@;
            push_quoted(out, ts[i].as_str());
            out.append(", ");
            proof {
                let next = v.subrange(0, i + 1);
                assert(next.drop_last() =~= v.subrange(0, i as int));
                assert(next.last() == ts@[i as int]@);
                assert(out@ =~= start + comma_list(next));
            }
            i = i + 1;
        }
        let ghost mid = out@;
        out.append("or ");
        push_quoted(out, ts[n - 1].as_str());
        assert(v.subrange(0, n - 1) =~= v.drop_last());
        assert(out@ =~= start + type_list(v));
    }
}

impl ConfigError {
    /// A sentence that describes the error.
    pub fn message(&self) -> (r: String)
        ensures
            r@ == error_message(self@),
    {
        let mut out = String::new();
        match self {
            ConfigError::WrongType { key, expected, found } => {
                push_quoted(&mut out, key.as_str());
                out.append(" must be of type ");
                push_type_list(&mut out, expected);
                out.append(", but is of type ");
                push_quoted(&mut out, found.as_str());
            },
            ConfigError::NotStrings { key, found } => {
                out.append("the array ");
                push_quoted(&mut out, key.as_str());
                out.append(" must only contain elements of type `string`, but an element is of type ");
                push_quoted(&mut out, found.as_str());
            },
            ConfigError::MissingRun { key } => {
                let mut run_key = key.to_string();
                run_key.append(".run");
                push_quoted(&mut out, run_key.as_str());
                out.append(" must have a value if ");
                push_quoted(&mut out, key.as_str());
                out.append(" is a table");
            },
            ConfigError::Negative { key } => {
                push_quoted(&mut out, key.as_str());
                out.append(" must be a positive integer, but is negative");
            },
        }
        assert(out@ =~= error_message(self@));
        out
    }
}

/// The context of a problem in the configuration given on the command line.
pub fn target_config_error() -> (r: &'static str)
    ensures
        r@ == "found a problem with provided config"@,
{
    "found a problem with provided config"
}

/// The context of a problem in the home configuration at `path`.
pub fn home_config_error(path: &str) -> (r: String)
    ensures
        r@ == "found a problem with home config "@ + quoted(path@),
{
    let mut out = "found a problem with home config ".to_owned();
    push_quoted(&mut out, path);
    out
}

} // verus!
