//! The typed configuration: menu entries and the policies that govern them.

use vstd::prelude::*;
use crate::imstr::ImStr;
use crate::tag::{digit_text, push_digits, Decimal};

verus! {

/// The characters of each string in `v`.
pub open spec fn strs_view(v: Seq<ImStr>) -> Seq<Seq<char>> {
    v.map_values(|s: ImStr| s@)
}

/// How a command is run.
#[derive(Debug)]
pub enum Run {
    /// One string for a shell to interpret.
    Shell(ImStr),
    /// A program and its arguments, run without a shell.
    Bare(Vec<ImStr>),
}

/// A [`Run`] as plain text values.
pub enum RunView {
    Shell(Seq<char>),
    Bare(Seq<Seq<char>>),
}

impl View for Run {
    type V = RunView;

    open spec fn view(&self) -> RunView {
        match self {
            Run::Shell(s) => RunView::Shell(s@),
            Run::Bare(v) => RunView::Bare(strs_view(v@)),
        }
    }
}

/// A copy of each string of `v`, with the same characters.
pub fn clone_strs(v: &Vec<ImStr>) -> (r: Vec<ImStr>)
    ensures
        strs_view(r@) == strs_view(v@),
{
    let mut out: Vec<ImStr> = Vec::new();
    let mut i: usize = 0;
    while i < v.len()
        invariant
            i <= v@.len(),
            out@.len() == i,
            forall|k: int| 0 <= k < i ==> #[trigger] out@[k]@ == v@[k]@,
        decreases v@.len() - i,
    {
        out.push(v[i].clone());
        i = i + 1;
    }
    assert(strs_view(out@) =~= strs_view(v@));
    out
}

impl Run {
    /// Runs the program at `run` with no arguments.
    pub fn binary(run: ImStr) -> (r: Self)
        ensures
            r@ == RunView::Bare(seq![run@]),
    {
        let ghost v = run@;
        let mut args: Vec<ImStr> = Vec::new();
        args.push(run);
        assert(strs_view(args@) =~= seq![v]);
        Run::Bare(args)
    }
}

impl Clone for Run {
    fn clone(&self) -> (r: Self)
        ensures
            r@ == self@,
    {
        match self {
            Run::Shell(s) => Run::Shell(s.clone()),
            Run::Bare(v) => Run::Bare(clone_strs(v)),
        }
    }
}

/// A menu entry as configured.
#[derive(Debug)]
pub enum Entry {
    /// A named command with its group, used for ordering.
    Full { name: ImStr, run: Run, group: i64 },
    /// A name that runs as itself.
    Name(ImStr),
    /// A name to hide from the menu.
    Filter(ImStr),
}

/// An [`Entry`] as plain values.
pub enum EntryView {
    Full { name: Seq<char>, run: RunView, group: int },
    Name(Seq<char>),
    Filter(Seq<char>),
}

impl EntryView {
    pub open spec fn name(self) -> Seq<char> {
        match self {
            EntryView::Full { name, .. } => name,
            EntryView::Name(name) => name,
            EntryView::Filter(name) => name,
        }
    }
}

impl View for Entry {
    type V = EntryView;

    open spec fn view(&self) -> EntryView {
        match self {
            Entry::Full { name, run, group } => EntryView::Full {
                name: name@,
                run: run@,
                group: *group as int,
            },
            Entry::Name(name) => EntryView::Name(name@),
            Entry::Filter(name) => EntryView::Filter(name@),
        }
    }
}

impl Entry {
    pub fn name(&self) -> (r: ImStr)
        ensures
            r@ == self@.name(),
    {
        match self {
            Entry::Full { name, .. } => name.clone(),
            Entry::Name(name) => name.clone(),
            Entry::Filter(name) => name.clone(),
        }
    }
}

impl Clone for Entry {
    fn clone(&self) -> (r: Self)
        ensures
            r@ == self@,
    {
        match self {
            Entry::Full { name, run, group } => Entry::Full {
                name: name.clone(),
                run: run.clone(),
                group: *group,
            },
            Entry::Name(name) => Entry::Name(name.clone()),
            Entry::Filter(name) => Entry::Filter(name.clone()),
        }
    }
}

/// Whether, and how, shell commands are run.
#[derive(Debug)]
pub enum Shell {
    Disabled,
    /// `shell` is the program and its leading arguments; with `piped` the
    /// command is written to its standard input instead of being passed as
    /// the last argument.
    Enabled { shell: Vec<ImStr>, piped: bool },
}

impl Shell {
    pub fn is_enabled(&self) -> (r: bool)
        ensures
            r == (self is Enabled),
    {
        match self {
            Shell::Disabled => false,
            Shell::Enabled { .. } => true,
        }
    }
}

impl Default for Shell {
    /// `sh -c`, with the command as its last argument.
    fn default() -> (r: Self)
        ensures
            r matches Shell::Enabled { shell, piped } && !piped && strs_view(shell@) == seq![
                seq!['s', 'h'],
                seq!['-', 'c'],
            ],
    {
        let mut shell: Vec<ImStr> = Vec::new();
        shell.push(ImStr::new("sh"));
        shell.push(ImStr::new("-c"));
        proof {
            reveal_strlit("sh");
            reveal_strlit("-c");
            assert("sh"@ =~= seq!['s', 'h']);
            assert("-c"@ =~= seq!['-', 'c']);
            assert(strs_view(shell@) =~= seq![seq!['s', 'h'], seq!['-', 'c']]);
        }
        Shell::Enabled { shell, piped: false }
    }
}

/// Whether text typed into the picker, matching no entry, runs as a shell command.
#[derive(Debug)]
pub enum Custom {
    Disabled,
    Enabled,
}

impl Default for Custom {
    fn default() -> (r: Self)
        ensures
            r is Disabled,
    {
        Custom::Disabled
    }
}

/// Whether menu lines start with their visible number.
#[derive(Debug)]
pub enum Numbered {
    Disabled,
    Enabled(Separator),
}

impl Numbered {
    /// The text between a line's number and its name.
    pub fn separator(&self) -> (r: &str)
        ensures
            r@ == match self {
                Numbered::Enabled(Separator::Enabled(s)) => s@,
                _ => Seq::<char>::empty(),
            },
    {
        match self {
            Numbered::Enabled(Separator::Enabled(separator)) => separator.as_str(),
            _ => {
                proof {
                    reveal_strlit("");
                }
                ""
            },
        }
    }

    pub fn is_enabled(&self) -> (r: bool)
        ensures
            r == (self is Enabled),
    {
        match self {
            Numbered::Disabled => false,
            Numbered::Enabled(_) => true,
        }
    }
}

impl Default for Numbered {
    fn default() -> (r: Self)
        ensures
            r is Disabled,
    {
        Numbered::Disabled
    }
}

/// The text shown between a line's number and its name.
#[derive(Debug)]
pub enum Separator {
    Disabled,
    Enabled(ImStr),
}

impl Default for Separator {
    /// A colon and a space.
    fn default() -> (r: Self)
        ensures
            r matches Separator::Enabled(s) && s@ == seq![':', ' '],
    {
        proof {
            reveal_strlit(": ");
            assert(": "@ =~= seq![':', ' ']);
        }
        Separator::Enabled(ImStr::new(": "))
    }
}

/// Whether, and where, executables are looked for to add to the menu.
#[derive(Debug)]
pub enum BinPath {
    Disabled,
    Enabled {
        /// Directories to scan; one that starts with `~/` is under the home directory.
        path: Vec<ImStr>,
        /// Whether the directories of `PATH` are scanned too.
        env: bool,
        /// Whether a discovered executable replaces the command of a
        /// configured entry of the same name.
        replace: bool,
        /// Whether subdirectories are scanned.
        recursive: bool,
        /// The group of discovered executables.
        group: i64,
    },
}

impl Default for BinPath {
    fn default() -> (r: Self)
        ensures
            r is Disabled,
    {
        BinPath::Disabled
    }
}

/// The options passed to the picker.
#[derive(Debug)]
pub struct Dmenu {
    pub prompt: Option<ImStr>,
    pub font: Option<ImStr>,
    pub background: Option<ImStr>,
    pub foreground: Option<ImStr>,
    pub selected_background: Option<ImStr>,
    pub selected_foreground: Option<ImStr>,
    pub lines: Option<u64>,
    pub bottom: bool,
    pub case_sensitive: bool,
    pub fast: bool,
    pub monitor: Option<u64>,
    pub window_id: Option<ImStr>,
}

/// The characters of an optional string.
pub open spec fn opt_view(v: Option<ImStr>) -> Option<Seq<char>> {
    match v {
        Some(s) => Some(s@),
        None => None,
    }
}

/// The decimal text of an optional number.
pub open spec fn opt_number(v: Option<u64>) -> Option<Seq<char>> {
    match v {
        Some(n) => Some(digit_text::<Decimal>(n as nat)),
        None => None,
    }
}

/// A flag followed by its value, or nothing when there is no value.
pub open spec fn option_args(flag: Seq<char>, value: Option<Seq<char>>) -> Seq<Seq<char>> {
    match value {
        Some(v) => seq![flag, v],
        None => Seq::empty(),
    }
}

/// `flag` alone when `on` holds, else nothing.
pub open spec fn switch_args(flag: Seq<char>, on: bool) -> Seq<Seq<char>> {
    if on {
        seq![flag]
    } else {
        Seq::empty()
    }
}

impl Dmenu {
    /// The picker's arguments: the switches `-b`, `-i` (when not case
    /// sensitive) and `-f`, then each option that is set, after its flag.
    pub open spec fn args_spec(&self) -> Seq<Seq<char>> {
        switch_args(seq!['-', 'b'], self.bottom) + switch_args(seq!['-', 'i'], !self.case_sensitive)
            + switch_args(seq!['-', 'f'], self.fast) + option_args(seq!['-', 'p'], opt_view(self.prompt))
            + option_args(seq!['-', 'f', 'n'], opt_view(self.font)) + option_args(
            seq!['-', 'n', 'b'],
            opt_view(self.background),
        ) + option_args(seq!['-', 'n', 'f'], opt_view(self.foreground)) + option_args(
            seq!['-', 's', 'b'],
            opt_view(self.selected_background),
        ) + option_args(seq!['-', 's', 'f'], opt_view(self.selected_foreground)) + option_args(
            seq!['-', 'l'],
            opt_number(self.lines),
        ) + option_args(seq!['-', 'm'], opt_number(self.monitor)) + option_args(
            seq!['-', 'w'],
            opt_view(self.window_id),
        )
    }

    pub fn args(&self) -> (r: Vec<ImStr>)
        ensures
            strs_view(r@) == self.args_spec(),
    {
        let mut args: Vec<ImStr> = Vec::new();
        proof {
            reveal_strlit("-b");
            assert("-b"@ =~= seq!['-', 'b']);
            reveal_strlit("-i");
            assert("-i"@ =~= seq!['-', 'i']);
            reveal_strlit("-f");
            assert("-f"@ =~= seq!['-', 'f']);
            reveal_strlit("-p");
            assert("-p"@ =~= seq!['-', 'p']);
            reveal_strlit("-fn");
            assert("-fn"@ =~= seq!['-', 'f', 'n']);
            reveal_strlit("-nb");
            assert("-nb"@ =~= seq!['-', 'n', 'b']);
            reveal_strlit("-nf");
            assert("-nf"@ =~= seq!['-', 'n', 'f']);
            reveal_strlit("-sb");
            assert("-sb"@ =~= seq!['-', 's', 'b']);
            reveal_strlit("-sf");
            assert("-sf"@ =~= seq!['-', 's', 'f']);
            reveal_strlit("-l");
            assert("-l"@ =~= seq!['-', 'l']);
            reveal_strlit("-m");
            assert("-m"@ =~= seq!['-', 'm']);
            reveal_strlit("-w");
            assert("-w"@ =~= seq!['-', 'w']);
        }
        push_switch(&mut args, "-b", self.bottom);
        push_switch(&mut args, "-i", !self.case_sensitive);
        push_switch(&mut args, "-f", self.fast);
        push_option(&mut args, "-p", &self.prompt);
        push_option(&mut args, "-fn", &self.font);
        push_option(&mut args, "-nb", &self.background);
        push_option(&mut args, "-nf", &self.foreground);
        push_option(&mut args, "-sb", &self.selected_background);
        push_option(&mut args, "-sf", &self.selected_foreground);
        push_number(&mut args, "-l", self.lines);
        push_number(&mut args, "-m", self.monitor);
        push_option(&mut args, "-w", &self.window_id);
        assert(strs_view(args@) =~= self.args_spec());
        args
    }

    /// Each option of `self`, or of `default` where `self` has none; each
    /// switch set in either.
    pub fn merge(self, default: Self) -> (r: Self)
        ensures
            r@ == dmenu_merge(self@, default@),
    {
        Dmenu {
            prompt: or_else(self.prompt, default.prompt),
            font: or_else(self.font, default.font),
            background: or_else(self.background, default.background),
            foreground: or_else(self.foreground, default.foreground),
            selected_background: or_else(self.selected_background, default.selected_background),
            selected_foreground: or_else(self.selected_foreground, default.selected_foreground),
            lines: if self.lines.is_some() { self.lines } else { default.lines },
            bottom: self.bottom || default.bottom,
            case_sensitive: self.case_sensitive || default.case_sensitive,
            fast: self.fast || default.fast,
            monitor: if self.monitor.is_some() { self.monitor } else { default.monitor },
            window_id: or_else(self.window_id, default.window_id),
        }
    }
}

/// No option set and no switch on.
pub open spec fn dmenu_default() -> DmenuView {
    DmenuView {
        prompt: None,
        font: None,
        background: None,
        foreground: None,
        selected_background: None,
        selected_foreground: None,
        lines: None,
        bottom: false,
        case_sensitive: false,
        fast: false,
        monitor: None,
        window_id: None,
    }
}

impl Default for Dmenu {
    /// No option set and no switch on.
    fn default() -> (r: Self)
        ensures
            r@ == dmenu_default(),
    {
        Dmenu {
            prompt: None,
            font: None,
            background: None,
            foreground: None,
            selected_background: None,
            selected_foreground: None,
            lines: None,
            bottom: false,
            case_sensitive: false,
            fast: false,
            monitor: None,
            window_id: None,
        }
    }
}

/// Each option of `a`, or of `b` where `a` has none; each switch set in either.
pub open spec fn dmenu_merge(a: DmenuView, b: DmenuView) -> DmenuView {
    DmenuView {
        prompt: if a.prompt is Some { a.prompt } else { b.prompt },
        font: if a.font is Some { a.font } else { b.font },
        background: if a.background is Some { a.background } else { b.background },
        foreground: if a.foreground is Some { a.foreground } else { b.foreground },
        selected_background: if a.selected_background is Some { a.selected_background } else { b.selected_background },
        selected_foreground: if a.selected_foreground is Some { a.selected_foreground } else { b.selected_foreground },
        lines: if a.lines is Some { a.lines } else { b.lines },
        bottom: a.bottom || b.bottom,
        case_sensitive: a.case_sensitive || b.case_sensitive,
        fast: a.fast || b.fast,
        monitor: if a.monitor is Some { a.monitor } else { b.monitor },
        window_id: if a.window_id is Some { a.window_id } else { b.window_id },
    }
}

fn or_else(first: Option<ImStr>, second: Option<ImStr>) -> (r: Option<ImStr>)
    ensures
        opt_view(r) == (if first is Some { opt_view(first) } else { opt_view(second) }),
{
    match first {
        Some(v) => Some(v),
        None => second,
    }
}

fn push_switch(args: &mut Vec<ImStr>, flag: &'static str, on: bool)
    ensures
        strs_view(final(args)@) == strs_view(old(args)@) + switch_args(flag@, on),
{
    if on {
        args.push(ImStr::new(flag));
    }
    assert(strs_view(final(args)@) =~= strs_view(old(args)@) + switch_args(flag@, on));
}

fn push_option(args: &mut Vec<ImStr>, flag: &'static str, value: &Option<ImStr>)
    ensures
        strs_view(final(args)@) == strs_view(old(args)@) + option_args(flag@, opt_view(*value)),
{
    if let Some(v) = value {
        args.push(ImStr::new(flag));
        args.push(v.clone());
    }
    assert(strs_view(final(args)@) =~= strs_view(old(args)@) + option_args(
        flag@,
        opt_view(*value),
    ));
}

fn push_number(args: &mut Vec<ImStr>, flag: &'static str, value: Option<u64>)
    ensures
        strs_view(final(args)@) == strs_view(old(args)@) + option_args(flag@, opt_number(value)),
{
    if let Some(n) = value {
        let mut text = String::new();
        push_digits::<Decimal>(n, &mut text);
        args.push(ImStr::new(flag));
        args.push(ImStr::from(text));
    }
    assert(strs_view(final(args)@) =~= strs_view(old(args)@) + option_args(
        flag@,
        opt_number(value),
    ));
}

/// A [`Shell`] as plain values.
pub enum ShellView {
    Disabled,
    Enabled { shell: Seq<Seq<char>>, piped: bool },
}

impl View for Shell {
    type V = ShellView;

    open spec fn view(&self) -> ShellView {
        match self {
            Shell::Disabled => ShellView::Disabled,
            Shell::Enabled { shell, piped } => ShellView::Enabled { shell: strs_view(shell@), piped: *piped },
        }
    }
}

/// A [`Numbered`] policy as plain values: `None` when disabled, else the
/// separator, itself `None` when disabled.
pub open spec fn numbered_view(n: Numbered) -> Option<Option<Seq<char>>> {
    match n {
        Numbered::Disabled => None,
        Numbered::Enabled(Separator::Disabled) => Some(None),
        Numbered::Enabled(Separator::Enabled(s)) => Some(Some(s@)),
    }
}

/// A [`Separator`] as plain values.
pub open spec fn separator_view(s: Separator) -> Option<Seq<char>> {
    match s {
        Separator::Disabled => None,
        Separator::Enabled(t) => Some(t@),
    }
}

/// A [`BinPath`] as plain values.
pub enum BinPathView {
    Disabled,
    Enabled { path: Seq<Seq<char>>, env: bool, replace: bool, recursive: bool, group: int },
}

impl View for BinPath {
    type V = BinPathView;

    open spec fn view(&self) -> BinPathView {
        match self {
            BinPath::Disabled => BinPathView::Disabled,
            BinPath::Enabled { path, env, replace, recursive, group } => BinPathView::Enabled {
                path: strs_view(path@),
                env: *env,
                replace: *replace,
                recursive: *recursive,
                group: *group as int,
            },
        }
    }
}

/// A [`Dmenu`] as plain values.
pub struct DmenuView {
    pub prompt: Option<Seq<char>>,
    pub font: Option<Seq<char>>,
    pub background: Option<Seq<char>>,
    pub foreground: Option<Seq<char>>,
    pub selected_background: Option<Seq<char>>,
    pub selected_foreground: Option<Seq<char>>,
    pub lines: Option<int>,
    pub bottom: bool,
    pub case_sensitive: bool,
    pub fast: bool,
    pub monitor: Option<int>,
    pub window_id: Option<Seq<char>>,
}

/// An optional number as a plain value.
pub open spec fn opt_int_view(v: Option<u64>) -> Option<int> {
    match v {
        Some(n) => Some(n as int),
        None => None,
    }
}

impl View for Dmenu {
    type V = DmenuView;

    open spec fn view(&self) -> DmenuView {
        DmenuView {
            prompt: opt_view(self.prompt),
            font: opt_view(self.font),
            background: opt_view(self.background),
            foreground: opt_view(self.foreground),
            selected_background: opt_view(self.selected_background),
            selected_foreground: opt_view(self.selected_foreground),
            lines: opt_int_view(self.lines),
            bottom: self.bottom,
            case_sensitive: self.case_sensitive,
            fast: self.fast,
            monitor: opt_int_view(self.monitor),
            window_id: opt_view(self.window_id),
        }
    }
}

/// The words of a command, separated by single spaces.
pub open spec fn joined(words: Seq<Seq<char>>) -> Seq<char>
    decreases words.len(),
{
    if words.len() == 0 {
        Seq::empty()
    } else if words.len() == 1 {
        words[0]
    } else {
        joined(words.drop_last()) + seq![' '] + words.last()
    }
}

/// The words of a command, separated by single spaces.
pub fn display_bare(run: &Vec<ImStr>) -> (r: String)
    ensures
        r@ == joined(strs_view(run@)),
{
    let ghost v = strs_view(run@);
    let mut buf = String::new();
    let mut i: usize = 0;
    assert(v.subrange(0, 0) =~= Seq::<Seq<char>>::empty());
    while i < run.len()
        invariant
            v == strs_view(run@),
            i <= run@.len(),
            buf@ == joined(v.subrange(0, i as int)),
        decreases run@.len() - i,
    {
        let ghost before = buf@;
        if i > 0 {
            crate::text::push_char(&mut buf, ' ');
        }
        buf.append(run[i].as_str());
        proof {
            let next = v.subrange(0, i + 1);
            assert(next.drop_last() =~= v.subrange(0, i as int));
            assert(next.last() == run@[i as int]@);
            if i == 0 {
                assert(buf@ =~= joined(next));
            } else {
                assert(buf@ =~= joined(next));
            }
        }
        i = i + 1;
    }
    assert(v.subrange(0, i as int) =~= v);
    buf
}

impl Run {
    /// The command as text: shell text as it is, a bare command's words
    /// separated by single spaces.
    pub fn to_text(&self) -> (r: String)
        ensures
            r@ == match self@ {
                RunView::Shell(s) => s,
                RunView::Bare(words) => joined(words),
            },
    {
        match self {
            Run::Shell(s) => s.to_string(),
            Run::Bare(words) => display_bare(words),
        }
    }
}

} // verus!
