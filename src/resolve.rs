//! Merging configured entries with discovered executables into the ordered
//! list of entries that the menu shows.

use vstd::prelude::*;
use crate::config::{BinPath, Entry, EntryView, Run, RunView, Shell};
use crate::imstr::ImStr;
use crate::order::{sort_entries, sorted};
use crate::text::{chars_of, push_char, same_chars};

verus! {

/// A menu entry ready to run. Its position in the resolved list is its tag.
#[derive(Debug)]
pub struct RunEntry {
    pub name: ImStr,
    pub run: Run,
    pub group: i64,
}

/// A [`RunEntry`] as plain values.
pub struct RunEntryView {
    pub name: Seq<char>,
    pub run: RunView,
    pub group: int,
}

impl View for RunEntry {
    type V = RunEntryView;

    open spec fn view(&self) -> RunEntryView {
        RunEntryView { name: self.name@, run: self.run@, group: self.group as int }
    }
}

/// An executable found while scanning a directory: its full path and its file name.
#[derive(Debug)]
pub struct Discovered {
    pub path: ImStr,
    pub name: ImStr,
}

/// A [`Discovered`] executable as plain values.
pub struct DiscoveredView {
    pub path: Seq<char>,
    pub name: Seq<char>,
}

impl View for Discovered {
    type V = DiscoveredView;

    open spec fn view(&self) -> DiscoveredView {
        DiscoveredView { path: self.path@, name: self.name@ }
    }
}

/// The views of a sequence of configured entries.
pub open spec fn entries_view(c: Seq<Entry>) -> Seq<EntryView> {
    c.map_values(|e: Entry| e@)
}

/// The views of a sequence of discovered executables.
pub open spec fn discovered_view(d: Seq<Discovered>) -> Seq<DiscoveredView> {
    d.map_values(|x: Discovered| x@)
}

/// Whether no two configured entries share a name.
pub open spec fn unique_names(c: Seq<EntryView>) -> bool {
    forall|i: int, j: int|
        0 <= i < c.len() && 0 <= j < c.len() && i != j ==> #[trigger] c[i].name() != #[trigger] c[j].name()
}

/// The group a configured entry sorts by; a bare name has group zero.
pub open spec fn entry_group(e: EntryView) -> int {
    match e {
        EntryView::Full { group, .. } => group,
        _ => 0,
    }
}

/// The entry that a configured entry resolves to on its own: a filter
/// resolves to none, a bare name runs itself through the shell when the
/// shell is enabled and directly otherwise.
pub open spec fn resolve_configured(e: EntryView, shell_enabled: bool) -> Option<RunEntryView> {
    match e {
        EntryView::Full { name, run, group } => Some(RunEntryView { name, run, group }),
        EntryView::Name(name) => Some(
            RunEntryView {
                name,
                run: if shell_enabled {
                    RunView::Shell(name)
                } else {
                    RunView::Bare(seq![name])
                },
                group: 0,
            },
        ),
        EntryView::Filter(_) => None,
    }
}

/// The first configured entry named `name`.
pub open spec fn configured(c: Seq<EntryView>, name: Seq<char>) -> Option<EntryView>
    decreases c.len(),
{
    if c.len() == 0 {
        None
    } else {
        match configured(c.drop_last(), name) {
            Some(e) => Some(e),
            None => if c.last().name() == name {
                Some(c.last())
            } else {
                None
            },
        }
    }
}

/// The path of the first executable discovered under `name`.
pub open spec fn first_path(d: Seq<DiscoveredView>, name: Seq<char>) -> Option<Seq<char>>
    decreases d.len(),
{
    if d.len() == 0 {
        None
    } else {
        match first_path(d.drop_last(), name) {
            Some(p) => Some(p),
            None => if d.last().name == name {
                Some(d.last().path)
            } else {
                None
            },
        }
    }
}

/// The entry that runs the first executable discovered under `name`: in
/// the discovered group when no entry is configured under that name, in the
/// configured entry's group when it is replaced; none when the configured
/// entry is kept or is a filter.
pub open spec fn discovered_entry(
    c: Seq<EntryView>,
    replace: bool,
    group: int,
    d: Seq<DiscoveredView>,
    name: Seq<char>,
) -> Option<RunEntryView> {
    match first_path(d, name) {
        None => None,
        Some(path) => match configured(c, name) {
            None => Some(RunEntryView { name, run: RunView::Bare(seq![path]), group }),
            Some(e) => if replace && !(e is Filter) {
                Some(RunEntryView { name, run: RunView::Bare(seq![path]), group: entry_group(e) })
            } else {
                None
            },
        },
    }
}

/// The entry that the configuration gives `name`, unless a discovered
/// executable replaces it.
pub open spec fn kept_entry(
    c: Seq<EntryView>,
    shell_enabled: bool,
    replace: bool,
    d: Seq<DiscoveredView>,
    name: Seq<char>,
) -> Option<RunEntryView> {
    match configured(c, name) {
        None => None,
        Some(e) => if replace && first_path(d, name) is Some {
            None
        } else {
            resolve_configured(e, shell_enabled)
        },
    }
}

/// The resolved entry named `name`, if any, when `d` was discovered.
pub open spec fn merged_entry(
    c: Seq<EntryView>,
    shell_enabled: bool,
    replace: bool,
    group: int,
    d: Seq<DiscoveredView>,
    name: Seq<char>,
) -> Option<RunEntryView> {
    match discovered_entry(c, replace, group, d, name) {
        Some(r) => Some(r),
        None => kept_entry(c, shell_enabled, replace, d, name),
    }
}

/// The resolved entry named `name`, if any: discovered executables count
/// only when scanning is enabled.
pub open spec fn menu_entry(
    c: Seq<EntryView>,
    shell_enabled: bool,
    path: BinPath,
    d: Seq<DiscoveredView>,
    name: Seq<char>,
) -> Option<RunEntryView> {
    match path {
        BinPath::Enabled { replace, group, .. } => merged_entry(
            c,
            shell_enabled,
            replace,
            group as int,
            d,
            name,
        ),
        BinPath::Disabled => merged_entry(c, shell_enabled, false, 0, Seq::empty(), name),
    }
}

/// The view of an optional entry.
pub open spec fn opt_entry_view(e: Option<RunEntry>) -> Option<RunEntryView> {
    match e {
        Some(r) => Some(r@),
        None => None,
    }
}

impl RunEntry {
    /// The entry that `entry` resolves to on its own (see [`resolve_configured`]).
    pub fn try_from(entry: Entry, shell_is_enabled: bool) -> (r: Option<Self>)
        ensures
            opt_entry_view(r) == resolve_configured(entry@, shell_is_enabled),
    {
        match entry {
            Entry::Full { name, run, group } => Some(RunEntry { name, run, group }),
            Entry::Name(name) => {
                let run = if shell_is_enabled {
                    Run::Shell(name.clone())
                } else {
                    Run::binary(name.clone())
                };
                Some(RunEntry { name, run, group: 0 })
            },
            Entry::Filter(_) => None,
        }
    }
}

impl Clone for RunEntry {
    fn clone(&self) -> (r: Self)
        ensures
            r@ == self@,
    {
        RunEntry { name: self.name.clone(), run: self.run.clone(), group: self.group }
    }
}

/// With unique names, the configured entry of each configured name is that entry.
proof fn lemma_configured_at(c: Seq<EntryView>, i: int)
    requires
        unique_names(c),
        0 <= i < c.len(),
    ensures
        configured(c, c[i].name()) == Some(c[i]),
    decreases c.len(),
{
    let last = c.len() - 1;
    let init = c.drop_last();
    assert forall|a: int, b: int|
        0 <= a < init.len() && 0 <= b < init.len() && a != b implies #[trigger] init[a].name()
        != #[trigger] init[b].name() by {
        assert(init[a] == c[a] && init[b] == c[b]);
    }
    if i < last {
        lemma_configured_at(init, i);
        assert(init[i] == c[i]);
    } else {
        lemma_configured_none(init, c[i].name());
    }
}

/// A name that no entry of `c` holds has no configured entry; the last entry
/// of `c` is not needed for that when its name differs.
proof fn lemma_configured_none(c: Seq<EntryView>, name: Seq<char>)
    requires
        forall|k: int| 0 <= k < c.len() ==> #[trigger] c[k].name() != name,
    ensures
        configured(c, name) is None,
    decreases c.len(),
{
    if c.len() > 0 {
        let init = c.drop_last();
        assert forall|k: int| 0 <= k < init.len() implies #[trigger] init[k].name() != name by {
            assert(init[k] == c[k]);
        }
        lemma_configured_none(init, name);
    }
}

/// A configured entry is one of the entries, under its own name.
proof fn lemma_configured_some(c: Seq<EntryView>, name: Seq<char>)
    requires
        configured(c, name) is Some,
    ensures
        exists|k: int| 0 <= k < c.len() && c[k] == configured(c, name)->0,
        configured(c, name)->0.name() == name,
    decreases c.len(),
{
    let init = c.drop_last();
    if configured(init, name) is Some {
        lemma_configured_some(init, name);
        let k = choose|k: int| 0 <= k < init.len() && init[k] == configured(init, name)->0;
        assert(c[k] == init[k]);
    } else {
        assert(c[c.len() - 1] == c.last());
    }
}

/// The position of `name` in `names`, if it is there.
pub(crate) fn find_name(names: &Vec<Vec<char>>, name: &Vec<char>) -> (r: Option<usize>)
    ensures
        r matches Some(j) ==> j < names@.len() && names@[j as int]@ == name@,
        r is None ==> forall|j: int| 0 <= j < names@.len() ==> #[trigger] names@[j]@ != name@,
{
    let mut j: usize = 0;
    while j < names.len()
        invariant
            j <= names@.len(),
            forall|k: int| 0 <= k < j ==> #[trigger] names@[k]@ != name@,
        decreases names@.len() - j,
    {
        if same_chars(&names[j], name) {
            return Some(j);
        }
        j = j + 1;
    }
    None
}

/// Whether no two of the configured entries share a name.
pub fn has_unique_names(entries: &Vec<Entry>) -> (r: bool)
    ensures
        r == unique_names(entries_view(entries@)),
{
    let ghost c = entries_view(entries@);
    let names = entry_names(entries);
    let mut i: usize = 0;
    while i < names.len()
        invariant
            c == entries_view(entries@),
            names@.len() == c.len(),
            forall|j: int| 0 <= j < c.len() ==> #[trigger] names@[j]@ == c[j].name(),
            i <= names@.len(),
            forall|a: int, b: int| 0 <= a < i && 0 <= b < c.len() && a != b ==> #[trigger] c[a].name() != #[trigger] c[b].name(),
        decreases names@.len() - i,
    {
        let mut j: usize = 0;
        while j < names.len()
            invariant
                c == entries_view(entries@),
                names@.len() == c.len(),
                forall|k: int| 0 <= k < c.len() ==> #[trigger] names@[k]@ == c[k].name(),
                i < names@.len(),
                j <= names@.len(),
                forall|a: int, b: int| 0 <= a < i && 0 <= b < c.len() && a != b ==> #[trigger] c[a].name() != #[trigger] c[b].name(),
                forall|b: int| 0 <= b < j && b != i ==> c[i as int].name() != #[trigger] c[b].name(),
            decreases names@.len() - j,
        {
            if j != i && same_chars(&names[i], &names[j]) {
                assert(c[i as int].name() == c[j as int].name());
                return false;
            }
            j = j + 1;
        }
        i = i + 1;
    }
    true
}

/// The characters of each configured entry's name.
fn entry_names(c: &Vec<Entry>) -> (r: Vec<Vec<char>>)
    ensures
        r@.len() == c@.len(),
        forall|j: int| 0 <= j < c@.len() ==> #[trigger] r@[j]@ == c@[j]@.name(),
{
    let mut out: Vec<Vec<char>> = Vec::new();
    let mut j: usize = 0;
    while j < c.len()
        invariant
            j <= c@.len(),
            out@.len() == j,
            forall|k: int| 0 <= k < j ==> #[trigger] out@[k]@ == c@[k]@.name(),
        decreases c@.len() - j,
    {
        let name = c[j].name();
        out.push(chars_of(name.as_str()));
        j = j + 1;
    }
    out
}

/// Whether the entries of `out` have distinct names.
pub open spec fn distinct_names(out: Seq<RunEntry>) -> bool {
    forall|a: int, b: int|
        0 <= a < out.len() && 0 <= b < out.len() && a != b ==> #[trigger] out[a]@.name
            != #[trigger] out[b]@.name
}

/// The group of a configured entry.
fn group_of(e: &Entry) -> (r: i64)
    ensures
        r as int == entry_group(e@),
{
    match e {
        Entry::Full { group, .. } => *group,
        _ => 0,
    }
}

/// The entries of discovered executables: for each name, the first one
/// discovered, unless it is configured and not replaced.
fn discovered_entries(
    c: &Vec<Entry>,
    cnames: &Vec<Vec<char>>,
    replace: bool,
    group: i64,
    d: &Vec<Discovered>,
) -> (r: (Vec<RunEntry>, Vec<bool>))
    requires
        unique_names(entries_view(c@)),
        cnames@.len() == c@.len(),
        forall|j: int| 0 <= j < c@.len() ==> #[trigger] cnames@[j]@ == c@[j]@.name(),
    ensures
        distinct_names(r.0@),
        forall|i: int|
            0 <= i < r.0@.len() ==> discovered_entry(
                entries_view(c@),
                replace,
                group as int,
                discovered_view(d@),
                #[trigger] r.0@[i]@.name,
            ) == Some(r.0@[i]@),
        forall|n: Seq<char>|
            #[trigger] discovered_entry(
                entries_view(c@),
                replace,
                group as int,
                discovered_view(d@),
                n,
            ) is Some ==> exists|i: int| 0 <= i < r.0@.len() && #[trigger] r.0@[i]@.name == n,
        r.1@.len() == c@.len(),
        forall|j: int|
            0 <= j < c@.len() ==> #[trigger] r.1@[j] == (first_path(
                discovered_view(d@),
                c@[j]@.name(),
            ) is Some),
{
    let ghost cv = entries_view(c@);
    let ghost dv = discovered_view(d@);
    let mut out: Vec<RunEntry> = Vec::new();
    let mut out_names: Vec<Vec<char>> = Vec::new();
    let mut taken: Vec<bool> = Vec::new();
    let mut j: usize = 0;
    while j < c.len()
        invariant
            j <= c@.len(),
            taken@.len() == j,
            forall|k: int| 0 <= k < j ==> !#[trigger] taken@[k],
        decreases c@.len() - j,
    {
        taken.push(false);
        j = j + 1;
    }
    let mut k: usize = 0;
    while k < d.len()
        invariant
            cv == entries_view(c@),
            dv == discovered_view(d@),
            unique_names(cv),
            cnames@.len() == c@.len(),
            forall|j: int| 0 <= j < c@.len() ==> #[trigger] cnames@[j]@ == c@[j]@.name(),
            k <= d@.len(),
            out_names@.len() == out@.len(),
            forall|i: int| 0 <= i < out@.len() ==> #[trigger] out_names@[i]@ == out@[i]@.name,
            distinct_names(out@),
            forall|i: int|
                0 <= i < out@.len() ==> discovered_entry(
                    cv,
                    replace,
                    group as int,
                    dv.subrange(0, k as int),
                    #[trigger] out@[i]@.name,
                ) == Some(out@[i]@),
            forall|n: Seq<char>|
                #[trigger] discovered_entry(cv, replace, group as int, dv.subrange(0, k as int), n)
                    is Some ==> exists|i: int| 0 <= i < out@.len() && #[trigger] out@[i]@.name == n,
            taken@.len() == c@.len(),
            forall|j: int|
                0 <= j < c@.len() ==> #[trigger] taken@[j] == (first_path(
                    dv.subrange(0, k as int),
                    cv[j].name(),
                ) is Some),
        decreases d@.len() - k,
    {
        let ghost p = dv.subrange(0, k as int);
        let ghost q = dv.subrange(0, k + 1);
        assert(q.drop_last() =~= p);
        assert(q.last() == d@[k as int]@);
        let name = chars_of(d[k].name.as_str());
        let ghost nm = name@;
        let ghost old_out = out@;
        // Names other than this one, and names already discovered, keep their entry.
        assert forall|n: Seq<char>| n != nm || first_path(p, n) is Some implies first_path(q, n)
            == first_path(p, n) by {}
        match find_name(cnames, &name) {
            Some(j) => {
                proof {
                    lemma_configured_at(cv, j as int);
                    assert(cv[j as int] == c@[j as int]@);
                }
                if !taken[j] {
                    proof {
                        assert(taken@[j as int] == (first_path(p, cv[j as int].name()) is Some));
                        assert(first_path(p, nm) is None);
                    }
                    if replace && !matches!(c[j], Entry::Filter(_)) {
                        let g = group_of(&c[j]);
                        let e = RunEntry {
                            name: d[k].name.clone(),
                            run: Run::binary(d[k].path.clone()),
                            group: g,
                        };
                        proof {
                            assert forall|i: int| 0 <= i < out@.len() implies #[trigger] out@[i]@.name != nm by {
                                assert(first_path(p, out@[i]@.name) is Some);
                            }
                        }
                        out.push(e);
                        out_names.push(name);
                    }
                    taken.set(j, true);
                }
            },
            None => {
                proof {
                    assert forall|jj: int| 0 <= jj < cv.len() implies #[trigger] cv[jj].name() != nm by {
                        assert(cv[jj] == c@[jj]@);
                        assert(cnames@[jj]@ == c@[jj]@.name());
                    }
                    lemma_configured_none(cv, nm);
                }
                match find_name(&out_names, &name) {
                    Some(_) => {},
                    None => {
                        proof {
                            assert forall|i: int| 0 <= i < out@.len() implies #[trigger] out@[i]@.name
                                != nm by {
                                assert(out_names@[i]@ == out@[i]@.name);
                            }
                            assert(discovered_entry(cv, replace, group as int, p, nm) is None);
                            assert(first_path(p, nm) is None);
                        }
                        let e = RunEntry {
                            name: d[k].name.clone(),
                            run: Run::binary(d[k].path.clone()),
                            group,
                        };
                        out.push(e);
                        out_names.push(name);
                    },
                }
            },
        }
        proof {
            assert forall|i: int| 0 <= i < out@.len() implies discovered_entry(
                cv,
                replace,
                group as int,
                q,
                #[trigger] out@[i]@.name,
            ) == Some(out@[i]@) by {
                if i < old_out.len() {
                    assert(out@[i] == old_out[i]);
                }
            }
            assert forall|n: Seq<char>|
                #[trigger] discovered_entry(cv, replace, group as int, q, n) is Some implies exists|
                i: int,
            | 0 <= i < out@.len() && #[trigger] out@[i]@.name == n by {
                if n != nm || first_path(p, n) is Some {
                    assert(discovered_entry(cv, replace, group as int, p, n) is Some);
                    let i = choose|i: int| 0 <= i < old_out.len() && #[trigger] old_out[i]@.name == n;
                    assert(out@[i] == old_out[i]);
                } else {
                    assert(out@[out@.len() - 1]@.name == n);
                }
            }
            assert forall|j: int| 0 <= j < c@.len() implies #[trigger] taken@[j] == (first_path(
                q,
                cv[j].name(),
            ) is Some) by {
                assert(cnames@[j]@ == cv[j].name());
            }
        }
        k = k + 1;
    }
    assert(dv.subrange(0, d@.len() as int) =~= dv);
    (out, taken)
}

/// The configured entries, merged with the executables discovered in `d`:
/// one entry for each name that [`merged_entry`] gives an entry.
fn merge_entries(
    c: &Vec<Entry>,
    shell_enabled: bool,
    replace: bool,
    group: i64,
    d: &Vec<Discovered>,
) -> (r: Vec<RunEntry>)
    requires
        unique_names(entries_view(c@)),
    ensures
        distinct_names(r@),
        forall|i: int|
            0 <= i < r@.len() ==> merged_entry(
                entries_view(c@),
                shell_enabled,
                replace,
                group as int,
                discovered_view(d@),
                #[trigger] r@[i]@.name,
            ) == Some(r@[i]@),
        forall|n: Seq<char>|
            #[trigger] merged_entry(
                entries_view(c@),
                shell_enabled,
                replace,
                group as int,
                discovered_view(d@),
                n,
            ) is Some ==> exists|i: int| 0 <= i < r@.len() && #[trigger] r@[i]@.name == n,
{
    let ghost cv = entries_view(c@);
    let ghost dv = discovered_view(d@);
    let cnames = entry_names(c);
    let (mut out, taken) = discovered_entries(c, &cnames, replace, group, d);
    let ghost first = out@;
    let mut j: usize = 0;
    while j < c.len()
        invariant
            cv == entries_view(c@),
            dv == discovered_view(d@),
            unique_names(cv),
            j <= c@.len(),
            taken@.len() == c@.len(),
            forall|jj: int| 0 <= jj < c@.len() ==> #[trigger] taken@[jj] == (first_path(
                dv,
                cv[jj].name(),
            ) is Some),
            distinct_names(out@),
            forall|i: int|
                0 <= i < out@.len() ==> merged_entry(
                    cv,
                    shell_enabled,
                    replace,
                    group as int,
                    dv,
                    #[trigger] out@[i]@.name,
                ) == Some(out@[i]@),
            forall|n: Seq<char>|
                #[trigger] discovered_entry(cv, replace, group as int, dv, n) is Some ==> exists|
                    i: int,
                | 0 <= i < out@.len() && #[trigger] out@[i]@.name == n,
            forall|jj: int|
                0 <= jj < j && #[trigger] kept_entry(
                    cv,
                    shell_enabled,
                    replace,
                    dv,
                    cv[jj].name(),
                ) is Some ==> exists|i: int| 0 <= i < out@.len() && #[trigger] out@[i]@.name == cv[jj].name(),
            forall|i: int|
                0 <= i < out@.len() ==> discovered_entry(
                    cv,
                    replace,
                    group as int,
                    dv,
                    #[trigger] out@[i]@.name,
                ) is Some || exists|jj: int| 0 <= jj < j && cv[jj].name() == out@[i]@.name,
        decreases c@.len() - j,
    {
        let ghost old_out = out@;
        proof {
            lemma_configured_at(cv, j as int);
            assert(cv[j as int] == c@[j as int]@);
        }
        if !(replace && taken[j]) {
            match RunEntry::try_from(c[j].clone(), shell_enabled) {
                Some(e) => {
                    proof {
                        let n = cv[j as int].name();
                        assert(e@.name == n);
                        assert(discovered_entry(cv, replace, group as int, dv, n) is None);
                        assert forall|i: int| 0 <= i < old_out.len() implies #[trigger] old_out[i]@.name != n by {
                            if discovered_entry(cv, replace, group as int, dv, old_out[i]@.name) is None {
                                let jj = choose|jj: int| 0 <= jj < j && cv[jj].name() == old_out[i]@.name;
                                assert(cv[jj].name() != cv[j as int].name());
                            }
                        }
                    }
                    out.push(e);
                },
                None => {},
            }
        }
        proof {
            assert forall|i: int| 0 <= i < out@.len() implies merged_entry(
                cv,
                shell_enabled,
                replace,
                group as int,
                dv,
                #[trigger] out@[i]@.name,
            ) == Some(out@[i]@) by {
                if i < old_out.len() {
                    assert(out@[i] == old_out[i]);
                }
            }
            assert forall|n: Seq<char>| #[trigger]
                discovered_entry(cv, replace, group as int, dv, n) is Some implies exists|i: int|
                0 <= i < out@.len() && #[trigger] out@[i]@.name == n by {
                let i = choose|i: int| 0 <= i < old_out.len() && #[trigger] old_out[i]@.name == n;
                assert(out@[i] == old_out[i]);
            }
            assert forall|jj: int|
                0 <= jj < j + 1 && #[trigger] kept_entry(
                    cv,
                    shell_enabled,
                    replace,
                    dv,
                    cv[jj].name(),
                ) is Some implies exists|i: int| 0 <= i < out@.len() && #[trigger] out@[i]@.name == cv[jj].name() by {
                if jj < j {
                    let i = choose|i: int| 0 <= i < old_out.len() && #[trigger] old_out[i]@.name == cv[jj].name();
                    assert(out@[i] == old_out[i]);
                } else {
                    assert(out@[out@.len() - 1]@.name == cv[jj].name());
                }
            }
            assert forall|i: int| 0 <= i < out@.len() implies discovered_entry(
                cv,
                replace,
                group as int,
                dv,
                #[trigger] out@[i]@.name,
            ) is Some || exists|jj: int| 0 <= jj < j + 1 && cv[jj].name() == out@[i]@.name by {
                if i < old_out.len() {
                    assert(out@[i] == old_out[i]);
                } else {
                    assert(cv[j as int].name() == out@[i]@.name);
                }
            }
        }
        j = j + 1;
    }
    proof {
        assert forall|n: Seq<char>| #[trigger]
            merged_entry(cv, shell_enabled, replace, group as int, dv, n) is Some implies exists|
            i: int,
        | 0 <= i < out@.len() && #[trigger] out@[i]@.name == n by {
            if discovered_entry(cv, replace, group as int, dv, n) is None {
                lemma_configured_some(cv, n);
                let jj = choose|jj: int| 0 <= jj < cv.len() && cv[jj] == configured(cv, n)->0;
                assert(kept_entry(cv, shell_enabled, replace, dv, cv[jj].name()) is Some);
            }
        }
    }
    out
}

/// Reordering entries keeps their names distinct, and keeps each name's
/// entry as `f` gives it.
proof fn lemma_reordered(
    a: Seq<RunEntry>,
    b: Seq<RunEntry>,
    f: spec_fn(Seq<char>) -> Option<RunEntryView>,
)
    requires
        a.to_multiset() == b.to_multiset(),
        distinct_names(a),
        forall|i: int| 0 <= i < a.len() ==> f(#[trigger] a[i]@.name) == Some(a[i]@),
        forall|n: Seq<char>| #[trigger] f(n) is Some ==> exists|i: int| 0 <= i < a.len() && #[trigger] a[i]@.name == n,
    ensures
        distinct_names(b),
        forall|i: int| 0 <= i < b.len() ==> f(#[trigger] b[i]@.name) == Some(b[i]@),
        forall|n: Seq<char>| #[trigger] f(n) is Some ==> exists|i: int| 0 <= i < b.len() && #[trigger] b[i]@.name == n,
{
    broadcast use vstd::seq_lib::group_to_multiset_ensures;
    assert forall|i: int| 0 <= i < b.len() implies a.contains(#[trigger] b[i]) by {
        assert(b.contains(b[i]));
        vstd::seq_lib::to_multiset_contains(b, b[i]);
        vstd::seq_lib::to_multiset_contains(a, b[i]);
    }
    assert forall|j: int| 0 <= j < a.len() implies b.contains(#[trigger] a[j]) by {
        assert(a.contains(a[j]));
        vstd::seq_lib::to_multiset_contains(a, a[j]);
        vstd::seq_lib::to_multiset_contains(b, a[j]);
    }
    assert(a.no_duplicates()) by {
        assert forall|x: int, y: int| 0 <= x < a.len() && 0 <= y < a.len() && x != y implies a[x] != a[y] by {
            assert(a[x]@.name != a[y]@.name);
        }
    }
    a.lemma_multiset_has_no_duplicates();
    b.lemma_multiset_has_no_duplicates_conv();
    assert forall|x: int, y: int| 0 <= x < b.len() && 0 <= y < b.len() && x != y implies #[trigger] b[x]@.name
        != #[trigger] b[y]@.name by {
        assert(a.contains(b[x]));
        assert(a.contains(b[y]));
        assert(b[x] != b[y]);
    }
    assert forall|i: int| 0 <= i < b.len() implies f(#[trigger] b[i]@.name) == Some(b[i]@) by {
        assert(a.contains(b[i]));
    }
    assert forall|n: Seq<char>| #[trigger] f(n) is Some implies exists|i: int| 0 <= i < b.len() && #[trigger] b[i]@.name == n by {
        let j = choose|j: int| 0 <= j < a.len() && #[trigger] a[j]@.name == n;
        assert(b.contains(a[j]));
        let i = choose|i: int| 0 <= i < b.len() && b[i] == a[j];
        assert(b[i]@.name == n);
    }
}

/// The merged entries, in no particular order.
fn unordered_entries(
    entries: &Vec<Entry>,
    shell: &Shell,
    path: &BinPath,
    discovered: &Vec<Discovered>,
) -> (r: Vec<RunEntry>)
    requires
        unique_names(entries_view(entries@)),
    ensures
        distinct_names(r@),
        forall|i: int|
            0 <= i < r@.len() ==> menu_entry(
                entries_view(entries@),
                shell is Enabled,
                *path,
                discovered_view(discovered@),
                #[trigger] r@[i]@.name,
            ) == Some(r@[i]@),
        forall|n: Seq<char>|
            #[trigger] menu_entry(
                entries_view(entries@),
                shell is Enabled,
                *path,
                discovered_view(discovered@),
                n,
            ) is Some ==> exists|i: int| 0 <= i < r@.len() && #[trigger] r@[i]@.name == n,
{
    let shell_enabled = shell.is_enabled();
    match path {
        BinPath::Enabled { replace, group, .. } => merge_entries(
            entries,
            shell_enabled,
            *replace,
            *group,
            discovered,
        ),
        BinPath::Disabled => {
            let none: Vec<Discovered> = Vec::new();
            assert(discovered_view(none@) =~= Seq::<DiscoveredView>::empty());
            merge_entries(entries, shell_enabled, false, 0, &none)
        },
    }
}

/// The menu's entries, in menu order: the configured entries, merged with
/// the executables discovered in `discovered` when `path` enables scanning
/// (see [`menu_entry`]). Every name that has an entry has exactly one.
pub fn build_entries(
    entries: &Vec<Entry>,
    shell: &Shell,
    path: &BinPath,
    discovered: &Vec<Discovered>,
) -> (r: Vec<RunEntry>)
    requires
        unique_names(entries_view(entries@)),
    ensures
        sorted(r@),
        distinct_names(r@),
        forall|i: int|
            0 <= i < r@.len() ==> menu_entry(
                entries_view(entries@),
                shell is Enabled,
                *path,
                discovered_view(discovered@),
                #[trigger] r@[i]@.name,
            ) == Some(r@[i]@),
        forall|n: Seq<char>|
            #[trigger] menu_entry(
                entries_view(entries@),
                shell is Enabled,
                *path,
                discovered_view(discovered@),
                n,
            ) is Some ==> exists|i: int| 0 <= i < r@.len() && #[trigger] r@[i]@.name == n,
{
    let merged = unordered_entries(entries, shell, path, discovered);
    let ghost m = merged@;
    let r = sort_entries(merged);
    proof {
        let f = |n: Seq<char>|
            menu_entry(entries_view(entries@), shell is Enabled, *path, discovered_view(discovered@), n);
        lemma_reordered(m, r@, f);
        assert forall|n: Seq<char>|
            #[trigger] menu_entry(
                entries_view(entries@),
                shell is Enabled,
                *path,
                discovered_view(discovered@),
                n,
            ) is Some implies exists|i: int| 0 <= i < r@.len() && #[trigger] r@[i]@.name == n by {
            assert(f(n) is Some);
        }
    }
    r
}

/// A scanned directory as written in the configuration: one that starts
/// with `~/` is taken under `home`, joined as a path (an absolute remainder
/// stands alone); any other is taken as it is.
pub open spec fn home_path(path: Seq<char>, home: Seq<char>) -> Seq<char> {
    if path.len() >= 2 && path[0] == '~' && path[1] == '/' {
        let rest = path.subrange(2, path.len() as int);
        if rest.len() > 0 && rest[0] == '/' {
            rest
        } else if home.len() == 0 || home.last() == '/' {
            home + rest
        } else {
            home + seq!['/'] + rest
        }
    } else {
        path
    }
}

/// The directory that `path` names, with a leading `~/` taken under `home`.
pub fn expand_home(path: &str, home: &str) -> (r: String)
    ensures
        r@ == home_path(path@, home@),
{
    let cs = chars_of(path);
    if cs.len() >= 2 && cs[0] == '~' && cs[1] == '/' {
        let rest = path.substring_char(2, cs.len());
        if cs.len() > 2 && cs[2] == '/' {
            return rest.to_owned();
        }
        let hs = chars_of(home);
        let mut out = home.to_owned();
        if hs.len() > 0 && hs[hs.len() - 1] != '/' {
            push_char(&mut out, '/');
        }
        out.append(rest);
        out
    } else {
        path.to_owned()
    }
}

/// A name configured as a filter has no entry, whatever executables are
/// discovered and whether or not they replace configured entries.
pub proof fn lemma_filter_suppressed(
    c: Seq<EntryView>,
    shell_enabled: bool,
    path: BinPath,
    d: Seq<DiscoveredView>,
    i: int,
)
    requires
        unique_names(c),
        0 <= i < c.len(),
        c[i] is Filter,
    ensures
        menu_entry(c, shell_enabled, path, d, c[i].name()) is None,
{
    lemma_configured_at(c, i);
}

/// A configured command whose name is also discovered keeps one entry: with
/// `replace` it runs the first executable discovered under that name, in
/// the configured group; without, it runs as configured.
pub proof fn lemma_replace(
    c: Seq<EntryView>,
    shell_enabled: bool,
    replace: bool,
    group: int,
    d: Seq<DiscoveredView>,
    i: int,
)
    requires
        unique_names(c),
        0 <= i < c.len(),
        c[i] is Full,
        first_path(d, c[i].name()) is Some,
    ensures
        merged_entry(c, shell_enabled, replace, group, d, c[i].name()) == if replace {
            Some(
                RunEntryView {
                    name: c[i].name(),
                    run: RunView::Bare(seq![first_path(d, c[i].name())->0]),
                    group: entry_group(c[i]),
                },
            )
        } else {
            resolve_configured(c[i], shell_enabled)
        },
{
    lemma_configured_at(c, i);
}

} // verus!
