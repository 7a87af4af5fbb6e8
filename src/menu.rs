//! The text sent to the picker, and the commands its output selects.

use vstd::prelude::*;
use crate::config::{Custom, Numbered, Run, RunView, Separator};
use crate::imstr::ImStr;
use crate::resolve::RunEntry;
use crate::tag::{decode, tag_text, Tag};
use crate::text::{chars_of, push_char};

verus! {

/// The names of the entries, in order.
pub open spec fn entry_names(entries: Seq<RunEntry>) -> Seq<Seq<char>> {
    entries.map_values(|e: RunEntry| e@.name)
}

/// The text between a line's number and its name.
pub open spec fn separator_text(numbered: Numbered) -> Seq<char> {
    match numbered {
        Numbered::Enabled(Separator::Enabled(s)) => s@,
        _ => Seq::empty(),
    }
}

/// The menu line of the entry named `name` at position `i`: numbered, the
/// tag, the separator, then the name; otherwise the name, then the tag.
pub open spec fn menu_line<T: Tag>(numbered: Numbered, i: nat, name: Seq<char>) -> Seq<char> {
    if numbered is Enabled {
        tag_text::<T>(i) + separator_text(numbered) + name + seq!['\n']
    } else {
        name + tag_text::<T>(i) + seq!['\n']
    }
}

/// The menu lines of the entries named `names`, each tagged with its position.
pub open spec fn menu_text<T: Tag>(numbered: Numbered, names: Seq<Seq<char>>) -> Seq<char>
    decreases names.len(),
{
    if names.len() == 0 {
        Seq::empty()
    } else {
        menu_text::<T>(numbered, names.drop_last()) + menu_line::<T>(
            numbered,
            (names.len() - 1) as nat,
            names.last(),
        )
    }
}

/// The text sent to the picker: one line per entry, tagged with its position.
pub fn display_entries<T: Tag>(numbered: &Numbered, entries: &Vec<RunEntry>) -> (r: String)
    ensures
        r@ == menu_text::<T>(*numbered, entry_names(entries@)),
{
    let mut display = String::new();
    let numbered_on = numbered.is_enabled();
    let separator = numbered.separator();
    let mut i: usize = 0;
    while i < entries.len()
        invariant
            i <= entries@.len(),
            numbered_on == (*numbered is Enabled),
            separator@ == separator_text(*numbered),
            display@ == menu_text::<T>(*numbered, entry_names(entries@.subrange(0, i as int))),
        decreases entries@.len() - i,
    {
        let ghost before = display@;
        if numbered_on {
            T::push_tag(i, &mut display);
            display.append(separator);
            display.append(entries[i].name.as_str());
        } else {
            display.append(entries[i].name.as_str());
            T::push_tag(i, &mut display);
        }
        push_char(&mut display, '\n');
        proof {
            let names = entry_names(entries@.subrange(0, i + 1));
            assert(names.drop_last() =~= entry_names(entries@.subrange(0, i as int)));
            assert(names.last() == entries@[i as int]@.name);
            assert(display@ =~= before + menu_line::<T>(*numbered, i as nat, names.last()));
        }
        i = i + 1;
    }
    assert(entries@.subrange(0, entries@.len() as int) =~= entries@);
    display
}

/// Whether `c` is white space, as Unicode's `White_Space` property has it.
pub open spec fn is_space(c: char) -> bool {
    ('\u{9}' <= c <= '\u{d}') || c == ' ' || c == '\u{85}' || c == '\u{a0}' || c == '\u{1680}'
        || ('\u{2000}' <= c <= '\u{200a}') || c == '\u{2028}' || c == '\u{2029}' || c == '\u{202f}'
        || c == '\u{205f}' || c == '\u{3000}'
}

/// Whether `c` is white space.
pub fn char_is_space(c: char) -> (r: bool)
    ensures
        r == is_space(c),
{
    ('\u{9}' <= c && c <= '\u{d}') || c == ' ' || c == '\u{85}' || c == '\u{a0}' || c == '\u{1680}'
        || ('\u{2000}' <= c && c <= '\u{200a}') || c == '\u{2028}' || c == '\u{2029}' || c == '\u{202f}'
        || c == '\u{205f}' || c == '\u{3000}'
}

/// `s` without its leading white space.
pub open spec fn trim_start(s: Seq<char>) -> Seq<char>
    decreases s.len(),
{
    if s.len() > 0 && is_space(s[0]) {
        trim_start(s.drop_first())
    } else {
        s
    }
}

/// `s` without its trailing white space.
pub open spec fn trim_end(s: Seq<char>) -> Seq<char>
    decreases s.len(),
{
    if s.len() > 0 && is_space(s.last()) {
        trim_end(s.drop_last())
    } else {
        s
    }
}

/// `s` without white space at either end.
pub open spec fn trim(s: Seq<char>) -> Seq<char> {
    trim_end(trim_start(s))
}

/// `s` without white space at either end.
pub fn trim_text(s: &str) -> (r: &str)
    ensures
        r@ == trim(s@),
{
    let cs = chars_of(s);
    let mut start: usize = 0;
    assert(cs@.subrange(0, cs@.len() as int) =~= cs@);
    while start < cs.len() && char_is_space(cs[start])
        invariant
            cs@ == s@,
            start <= cs@.len(),
            trim_start(cs@) == trim_start(cs@.subrange(start as int, cs@.len() as int)),
        decreases cs@.len() - start,
    {
        proof {
            let rest = cs@.subrange(start as int, cs@.len() as int);
            assert(rest.drop_first() =~= cs@.subrange(start + 1, cs@.len() as int));
        }
        start = start + 1;
    }
    let ghost front = cs@.subrange(start as int, cs@.len() as int);
    assert(trim_start(front) == front);
    let mut end: usize = cs.len();
    while end > start && char_is_space(cs[end - 1])
        invariant
            cs@ == s@,
            start <= end <= cs@.len(),
            trim_end(front) == trim_end(cs@.subrange(start as int, end as int)),
        decreases end,
    {
        proof {
            let rest = cs@.subrange(start as int, end as int);
            assert(rest.drop_last() =~= cs@.subrange(start as int, end - 1));
        }
        end = end - 1;
    }
    let ghost body = cs@.subrange(start as int, end as int);
    assert(trim_end(body) == body);
    s.substring_char(start, end)
}

/// Why a selected line could not be turned into a command.
#[derive(Debug)]
pub enum SelectionError {
    /// The line holds no tag and typed commands are disabled; it holds the
    /// line, trimmed.
    AdHocRejected(ImStr),
    /// The line's tag names no entry.
    UnknownTag(usize),
}

/// A [`SelectionError`] as plain values.
pub enum SelectionErrorView {
    AdHocRejected(Seq<char>),
    UnknownTag(nat),
}

impl View for SelectionError {
    type V = SelectionErrorView;

    open spec fn view(&self) -> SelectionErrorView {
        match self {
            SelectionError::AdHocRejected(s) => SelectionErrorView::AdHocRejected(s@),
            SelectionError::UnknownTag(i) => SelectionErrorView::UnknownTag(*i as nat),
        }
    }
}

/// The outcome for one selected line, as plain values.
pub open spec fn choice_view(r: Result<Run, SelectionError>) -> Result<RunView, SelectionErrorView> {
    match r {
        Ok(run) => Ok(run@),
        Err(e) => Err(e@),
    }
}

/// The command that the selected line `choice` stands for: the entry its
/// tag names, or, for a line without a tag, the trimmed line as a shell
/// command when typed commands are enabled.
pub open spec fn choice_result<T: Tag>(
    choice: Seq<char>,
    entries: Seq<RunEntry>,
    custom: Custom,
) -> Result<RunView, SelectionErrorView> {
    match decode::<T>(choice) {
        Some((i, _)) => if i < entries.len() {
            Ok(entries[i as int]@.run)
        } else {
            Err(SelectionErrorView::UnknownTag(i))
        },
        None => if custom is Enabled {
            Ok(RunView::Shell(trim(choice)))
        } else {
            Err(SelectionErrorView::AdHocRejected(trim(choice)))
        },
    }
}

/// The command for one selected line (see [`choice_result`]).
pub fn resolve_choice<T: Tag>(choice: &str, entries: &Vec<RunEntry>, custom: &Custom) -> (r: Result<
    Run,
    SelectionError,
>)
    ensures
        choice_view(r) == choice_result::<T>(choice@, entries@, *custom),
{
    match T::pop_tag(choice) {
        Some((id, _)) => {
            if id < entries.len() {
                Ok(entries[id].run.clone())
            } else {
                Err(SelectionError::UnknownTag(id))
            }
        },
        None => {
            let text = ImStr::from(trim_text(choice));
            match custom {
                Custom::Enabled => Ok(Run::Shell(text)),
                Custom::Disabled => Err(SelectionError::AdHocRejected(text)),
            }
        },
    }
}

/// `s` cut at each line break; the last line may be empty.
pub open spec fn split_lines(s: Seq<char>) -> Seq<Seq<char>>
    decreases s.len(),
{
    if s.len() == 0 {
        seq![Seq::empty()]
    } else {
        let lines = split_lines(s.drop_last());
        if s.last() == '\n' {
            lines.push(Seq::empty())
        } else {
            lines.update(lines.len() - 1, lines.last().push(s.last()))
        }
    }
}

/// The outcome of each line of `lines` that is not blank, in order.
pub open spec fn choices<T: Tag>(
    lines: Seq<Seq<char>>,
    entries: Seq<RunEntry>,
    custom: Custom,
) -> Seq<Result<RunView, SelectionErrorView>>
    decreases lines.len(),
{
    if lines.len() == 0 {
        Seq::empty()
    } else {
        let rest = choices::<T>(lines.drop_last(), entries, custom);
        if trim(lines.last()).len() == 0 {
            rest
        } else {
            rest.push(choice_result::<T>(lines.last(), entries, custom))
        }
    }
}

/// The outcomes, as plain values.
pub open spec fn choices_view(r: Seq<Result<Run, SelectionError>>) -> Seq<Result<RunView, SelectionErrorView>> {
    r.map_values(|x: Result<Run, SelectionError>| choice_view(x))
}

/// Adds the outcome of `line` unless it is blank.
fn add_choice<T: Tag>(
    out: &mut Vec<Result<Run, SelectionError>>,
    line: &str,
    entries: &Vec<RunEntry>,
    custom: &Custom,
)
    ensures
        choices_view(final(out)@) == if trim(line@).len() == 0 {
            choices_view(old(out)@)
        } else {
            choices_view(old(out)@).push(choice_result::<T>(line@, entries@, *custom))
        },
{
    if !trim_text(line).is_empty() {
        out.push(resolve_choice::<T>(line, entries, custom));
    }
    assert(choices_view(final(out)@) =~= if trim(line@).len() == 0 {
        choices_view(old(out)@)
    } else {
        choices_view(old(out)@).push(choice_result::<T>(line@, entries@, *custom))
    });
}

/// The outcome of each selected line of the picker's `output`, in order;
/// blank lines select nothing. Each line is resolved on its own, so one
/// rejected line leaves the others as they are.
pub fn resolve_selection<T: Tag>(output: &str, entries: &Vec<RunEntry>, custom: &Custom) -> (r: Vec<
    Result<Run, SelectionError>,
>)
    ensures
        choices_view(r@) == choices::<T>(split_lines(output@), entries@, *custom),
{
    let cs = chars_of(output);
    let mut out: Vec<Result<Run, SelectionError>> = Vec::new();
    let mut line = String::new();
    let ghost mut done: Seq<Seq<char>> = Seq::empty();
    let mut i: usize = 0;
    assert(cs@.subrange(0, 0) =~= Seq::<char>::empty());
    assert(choices_view(out@) =~= Seq::<Result<RunView, SelectionErrorView>>::empty());
    while i < cs.len()
        invariant
            cs@ == output@,
            i <= cs@.len(),
            split_lines(cs@.subrange(0, i as int)) == done.push(line@),
            choices_view(out@) == choices::<T>(done, entries@, *custom),
        decreases cs@.len() - i,
    {
        let c = cs[i];
        let ghost pre = cs@.subrange(0, i as int);
        let ghost next = cs@.subrange(0, i + 1);
        assert(next.drop_last() =~= pre);
        if c == '\n' {
            add_choice::<T>(&mut out, line.as_str(), entries, custom);
            proof {
                let grown = done.push(line@);
                assert(grown.drop_last() =~= done);
                done = grown;
            }
            line = String::new();
            assert(split_lines(next) =~= done.push(line@));
        } else {
            let ghost before = line@;
            push_char(&mut line, c);
            assert(split_lines(next) =~= done.push(line@));
        }
        i = i + 1;
    }
    assert(cs@.subrange(0, cs@.len() as int) =~= cs@);
    add_choice::<T>(&mut out, line.as_str(), entries, custom);
    proof {
        let all = done.push(line@);
        assert(all.drop_last() =~= done);
    }
    out
}

} // verus!
