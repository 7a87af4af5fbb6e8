//! What to start for each selected command. The caller starts the
//! processes; a command that fails to start does not stop the others.

use vstd::prelude::*;
use crate::config::{strs_view, Run, RunView, Shell};
use crate::imstr::ImStr;

verus! {

/// What to do for one command.
#[derive(Debug)]
pub enum Action {
    /// Start `program` with `args`; write `input` to its standard input
    /// when there is one.
    Spawn { program: ImStr, args: Vec<ImStr>, input: Option<ImStr> },
    /// The command is shell text, and the shell is disabled.
    ShellDisabled(ImStr),
    /// Nothing to run: an empty command, or an empty shell.
    Nothing,
}

/// An [`Action`] as plain values.
pub enum ActionView {
    Spawn { program: Seq<char>, args: Seq<Seq<char>>, input: Option<Seq<char>> },
    ShellDisabled(Seq<char>),
    Nothing,
}

impl View for Action {
    type V = ActionView;

    open spec fn view(&self) -> ActionView {
        match self {
            Action::Spawn { program, args, input } => ActionView::Spawn {
                program: program@,
                args: strs_view(args@),
                input: match input {
                    Some(s) => Some(s@),
                    None => None,
                },
            },
            Action::ShellDisabled(s) => ActionView::ShellDisabled(s@),
            Action::Nothing => ActionView::Nothing,
        }
    }
}

/// The action for `run`: a bare command starts its first word with the
/// rest as arguments; shell text starts the shell with the text as its
/// last argument, or written to its input when the shell is piped.
pub open spec fn action_for(run: RunView, shell: Shell) -> ActionView {
    match run {
        RunView::Bare(argv) => if argv.len() == 0 {
            ActionView::Nothing
        } else {
            ActionView::Spawn { program: argv[0], args: argv.drop_first(), input: None }
        },
        RunView::Shell(text) => if text.len() == 0 {
            ActionView::Nothing
        } else {
            match shell {
                Shell::Disabled => ActionView::ShellDisabled(text),
                Shell::Enabled { shell, piped } => {
                    let argv = strs_view(shell@);
                    if argv.len() == 0 {
                        ActionView::Nothing
                    } else if piped {
                        ActionView::Spawn { program: argv[0], args: argv.drop_first(), input: Some(text) }
                    } else {
                        ActionView::Spawn {
                            program: argv[0],
                            args: argv.drop_first().push(text),
                            input: None,
                        }
                    }
                },
            }
        },
    }
}

/// The strings of `v` after the first.
fn tail_strs(v: &Vec<ImStr>) -> (r: Vec<ImStr>)
    requires
        v@.len() > 0,
    ensures
        strs_view(r@) == strs_view(v@).drop_first(),
{
    let mut out: Vec<ImStr> = Vec::new();
    let mut i: usize = 1;
    while i < v.len()
        invariant
            1 <= i <= v@.len(),
            out@.len() == i - 1,
            forall|k: int| 0 <= k < i - 1 ==> #[trigger] out@[k]@ == v@[k + 1]@,
        decreases v@.len() - i,
    {
        out.push(v[i].clone());
        i = i + 1;
    }
    assert(strs_view(out@) =~= strs_view(v@).drop_first());
    out
}

/// The action for one command (see [`action_for`]).
pub fn command_action(run: &Run, shell: &Shell) -> (r: Action)
    ensures
        r@ == action_for(run@, *shell),
{
    match run {
        Run::Bare(argv) => {
            if argv.len() == 0 {
                Action::Nothing
            } else {
                Action::Spawn { program: argv[0].clone(), args: tail_strs(argv), input: None }
            }
        },
        Run::Shell(text) => {
            if text.as_str().is_empty() {
                return Action::Nothing;
            }
            match shell {
                Shell::Disabled => Action::ShellDisabled(text.clone()),
                Shell::Enabled { shell, piped } => {
                    if shell.len() == 0 {
                        Action::Nothing
                    } else if *piped {
                        Action::Spawn {
                            program: shell[0].clone(),
                            args: tail_strs(shell),
                            input: Some(text.clone()),
                        }
                    } else {
                        let mut args = tail_strs(shell);
                        let ghost before = strs_view(args@);
                        args.push(text.clone());
                        assert(strs_view(args@) =~= before.push(text@));
                        Action::Spawn { program: shell[0].clone(), args, input: None }
                    }
                },
            }
        },
    }
}

/// How starting a command went.
#[derive(Debug)]
pub enum Outcome {
    Started,
    Failed,
}

/// Hands out the actions for a list of commands, one at a time and in
/// order, and records which of them failed to start. A failure changes
/// nothing in what is handed out next.
#[derive(Debug)]
pub struct Executor {
    runs: Vec<Run>,
    shell: Shell,
    next: usize,
    failed: Vec<usize>,
}

impl Executor {
    /// The commands, as plain values.
    pub closed spec fn runs(&self) -> Seq<RunView> {
        self.runs@.map_values(|r: Run| r@)
    }

    pub closed spec fn shell(&self) -> Shell {
        self.shell
    }

    /// How many commands were handed out.
    pub closed spec fn position(&self) -> nat {
        self.next as nat
    }

    /// The positions of the commands that failed to start, in the order reported.
    pub closed spec fn failures(&self) -> Seq<usize> {
        self.failed@
    }

    pub closed spec fn wf(&self) -> bool {
        self.next <= self.runs@.len()
    }

    pub fn new(runs: Vec<Run>, shell: Shell) -> (r: Self)
        ensures
            r.wf(),
            r.runs() == runs@.map_values(|x: Run| x@),
            r.shell() == shell,
            r.position() == 0,
            r.failures() == Seq::<usize>::empty(),
    {
        Executor { runs, shell, next: 0, failed: Vec::new() }
    }

    /// The position and action of the next command, or `None` once every
    /// command was handed out.
    pub fn next_action(&mut self) -> (r: Option<(usize, Action)>)
        requires
            old(self).wf(),
        ensures
            final(self).wf(),
            final(self).runs() == old(self).runs(),
            final(self).shell() == old(self).shell(),
            final(self).failures() == old(self).failures(),
            old(self).position() < old(self).runs().len() ==> {
                &&& final(self).position() == old(self).position() + 1
                &&& r matches Some(p) && p.0 == old(self).position() && p.1@ == action_for(
                    old(self).runs()[old(self).position() as int],
                    old(self).shell(),
                )
            },
            old(self).position() >= old(self).runs().len() ==> r is None && final(self).position()
                == old(self).position(),
    {
        if self.next < self.runs.len() {
            let i = self.next;
            let action = command_action(&self.runs[i], &self.shell);
            self.next = i + 1;
            Some((i, action))
        } else {
            None
        }
    }

    /// Records how starting the command at `index` went.
    pub fn report(&mut self, index: usize, outcome: Outcome)
        requires
            old(self).wf(),
        ensures
            final(self).wf(),
            final(self).runs() == old(self).runs(),
            final(self).shell() == old(self).shell(),
            final(self).position() == old(self).position(),
            final(self).failures() == match outcome {
                Outcome::Failed => old(self).failures().push(index),
                Outcome::Started => old(self).failures(),
            },
    {
        if let Outcome::Failed = outcome {
            self.failed.push(index);
        }
    }

    /// The positions of the commands that failed to start.
    pub fn failed(&self) -> (r: &Vec<usize>)
        ensures
            r@ == self.failures(),
    {
        &self.failed
    }

    /// Whether every command was handed out.
    pub fn is_done(&self) -> (r: bool)
        requires
            self.wf(),
        ensures
            r == (self.position() == self.runs().len()),
    {
        self.next == self.runs.len()
    }
}

} // verus!
