//! The dispatcher: what one line of input asks for, and the lines of
//! sourced scripts that wait for their turn.

use crate::alias::{parse_alias, resolved, Alias, UsageError};
use crate::config::Cfg;
use crate::path::{expand_path, expanded, text_view};
use crate::pending::Pending;
use crate::split::{join, join_words, tokens, words};
use crate::text::reads;
use vstd::prelude::*;

verus! {

/// What the shell is to do for one line of input.
#[derive(Debug, Clone, PartialEq, Eq)]
pub enum Action {
    /// The line holds no word: nothing.
    Nothing,
    /// Store the configuration, say goodbye and end the process with
    /// status 0.
    Exit,
    /// The alias has been defined: confirm it.
    Defined(Alias),
    /// The builtin lacks its argument: show how it is called.
    Usage(UsageError),
    /// Print every variable of the environment.
    ListEnv,
    /// Make this directory the working directory.
    ChangeDir(String),
    /// Read the file at `path` and run its lines; `shown` is its name as
    /// the user typed it.
    Source { path: String, shown: String },
    /// Run `program` with `args` and wait for it to end.
    Spawn { program: String, args: Vec<String> },
}

/// An action as contracts see it, its texts as sequences of characters.
pub ghost enum ActionView {
    Nothing,
    Exit,
    Defined { name: Seq<char>, command: Seq<char> },
    Usage(UsageError),
    ListEnv,
    ChangeDir(Seq<char>),
    Source { path: Seq<char>, shown: Seq<char> },
    Spawn { program: Seq<char>, args: Seq<Seq<char>> },
}

impl View for Action {
    type V = ActionView;

    open spec fn view(&self) -> ActionView {
        match self {
            Action::Nothing => ActionView::Nothing,
            Action::Exit => ActionView::Exit,
            Action::Defined(a) => ActionView::Defined { name: a.name@, command: a.command@ },
            Action::Usage(e) => ActionView::Usage(*e),
            Action::ListEnv => ActionView::ListEnv,
            Action::ChangeDir(d) => ActionView::ChangeDir(d@),
            Action::Source { path, shown } => ActionView::Source { path: path@, shown: shown@ },
            Action::Spawn { program, args } => ActionView::Spawn {
                program: program@,
                args: args.deep_view(),
            },
        }
    }
}

/// Whether the dispatcher handles the command word `w` itself.
pub open spec fn is_builtin(w: Seq<char>) -> bool {
    w == "exit"@ || w == "alias"@ || w == "env"@ || w == "cd"@ || w == "source"@
}

/// What `line` asks for, with the aliases `table` and the home directory
/// `home`. The first word of the line is the command word, the other words
/// are its arguments. A command word that is no builtin names a program,
/// through its alias if it has one; the arguments go to the program as
/// they are.
pub open spec fn action_of(
    table: Map<Seq<char>, Seq<char>>,
    line: Seq<char>,
    home: Option<Seq<char>>,
) -> ActionView {
    let ws = tokens(line);
    if ws.len() == 0 {
        ActionView::Nothing
    } else if ws[0] == "exit"@ {
        ActionView::Exit
    } else if ws[0] == "alias"@ {
        match parse_alias(join(ws.skip(1), ' ')) {
            Some((name, command)) => ActionView::Defined { name, command },
            None => ActionView::Usage(UsageError::Alias),
        }
    } else if ws[0] == "env"@ {
        ActionView::ListEnv
    } else if ws[0] == "cd"@ {
        if ws.len() >= 2 {
            ActionView::ChangeDir(expanded(ws[1], home))
        } else {
            ActionView::Usage(UsageError::Cd)
        }
    } else if ws[0] == "source"@ {
        if ws.len() >= 2 {
            ActionView::Source { path: expanded(ws[1], home), shown: ws[1] }
        } else {
            ActionView::Usage(UsageError::Source)
        }
    } else {
        ActionView::Spawn { program: resolved(table, ws[0]), args: ws.skip(1) }
    }
}

/// The aliases after `line` has been dispatched: those of `table`, and the
/// one that the line defines if it is an `alias` line with a `=`.
pub open spec fn table_after(table: Map<Seq<char>, Seq<char>>, line: Seq<char>) -> Map<
    Seq<char>,
    Seq<char>,
> {
    match action_of(table, line, None) {
        ActionView::Defined { name, command } => table.insert(name, command),
        _ => table,
    }
}

/// The aliases after the lines `ls` have been dispatched one after the
/// other, starting with the aliases `table`.
pub open spec fn table_after_all(table: Map<Seq<char>, Seq<char>>, ls: Seq<Seq<char>>) -> Map<
    Seq<char>,
    Seq<char>,
>
    decreases ls.len(),
{
    if ls.len() == 0 {
        table
    } else {
        table_after_all(table_after(table, ls[0]), ls.skip(1))
    }
}

/// The aliases and the waiting lines after `n` waiting lines have been
/// dispatched, or all of them if fewer wait, while no script is loaded in
/// between.
pub open spec fn after_steps(
    table: Map<Seq<char>, Seq<char>>,
    waiting: Seq<Seq<char>>,
    n: nat,
) -> (Map<Seq<char>, Seq<char>>, Seq<Seq<char>>)
    decreases n,
{
    if n == 0 || waiting.len() == 0 {
        (table, waiting)
    } else {
        after_steps(table_after(table, waiting[0]), waiting.skip(1), (n - 1) as nat)
    }
}

/// What the shell prints when it has answered a line by itself.
pub open spec fn message_of(a: ActionView) -> Option<Seq<char>> {
    match a {
        ActionView::Exit => Some("Tchau!"@),
        ActionView::Defined { name, command } => Some(
            "Alias adicionado: "@ + name + " -> "@ + command,
        ),
        ActionView::Usage(e) => Some(e.hint_text()),
        _ => None,
    }
}

impl Action {
    /// What the shell itself prints for this action: the goodbye, once the
    /// configuration is stored, the confirmation of an alias, or a usage
    /// hint.
    pub fn message(&self) -> (out: Option<String>)
        ensures
            match message_of(self@) {
                Some(m) => out is Some && out->Some_0@ == m,
                None => out is None,
            },
    {
        match self {
            Action::Exit => Some(String::from_str("Tchau!")),
            Action::Defined(a) => {
                let mut out = String::from_str("Alias adicionado: ");
                out.append(a.name.as_str());
                out.append(" -> ");
                out.append(a.command.as_str());
                Some(out)
            },
            Action::Usage(e) => Some(e.hint()),
            _ => None,
        }
    }
}

/// A session: its configuration, and the lines of sourced scripts that
/// have not been dispatched yet.
pub struct Sh {
    /// The configuration.
    pub cfg: Cfg,
    /// The lines that wait for dispatch.
    pub pending: Pending,
}

impl Sh {
    /// A session with the configuration `cfg` and no waiting line.
    pub fn new(cfg: Cfg) -> (sh: Sh)
        ensures
            sh.cfg == cfg,
            sh.pending@ == Seq::<Seq<char>>::empty(),
    {
        Sh { cfg, pending: Pending::new() }
    }

    /// Dispatches one line: defines the alias if the line is an `alias`
    /// line, and says what is to be done for it. `home` is the home
    /// directory, if it is known. The waiting lines stay as they are.
    pub fn handle(&mut self, input: &str, home: Option<&str>) -> (act: Action)
        ensures
            act@ == action_of(old(self).cfg.al@, input@, text_view(home)),
            final(self).cfg.al@ == table_after(old(self).cfg.al@, input@),
            final(self).cfg.ps == old(self).cfg.ps,
            final(self).pending@ == old(self).pending@,
    {
        let mut args = words(input);
        let ghost ws = tokens(input@);
        if args.len() == 0 {
            return Action::Nothing;
        }
        let cmd = args.remove(0);
        assert(args.deep_view() =~= ws.skip(1));
        assert(cmd@ == ws[0]);
        if reads(cmd.as_str(), "exit") {
            Action::Exit
        } else if reads(cmd.as_str(), "alias") {
            let spec = join_words(&args, ' ');
            match self.cfg.al.define(spec.as_str()) {
                Ok(a) => Action::Defined(a),
                Err(e) => Action::Usage(e),
            }
        } else if reads(cmd.as_str(), "env") {
            Action::ListEnv
        } else if reads(cmd.as_str(), "cd") {
            if args.len() >= 1 {
                assert(args[0]@ == ws[1]);
                Action::ChangeDir(expand_path(args[0].as_str(), home))
            } else {
                Action::Usage(UsageError::Cd)
            }
        } else if reads(cmd.as_str(), "source") {
            if args.len() >= 1 {
                assert(args[0]@ == ws[1]);
                let path = expand_path(args[0].as_str(), home);
                let shown = args.remove(0);
                Action::Source { path, shown }
            } else {
                Action::Usage(UsageError::Source)
            }
        } else {
            let program = self.cfg.al.resolve(cmd.as_str());
            Action::Spawn { program, args }
        }
    }

    /// Dispatches the next waiting line, if there is one.
    pub fn step(&mut self, home: Option<&str>) -> (r: Option<Action>)
        ensures
            final(self).cfg.ps == old(self).cfg.ps,
            match r {
                Some(act) => {
                    &&& old(self).pending@.len() > 0
                    &&& act@ == action_of(
                        old(self).cfg.al@,
                        old(self).pending@[0],
                        text_view(home),
                    )
                    &&& final(self).cfg.al@ == table_after(old(self).cfg.al@, old(self).pending@[0])
                    &&& final(self).pending@ == old(self).pending@.skip(1)
                    &&& (final(self).cfg.al@, final(self).pending@) == after_steps(
                        old(self).cfg.al@,
                        old(self).pending@,
                        1,
                    )
                },
                None => {
                    &&& old(self).pending@.len() == 0
                    &&& final(self).cfg.al@ == old(self).cfg.al@
                    &&& final(self).pending@ == old(self).pending@
                },
            },
    {
        let ghost table = self.cfg.al@;
        let ghost waiting = self.pending@;
        match self.pending.next_line() {
            Some(line) => {
                let act = self.handle(line.as_str(), home);
                proof {
                    let next = table_after(table, waiting[0]);
                    assert(after_steps(next, waiting.skip(1), 0) == (next, waiting.skip(1)));
                    assert(after_steps(table, waiting, 1) == after_steps(
                        next,
                        waiting.skip(1),
                        0,
                    ));
                }
                Some(act)
            },
            None => None,
        }
    }
}

} // verus!
