//! The read loop: the prompt, what a read of the next line brought, and
//! what the shell says when work outside it has failed.

use crate::dispatch::Sh;
use crate::text::chars_of;
use vstd::prelude::*;

verus! {

/// The text of the prompt: user and host in green, the working directory
/// in blue, the time of day in brackets, the configured end and a space.
pub open spec fn prompt_text(
    user: Seq<char>,
    host: Seq<char>,
    cwd: Seq<char>,
    time: Seq<char>,
    suffix: Seq<char>,
) -> Seq<char> {
    "\x1b[1;32m"@ + user + "@"@ + host + "\x1b[0m \x1b[1;34m"@ + cwd + "\x1b[0m ["@ + time + "] "@
        + suffix + " "@
}

/// Whether `t` reads as a time of day, `HH:MM:SS`.
pub open spec fn is_clock_text(t: Seq<char>) -> bool {
    &&& t.len() == 8
    &&& t[2] == ':'
    &&& t[5] == ':'
    &&& forall|i: int| 0 <= i < 8 && i != 2 && i != 5 ==> '0' <= #[trigger] t[i] <= '9'
}

/// Calls `whoami::username`, which gives the name of the user that runs
/// the process, or a fixed word where the system does not tell. Nothing is
/// claimed of the name.
#[verifier::external_body]
fn user_name() -> (out: String) {
    whoami::username()
}

/// Calls `whoami::hostname`, which gives the name of the machine in lower
/// case, or a fixed word where the system does not tell. Nothing is
/// claimed of the name.
#[verifier::external_body]
#[allow(deprecated)]
fn host_name() -> (out: String) {
    whoami::hostname()
}

/// Whether `t` reads as a time of day, `HH:MM:SS`.
pub fn is_clock(t: &str) -> (r: bool)
    ensures
        r == is_clock_text(t@),
{
    let v = chars_of(t);
    if v.len() != 8 {
        return false;
    }
    let mut i: usize = 0;
    while i < 8
        invariant
            i <= 8,
            v@.len() == 8,
            v@ == t@,
            forall|k: int|
                0 <= k < i ==> if k == 2 || k == 5 {
                    v@[k] == ':'
                } else {
                    '0' <= #[trigger] v@[k] <= '9'
                },
        decreases 8 - i,
    {
        let c = v[i];
        if i == 2 || i == 5 {
            if c != ':' {
                return false;
            }
        } else if !('0' <= c && c <= '9') {
            return false;
        }
        i += 1;
    }
    true
}

/// The prompt made of its five parts.
pub fn render_prompt(user: &str, host: &str, cwd: &str, time: &str, suffix: &str) -> (out: String)
    ensures
        out@ == prompt_text(user@, host@, cwd@, time@, suffix@),
{
    let mut out = String::from_str("\x1b[1;32m");
    out.append(user);
    out.append("@");
    out.append(host);
    out.append("\x1b[0m \x1b[1;34m");
    out.append(cwd);
    out.append("\x1b[0m [");
    out.append(time);
    out.append("] ");
    out.append(suffix);
    out.append(" ");
    out
}

impl Sh {
    /// The prompt of the next read: `user` on `host`, in the working
    /// directory `cwd`, at the time of day `time`, with the end that the
    /// configuration gives.
    pub fn prompt(&self, user: &str, host: &str, cwd: &str, time: &str) -> (out: String)
        ensures
            out@ == prompt_text(user@, host@, cwd@, time@, self.cfg.ps@),
    {
        render_prompt(user, host, cwd, time, self.cfg.ps.as_str())
    }

    /// The prompt of the next read for the user who runs the shell on this
    /// host, in the working directory `cwd`, at the time of day `time`.
    /// User and host are asked of the system at each call.
    pub fn local_prompt(&self, cwd: &str, time: &str) -> (out: String)
        ensures
            exists|user: Seq<char>, host: Seq<char>|
                out@ == #[trigger] prompt_text(user, host, cwd@, time@, self.cfg.ps@),
    {
        let user = user_name();
        let host = host_name();
        self.prompt(user.as_str(), host.as_str(), cwd, time)
    }
}

/// What a read of the next line brought.
#[derive(Debug, Clone, PartialEq, Eq)]
pub enum Input {
    /// A line.
    Line(String),
    /// The user cancelled the line.
    Interrupted,
    /// The input has ended.
    Eof,
    /// The read failed; the text describes the failure.
    Failed(String),
}

/// What the shell prints after a read that brought no line.
pub open spec fn notice_of(input: Input) -> Option<Seq<char>> {
    match input {
        Input::Line(_) => None,
        Input::Interrupted => Some("\nInterrompido"@),
        Input::Eof => Some("\nSaindo..."@),
        Input::Failed(e) => Some("Erro: "@ + e@),
    }
}

impl Input {
    /// What the shell prints after this read, if anything.
    pub fn notice(&self) -> (out: Option<String>)
        ensures
            match notice_of(*self) {
                Some(m) => out is Some && out->Some_0@ == m,
                None => out is None,
            },
    {
        match self {
            Input::Line(_) => None,
            Input::Interrupted => Some(String::from_str("\nInterrompido")),
            Input::Eof => Some(String::from_str("\nSaindo...")),
            Input::Failed(e) => {
                let mut out = String::from_str("Erro: ");
                out.append(e.as_str());
                Some(out)
            },
        }
    }

    /// Whether the loop ends after this read: at the end of the input and
    /// after a failed read. The configuration is not stored then.
    pub fn ends_session(&self) -> (r: bool)
        ensures
            r == (*self is Eof || *self is Failed),
    {
        match self {
            Input::Eof => true,
            Input::Failed(_) => true,
            _ => false,
        }
    }

    /// Whether this read brought a line to dispatch: one that holds a
    /// word.
    pub fn asks_dispatch(&self) -> (r: bool)
        ensures
            r == (*self is Line && crate::split::tokens(self->Line_0@).len() > 0),
    {
        match self {
            Input::Line(l) => crate::split::words(l.as_str()).len() > 0,
            _ => false,
        }
    }
}

/// Work outside the shell that did not succeed. Each text is what the
/// system said of the failure.
#[derive(Debug, Clone, PartialEq, Eq)]
pub enum Failure {
    /// The working directory could not be changed.
    ChangeDir(String),
    /// The script could not be read; the text is its name as typed.
    Source(String),
    /// The program ran and ended without success; the text is its status.
    Status(String),
    /// The program could not be started.
    Spawn(String),
    /// The configuration could not be stored.
    Save(String),
}

/// What the shell prints of a failure.
pub open spec fn report_of(f: Failure) -> Seq<char> {
    match f {
        Failure::ChangeDir(e) => "Erro: "@ + e@,
        Failure::Source(file) => "Erro ao carregar o arquivo "@ + file@,
        Failure::Status(s) => "Falhou: "@ + s@,
        Failure::Spawn(e) => "Erro ao executar: "@ + e@,
        Failure::Save(e) => "Erro ao salvar: "@ + e@,
    }
}

impl Failure {
    /// What the shell prints of this failure. None of them ends the
    /// session.
    pub fn report(&self) -> (out: String)
        ensures
            out@ == report_of(*self),
    {
        let (head, tail) = match self {
            Failure::ChangeDir(e) => ("Erro: ", e),
            Failure::Source(file) => ("Erro ao carregar o arquivo ", file),
            Failure::Status(s) => ("Falhou: ", s),
            Failure::Spawn(e) => ("Erro ao executar: ", e),
            Failure::Save(e) => ("Erro ao salvar: ", e),
        };
        let mut out = String::from_str(head);
        out.append(tail.as_str());
        out
    }
}

} // verus!
