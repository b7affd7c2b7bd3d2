use shellcore::alias::{Alias, UsageError};
use shellcore::config::Cfg;
use shellcore::dispatch::{Action, Sh};
use shellcore::pending::Pending;
use shellcore::repl::{is_clock, render_prompt, Failure, Input};

fn strings(v: &[&str]) -> Vec<String> {
    v.iter().map(|s| s.to_string()).collect()
}

fn spawn(program: &str, args: &[&str]) -> Action {
    Action::Spawn { program: program.to_string(), args: strings(args) }
}

fn fresh() -> Sh {
    Sh::new(Cfg::default())
}

#[test]
fn blank_lines_ask_for_nothing() {
    let mut sh = fresh();
    assert_eq!(sh.handle("", None), Action::Nothing);
    assert_eq!(sh.handle("   \t ", None), Action::Nothing);
    assert!(sh.cfg.al.is_empty());
}

#[test]
fn exit_is_a_builtin() {
    let mut sh = fresh();
    assert_eq!(sh.handle("exit", None), Action::Exit);
    assert_eq!(sh.handle("  exit now ", None), Action::Exit);
    assert_eq!(Action::Exit.message(), Some("Tchau!".to_string()));
}

#[test]
fn env_is_a_builtin() {
    let mut sh = fresh();
    assert_eq!(sh.handle("env", None), Action::ListEnv);
    assert_eq!(Action::ListEnv.message(), None);
}

#[test]
fn alias_defines_and_confirms() {
    let mut sh = fresh();
    let act = sh.handle("alias ll=ls", None);
    assert_eq!(act, Action::Defined(Alias { name: "ll".to_string(), command: "ls".to_string() }));
    assert_eq!(act.message(), Some("Alias adicionado: ll -> ls".to_string()));
    assert_eq!(sh.cfg.al.resolve("ll"), "ls");
}

#[test]
fn alias_joins_its_arguments_with_single_spaces() {
    let mut sh = fresh();
    let act = sh.handle("  alias   gs=git    status  ", None);
    assert_eq!(
        act,
        Action::Defined(Alias { name: "gs".to_string(), command: "git status".to_string() })
    );
    let act = sh.handle("alias k = v", None);
    assert_eq!(act, Action::Defined(Alias { name: "k ".to_string(), command: "v".to_string() }));
}

#[test]
fn alias_without_equals_shows_usage() {
    let mut sh = fresh();
    assert_eq!(sh.handle("alias", None), Action::Usage(UsageError::Alias));
    let act = sh.handle("alias gs git status", None);
    assert_eq!(act, Action::Usage(UsageError::Alias));
    assert_eq!(act.message(), Some("Uso: alias nome=comando".to_string()));
    assert!(sh.cfg.al.is_empty());
}

#[test]
fn alias_then_invoke_spawns_the_command_with_the_arguments() {
    let mut sh = fresh();
    sh.handle("alias ll=ls", None);
    assert_eq!(sh.handle("ll -a /tmp", None), spawn("ls", &["-a", "/tmp"]));
    assert_eq!(sh.handle("ll", None), spawn("ls", &[]));
    assert_eq!(sh.handle("lll -a", None), spawn("lll", &["-a"]));
}

#[test]
fn alias_replaces_the_command_word_only() {
    let mut sh = fresh();
    sh.handle("alias ll=ls", None);
    assert_eq!(sh.handle("echo ll", None), spawn("echo", &["ll"]));
}

#[test]
fn builtins_win_over_aliases() {
    let mut sh = fresh();
    sh.handle("alias cd=ls", None);
    assert_eq!(sh.handle("cd /tmp", None), Action::ChangeDir("/tmp".to_string()));
    sh.handle("alias env=printenv", None);
    assert_eq!(sh.handle("env", None), Action::ListEnv);
}

#[test]
fn unknown_words_name_programs() {
    let mut sh = fresh();
    assert_eq!(sh.handle("ls -l  ~", Some("/home/u")), spawn("ls", &["-l", "~"]));
    assert_eq!(sh.handle("Exit", None), spawn("Exit", &[]));
}

#[test]
fn cd_without_argument_shows_usage() {
    let mut sh = fresh();
    let act = sh.handle("cd", Some("/home/u"));
    assert_eq!(act, Action::Usage(UsageError::Cd));
    assert_eq!(act.message(), Some("Uso: cd <diretório>".to_string()));
    assert_eq!(sh.handle("  cd  ", None), Action::Usage(UsageError::Cd));
}

#[test]
fn cd_home_marker() {
    let mut sh = fresh();
    assert_eq!(sh.handle("cd ~", Some("/home/u")), Action::ChangeDir("/home/u".to_string()));
    assert_eq!(sh.handle("cd ~/x y", Some("/home/u")), Action::ChangeDir("/home/u/x".to_string()));
    assert_eq!(sh.handle("cd ~", None), Action::ChangeDir("~".to_string()));
}

#[test]
fn cd_to_a_missing_directory_reports_and_changes_nothing() {
    let mut sh = fresh();
    let act = sh.handle("cd /nonexistent", Some("/home/u"));
    assert_eq!(act, Action::ChangeDir("/nonexistent".to_string()));
    assert_eq!(act.message(), None);
    let said = Failure::ChangeDir("No such file or directory (os error 2)".to_string()).report();
    assert_eq!(said, "Erro: No such file or directory (os error 2)");
    assert!(sh.cfg.al.is_empty());
    assert_eq!(sh.cfg.ps, "->");
    assert!(sh.pending.is_empty());
}

#[test]
fn source_names_the_file() {
    let mut sh = fresh();
    assert_eq!(
        sh.handle("source ~/.profile extra", Some("/home/u")),
        Action::Source { path: "/home/u/.profile".to_string(), shown: "~/.profile".to_string() }
    );
    let act = sh.handle("source", None);
    assert_eq!(act, Action::Usage(UsageError::Source));
    assert_eq!(act.message(), Some("Uso: source <arquivo>".to_string()));
}

#[test]
fn sourced_lines_run_in_file_order() {
    let mut sh = fresh();
    sh.pending.load("alias g=git\n\ng status\ncd\nexit\n");
    let mut seen = Vec::new();
    while let Some(act) = sh.step(None) {
        seen.push(act);
    }
    assert_eq!(
        seen,
        vec![
            Action::Defined(Alias { name: "g".to_string(), command: "git".to_string() }),
            Action::Nothing,
            spawn("git", &["status"]),
            Action::Usage(UsageError::Cd),
            Action::Exit,
        ]
    );
    assert!(sh.pending.is_empty());
    assert_eq!(sh.step(None), None);
}

#[test]
fn nested_script_runs_before_the_rest() {
    let mut p = Pending::new();
    p.load("a1\nsource b\na3");
    assert_eq!(p.next_line(), Some("a1".to_string()));
    assert_eq!(p.next_line(), Some("source b".to_string()));
    p.load("b1\nb2\n");
    let mut rest = Vec::new();
    while let Some(l) = p.next_line() {
        rest.push(l);
    }
    assert_eq!(rest, strings(&["b1", "b2", "a3"]));
    assert_eq!(p.next_line(), None);
}

#[test]
fn alias_from_a_script_is_seen_by_later_lines_and_by_the_session() {
    let mut sh = fresh();
    sh.pending.load("ll\nsource inner\nll");
    assert_eq!(sh.step(None), Some(spawn("ll", &[])));
    assert_eq!(
        sh.step(None),
        Some(Action::Source { path: "inner".to_string(), shown: "inner".to_string() })
    );
    sh.pending.load("alias ll=ls\n");
    assert!(matches!(sh.step(None), Some(Action::Defined(_))));
    assert_eq!(sh.step(None), Some(spawn("ls", &[])));
    assert_eq!(sh.step(None), None);
    assert_eq!(sh.handle("ll -a", None), spawn("ls", &["-a"]));
}

#[test]
fn empty_script_leaves_the_waiting_lines() {
    let mut p = Pending::new();
    p.load("x");
    p.load("");
    assert_eq!(p.next_line(), Some("x".to_string()));
    assert!(p.is_empty());
}

#[test]
fn fresh_session_alias_and_exit() {
    let mut sh = fresh();
    assert_eq!(sh.cfg.ps, "->");
    assert!(sh.cfg.al.is_empty());
    assert!(sh.pending.is_empty());
    sh.handle("alias gs=git status", None);
    assert_eq!(sh.handle("gs", None), spawn("git status", &[]));
    assert_eq!(sh.handle("gs -s --short", None), spawn("git status", &["-s", "--short"]));
    assert_eq!(sh.handle("exit", None), Action::Exit);
    assert_eq!(
        sh.cfg.al.entries(),
        vec![Alias { name: "gs".to_string(), command: "git status".to_string() }]
    );
    assert_eq!(sh.cfg.ps, "->");
}

#[test]
fn prompt_is_made_of_its_parts() {
    assert_eq!(
        render_prompt("u", "h", "/tmp", "12:34:56", "->"),
        "\x1b[1;32mu@h\x1b[0m \x1b[1;34m/tmp\x1b[0m [12:34:56] -> "
    );
    assert_eq!(
        render_prompt("", "", "", "", ""),
        "\x1b[1;32m@\x1b[0m \x1b[1;34m\x1b[0m []  "
    );
}

#[test]
fn prompt_of_a_session_ends_as_configured() {
    let mut sh = fresh();
    assert_eq!(
        sh.prompt("ana", "box", "/home/ana", "07:08:09"),
        "\x1b[1;32mana@box\x1b[0m \x1b[1;34m/home/ana\x1b[0m [07:08:09] -> "
    );
    sh.cfg.ps = "$".to_string();
    assert_eq!(
        sh.prompt("ana", "box", "/", "23:59:60"),
        "\x1b[1;32mana@box\x1b[0m \x1b[1;34m/\x1b[0m [23:59:60] $ "
    );
}

#[test]
fn local_prompt_names_user_and_host() {
    let mut sh = fresh();
    sh.cfg.ps = "$".to_string();
    let p = sh.local_prompt("/some/dir", "12:34:56");
    assert!(p.starts_with("\x1b[1;32m"));
    assert!(p.ends_with("\x1b[0m \x1b[1;34m/some/dir\x1b[0m [12:34:56] $ "));
    let at = p.find("\x1b[0m \x1b[1;34m/some/dir\x1b[0m [").unwrap();
    let names = &p["\x1b[1;32m".len()..at];
    assert!(names.contains('@'));
    assert!(!names.starts_with('@'));
    assert!(!names.ends_with('@'));
}

#[test]
fn clock_texts() {
    assert!(is_clock("00:00:00"));
    assert!(is_clock("23:59:60"));
    assert!(is_clock("12:34:56"));
    assert!(!is_clock(""));
    assert!(!is_clock("1:23:45"));
    assert!(!is_clock("12:34:567"));
    assert!(!is_clock("12-34-56"));
    assert!(!is_clock("12:34.56"));
    assert!(!is_clock("1a:34:56"));
    assert!(!is_clock("12:34:5/"));
    assert!(!is_clock("12:3::56"));
    assert!(!is_clock("١٢:٣٤:٥٦"));
}

#[test]
fn local_time_of_day_is_a_clock_text() {
    let time = chrono::Local::now().format("%H:%M:%S").to_string();
    assert!(is_clock(&time));
}

#[test]
fn reads_without_a_line() {
    assert_eq!(Input::Interrupted.notice(), Some("\nInterrompido".to_string()));
    assert_eq!(Input::Eof.notice(), Some("\nSaindo...".to_string()));
    assert_eq!(Input::Failed("Io(broken)".to_string()).notice(), Some("Erro: Io(broken)".to_string()));
    assert_eq!(Input::Line("ls".to_string()).notice(), None);
    assert!(!Input::Interrupted.ends_session());
    assert!(Input::Eof.ends_session());
    assert!(Input::Failed(String::new()).ends_session());
    assert!(!Input::Line("exit".to_string()).ends_session());
}

#[test]
fn only_lines_with_a_word_are_dispatched() {
    assert!(Input::Line("ls".to_string()).asks_dispatch());
    assert!(!Input::Line("  \t".to_string()).asks_dispatch());
    assert!(!Input::Line(String::new()).asks_dispatch());
    assert!(!Input::Eof.asks_dispatch());
    assert!(!Input::Interrupted.asks_dispatch());
}

#[test]
fn failures_are_reported() {
    assert_eq!(Failure::Source("~/x".to_string()).report(), "Erro ao carregar o arquivo ~/x");
    assert_eq!(Failure::Status("ExitStatus(256)".to_string()).report(), "Falhou: ExitStatus(256)");
    assert_eq!(Failure::Spawn("NotFound".to_string()).report(), "Erro ao executar: NotFound");
    assert_eq!(Failure::Save("denied".to_string()).report(), "Erro ao salvar: denied");
    assert_eq!(Failure::ChangeDir("no".to_string()).report(), "Erro: no");
}
