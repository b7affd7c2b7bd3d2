use shellcore::alias::{Alias, AliasTable, UsageError};
use shellcore::config::Cfg;

fn alias(name: &str, command: &str) -> Alias {
    Alias { name: name.to_string(), command: command.to_string() }
}

#[test]
fn default_configuration() {
    let cfg = Cfg::default();
    assert_eq!(cfg.ps, "->");
    assert!(cfg.al.is_empty());
    assert_eq!(cfg.al.entries(), Vec::<Alias>::new());
}

#[test]
fn define_then_resolve() {
    let mut t = AliasTable::new();
    assert_eq!(t.define("gs=git status"), Ok(alias("gs", "git status")));
    assert_eq!(t.resolve("gs"), "git status");
    assert_eq!(t.get("gs"), Some("git status".to_string()));
    assert!(!t.is_empty());
}

#[test]
fn resolve_falls_back_to_the_name() {
    let mut t = AliasTable::new();
    assert_eq!(t.resolve("ls"), "ls");
    assert_eq!(t.get("ls"), None);
    t.insert("ll".to_string(), "ls".to_string());
    assert_eq!(t.resolve("l"), "l");
    assert_eq!(t.resolve("lll"), "lll");
    assert_eq!(t.resolve("LL"), "LL");
    assert_eq!(t.resolve("ll"), "ls");
}

#[test]
fn definition_without_equals_is_refused() {
    let mut t = AliasTable::new();
    t.insert("ll".to_string(), "ls".to_string());
    assert_eq!(t.define("nothing here"), Err(UsageError::Alias));
    assert_eq!(t.define(""), Err(UsageError::Alias));
    assert_eq!(t.entries(), vec![alias("ll", "ls")]);
}

#[test]
fn definition_splits_at_the_first_equals() {
    let mut t = AliasTable::new();
    assert_eq!(t.define("v=a=b"), Ok(alias("v", "a=b")));
    assert_eq!(t.define("=x"), Ok(alias("", "x")));
    assert_eq!(t.define("e="), Ok(alias("e", "")));
    assert_eq!(t.resolve("v"), "a=b");
    assert_eq!(t.resolve("e"), "");
}

#[test]
fn definition_trims_the_command_only() {
    let mut t = AliasTable::new();
    assert_eq!(t.define("k=  ls -l  "), Ok(alias("k", "ls -l")));
    assert_eq!(t.define("j =ls"), Ok(alias("j ", "ls")));
    assert_eq!(t.resolve("k"), "ls -l");
    assert_eq!(t.resolve("j"), "j");
    assert_eq!(t.resolve("j "), "ls");
}

#[test]
fn later_definition_replaces_earlier() {
    let mut t = AliasTable::new();
    t.define("a=one").unwrap();
    t.define("b=two").unwrap();
    t.define("a=three").unwrap();
    assert_eq!(t.resolve("a"), "three");
    assert_eq!(t.resolve("b"), "two");
    assert_eq!(t.entries().len(), 2);
}

#[test]
fn same_definition_twice_changes_nothing() {
    let mut t = AliasTable::new();
    t.define("x=y").unwrap();
    t.define("gs=git status").unwrap();
    let once = t.entries();
    t.define("gs=git status").unwrap();
    assert_eq!(t.entries(), once);
    assert_eq!(t.resolve("gs"), "git status");
    assert_eq!(t.resolve("x"), "y");
}

#[test]
fn entries_hold_each_name_once() {
    let t = AliasTable::from_entries(vec![alias("a", "1"), alias("b", "2"), alias("a", "3")]);
    let mut es = t.entries();
    es.sort_by(|x, y| x.name.cmp(&y.name));
    assert_eq!(es, vec![alias("a", "3"), alias("b", "2")]);
    assert_eq!(t.resolve("a"), "3");
}

#[test]
fn usage_hints() {
    assert_eq!(UsageError::Alias.hint(), "Uso: alias nome=comando");
    assert_eq!(UsageError::Cd.hint(), "Uso: cd <diretório>");
    assert_eq!(UsageError::Source.hint(), "Uso: source <arquivo>");
}
