use shellcore::complete::{offered_names, search_dirs, Comp, Pair};

fn strings(v: &[&str]) -> Vec<String> {
    v.iter().map(|s| s.to_string()).collect()
}

fn pairs(v: &[&str]) -> Vec<Pair> {
    v.iter().map(|s| Pair { display: s.to_string(), replacement: s.to_string() }).collect()
}

#[test]
fn prefix_e_offers_exit_and_env() {
    let r = Comp.candidates("e", &Vec::new(), &Vec::new());
    assert_eq!(r, pairs(&["exit", "env"]));
}

#[test]
fn empty_prefix_offers_everything_in_discovery_order() {
    let r = Comp.candidates("", &strings(&["zsh", "awk"]), &strings(&["b.txt", "a.txt"]));
    assert_eq!(
        r,
        pairs(&["ls", "cd", "exit", "alias", "env", "cat", "source", "zsh", "awk", "b.txt", "a.txt"])
    );
}

#[test]
fn duplicates_are_kept() {
    let r = Comp.candidates("e", &strings(&["env", "echo", "ls"]), &strings(&["env", "e"]));
    assert_eq!(r, pairs(&["exit", "env", "env", "echo", "env", "e"]));
}

#[test]
fn matching_is_case_sensitive_and_from_the_start() {
    assert_eq!(Comp.candidates("E", &strings(&["Env", "env"]), &Vec::new()), pairs(&["Env"]));
    assert_eq!(Comp.candidates("nv", &strings(&["env"]), &Vec::new()), Vec::<Pair>::new());
    assert_eq!(Comp.candidates("exit", &Vec::new(), &Vec::new()), pairs(&["exit"]));
    assert_eq!(Comp.candidates("exits", &Vec::new(), &Vec::new()), Vec::<Pair>::new());
}

#[test]
fn whole_line_before_the_cursor_is_the_prefix() {
    let none: Vec<String> = Vec::new();
    let (start, r) = Comp.complete("cat", 1, &none, &none);
    assert_eq!(start, 0);
    assert_eq!(r, pairs(&["cd", "cat"]));
    let (start, r) = Comp.complete("cat file", 8, &none, &strings(&["file", "cat file.txt"]));
    assert_eq!(start, 0);
    assert_eq!(r, pairs(&["cat file.txt"]));
    let (start, r) = Comp.complete("ls -", 4, &strings(&["ls"]), &none);
    assert_eq!(start, 0);
    assert_eq!(r, Vec::<Pair>::new());
}

#[test]
fn cursor_at_the_start_matches_all() {
    let none: Vec<String> = Vec::new();
    let (start, r) = Comp.complete("xyz", 0, &none, &none);
    assert_eq!(start, 0);
    assert_eq!(r.len(), 7);
}

#[test]
fn cursor_counts_bytes() {
    let none: Vec<String> = Vec::new();
    let (_, r) = Comp.complete("éa", 2, &none, &strings(&["été", "ea", "éa"]));
    assert_eq!(r, pairs(&["été", "éa"]));
    let (_, r) = Comp.complete("éa", 3, &none, &strings(&["été", "ea", "éa"]));
    assert_eq!(r, pairs(&["éa"]));
}

#[test]
fn offered_names_in_order() {
    assert_eq!(offered_names(), strings(&["ls", "cd", "exit", "alias", "env", "cat", "source"]));
}

#[test]
fn search_path_is_cut_at_colons() {
    assert_eq!(search_dirs("/usr/bin:/bin"), strings(&["/usr/bin", "/bin"]));
    assert_eq!(search_dirs("/usr/bin::/bin:"), strings(&["/usr/bin", "", "/bin", ""]));
    assert_eq!(search_dirs(""), strings(&[""]));
}

#[test]
fn cursor_inside_a_character_completes_nothing() {
    let none: Vec<String> = Vec::new();
    assert_eq!(Comp.complete_at("éa", 1, &none, &none), None);
    assert_eq!(Comp.complete_at("ls", 3, &none, &none), None);
    assert_eq!(Comp.complete_at("ls", 2, &none, &none), Some((0, pairs(&["ls"]))));
    assert_eq!(Comp.complete_at("", 0, &none, &none).map(|r| r.1.len()), Some(7));
}
