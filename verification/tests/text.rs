use shellcore::path::{config_path, expand_path};
use shellcore::split::{join_words, lines_of, split, trimmed, words};
use shellcore::text::{chars_of, reads, separates, text_of};

fn strings(v: &[&str]) -> Vec<String> {
    v.iter().map(|s| s.to_string()).collect()
}

#[test]
fn whitespace_is_what_std_calls_whitespace() {
    let mut n: u32 = 0;
    while n <= 0x10FFFF {
        if let Some(c) = char::from_u32(n) {
            assert_eq!(separates(c), c.is_whitespace(), "code point {:x}", n);
        }
        n += 1;
    }
}

#[test]
fn chars_and_back() {
    let v = chars_of("olá, mundo");
    assert_eq!(v.len(), 10);
    assert_eq!(v[2], 'á');
    assert_eq!(text_of(&v), "olá, mundo");
    assert_eq!(text_of(&chars_of("")), "");
}

#[test]
fn reads_compares_whole_texts() {
    assert!(reads("exit", "exit"));
    assert!(!reads("exit", "exi"));
    assert!(!reads("exi", "exit"));
    assert!(!reads("Exit", "exit"));
    assert!(reads("", ""));
}

#[test]
fn words_are_runs_without_whitespace() {
    assert_eq!(words("  ls   -la\t/tmp \n"), strings(&["ls", "-la", "/tmp"]));
    assert_eq!(words("ls"), strings(&["ls"]));
    assert_eq!(words(""), Vec::<String>::new());
    assert_eq!(words(" \t \u{a0}\u{3000} "), Vec::<String>::new());
    assert_eq!(words("a\u{2003}b"), strings(&["a", "b"]));
}

#[test]
fn words_agree_with_split_whitespace() {
    for s in ["", " ", "a", " a", "a ", "a b", "  a  b  ", "x=y z", "\tq\r\nw\u{85}e", "é è"] {
        let expected: Vec<String> = s.split_whitespace().map(|w| w.to_string()).collect();
        assert_eq!(words(s), expected, "{:?}", s);
    }
}

#[test]
fn lines_end_at_line_feeds() {
    assert_eq!(lines_of("a\n\nb\r\nc"), strings(&["a", "", "b", "c"]));
    assert_eq!(lines_of("a\n"), strings(&["a"]));
    assert_eq!(lines_of(""), Vec::<String>::new());
    assert_eq!(lines_of("\n"), strings(&[""]));
    assert_eq!(lines_of("\n\n"), strings(&["", ""]));
    assert_eq!(lines_of("x\r"), strings(&["x\r"]));
    assert_eq!(lines_of("x\r\r\ny"), strings(&["x\r", "y"]));
    assert_eq!(lines_of("\r\n"), strings(&[""]));
}

#[test]
fn lines_agree_with_std_lines() {
    for s in ["", "\n", "a", "a\n", "a\nb", "a\r\nb\r\n", "\r", "a\rb\n", "\n\n\n", "a\n\r\nb", "ç\n"] {
        let expected: Vec<String> = s.lines().map(|l| l.to_string()).collect();
        assert_eq!(lines_of(s), expected, "{:?}", s);
    }
}

#[test]
fn fields_keep_empty_ones() {
    assert_eq!(split("/bin::/usr/bin", ':'), strings(&["/bin", "", "/usr/bin"]));
    assert_eq!(split("", ':'), strings(&[""]));
    assert_eq!(split(":", ':'), strings(&["", ""]));
    assert_eq!(split("/bin", ':'), strings(&["/bin"]));
    assert_eq!(split("a:b:", ':'), strings(&["a", "b", ""]));
}

#[test]
fn fields_agree_with_std_split() {
    for s in ["", ":", "a", "a:b", ":a", "a:", "a::b", ":::"] {
        let expected: Vec<String> = s.split(':').map(|l| l.to_string()).collect();
        assert_eq!(split(s, ':'), expected, "{:?}", s);
    }
}

#[test]
fn trimmed_drops_whitespace_at_both_ends() {
    assert_eq!(trimmed("  git status \t"), "git status");
    assert_eq!(trimmed("git"), "git");
    assert_eq!(trimmed(" \n "), "");
    assert_eq!(trimmed(""), "");
    assert_eq!(trimmed("\u{a0}a b\u{2028}"), "a b");
}

#[test]
fn joined_words_have_one_separator_between() {
    assert_eq!(join_words(&strings(&["gs=git", "status"]), ' '), "gs=git status");
    assert_eq!(join_words(&strings(&["one"]), ' '), "one");
    assert_eq!(join_words(&strings(&[]), ' '), "");
    assert_eq!(join_words(&strings(&["", ""]), ','), ",");
}

#[test]
fn home_marker_is_expanded() {
    assert_eq!(expand_path("~", Some("/home/u")), "/home/u");
    assert_eq!(expand_path("~/src", Some("/home/u")), "/home/u/src");
    assert_eq!(expand_path("~~", Some("/home/u")), "/home/u~");
    assert_eq!(expand_path("~other/x", Some("/home/u")), "/home/uother/x");
}

#[test]
fn other_paths_stay() {
    assert_eq!(expand_path("/tmp", Some("/home/u")), "/tmp");
    assert_eq!(expand_path("a~b", Some("/home/u")), "a~b");
    assert_eq!(expand_path("", Some("/home/u")), "");
    assert_eq!(expand_path("$HOME/x", Some("/home/u")), "$HOME/x");
}

#[test]
fn unknown_home_expands_nothing() {
    assert_eq!(expand_path("~", None), "~");
    assert_eq!(expand_path("~/src", None), "~/src");
}

#[test]
fn configuration_file_is_in_the_home_directory() {
    assert_eq!(config_path(Some("/home/u")), "/home/u/.sh_cfg");
    assert_eq!(config_path(None), ".//.sh_cfg");
}
