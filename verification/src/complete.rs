//! The completer: the names that the line typed so far may be the start
//! of.

use crate::split::{fields, split};
use crate::text::{chars_of, is_prefix, starts_with};
use vstd::prelude::*;
use vstd::string::StringSliceAdditionalSpecFns;
use vstd::utf8::{decode_utf8, encode_utf8, encode_utf8_decode_utf8, is_char_boundary};

verus! {

/// One candidate: the text shown to the user and the text that replaces
/// the line when the user picks it.
#[derive(Debug, Clone, PartialEq, Eq)]
pub struct Pair {
    pub display: String,
    pub replacement: String,
}

/// The completer of a session.
pub struct Comp;

/// The command names that are always offered, in the order in which they
/// are offered.
pub open spec fn offered() -> Seq<Seq<char>> {
    seq!["ls"@, "cd"@, "exit"@, "alias"@, "env"@, "cat"@, "source"@]
}

/// Those of `names` that start with `prefix`, in their order. A name that
/// occurs twice in `names` occurs twice here.
pub open spec fn matching(names: Seq<Seq<char>>, prefix: Seq<char>) -> Seq<Seq<char>>
    decreases names.len(),
{
    if names.len() == 0 {
        Seq::empty()
    } else if is_prefix(prefix, names.last()) {
        matching(names.drop_last(), prefix).push(names.last())
    } else {
        matching(names.drop_last(), prefix)
    }
}

/// The candidates for `prefix`: the command names that are always offered,
/// then the entries of the directories of the search path, then the
/// entries of the working directory, each list in its order and cut down
/// to the names that start with `prefix`. Nothing is sorted and nothing is
/// left out for being there already.
pub open spec fn candidates_of(
    prefix: Seq<char>,
    path_entries: Seq<Seq<char>>,
    dir_entries: Seq<Seq<char>>,
) -> Seq<Seq<char>> {
    matching(offered(), prefix) + matching(path_entries, prefix) + matching(dir_entries, prefix)
}

/// What has been typed before the cursor, which stands `pos` bytes into
/// `line`.
pub open spec fn typed(line: Seq<char>, pos: int) -> Seq<char> {
    decode_utf8(encode_utf8(line).subrange(0, pos))
}

/// The texts that a list of candidates shows.
pub open spec fn shown(list: Seq<Pair>) -> Seq<Seq<char>> {
    Seq::new(list.len(), |i: int| list[i].display@)
}

/// Whether each candidate of `list` replaces the line by the text that it
/// shows.
pub open spec fn plain(list: Seq<Pair>) -> bool {
    forall|i: int| 0 <= i < list.len() ==> (#[trigger] list[i]).replacement@ == list[i].display@
}

/// Adds to `out` those of `names` that start with `prefix`.
fn add_matching(out: &mut Vec<Pair>, names: &Vec<String>, prefix: &Vec<char>)
    requires
        plain(old(out)@),
    ensures
        shown(final(out)@) == shown(old(out)@) + matching(names.deep_view(), prefix@),
        plain(final(out)@),
{
    let ghost base = shown(out@);
    let mut i: usize = 0;
    assert(names.deep_view().take(0) =~= Seq::<Seq<char>>::empty());
    assert(base + Seq::<Seq<char>>::empty() =~= base);
    while i < names.len()
        invariant
            i <= names.len(),
            plain(out@),
            shown(out@) == base + matching(names.deep_view().take(i as int), prefix@),
        decreases names.len() - i,
    {
        let ghost before = names.deep_view().take(i as int);
        let ghost now = names.deep_view().take(i + 1);
        let ghost list = shown(out@);
        assert(now.drop_last() =~= before);
        assert(now.last() == names[i as int]@);
        let name = chars_of(names[i].as_str());
        if starts_with(&name, prefix) {
            out.push(Pair { display: names[i].clone(), replacement: names[i].clone() });
            assert(shown(out@) =~= list.push(names[i as int]@));
            assert(list.push(names[i as int]@) =~= base + matching(before, prefix@).push(
                names[i as int]@,
            ));
        }
        i += 1;
    }
    assert(names.deep_view().take(names.len() as int) =~= names.deep_view());
}

/// The command names that are always offered.
pub fn offered_names() -> (out: Vec<String>)
    ensures
        out.deep_view() == offered(),
{
    let mut out: Vec<String> = Vec::new();
    out.push(String::from_str("ls"));
    out.push(String::from_str("cd"));
    out.push(String::from_str("exit"));
    out.push(String::from_str("alias"));
    out.push(String::from_str("env"));
    out.push(String::from_str("cat"));
    out.push(String::from_str("source"));
    assert(out.deep_view() =~= offered());
    out
}

/// The directories of a search path: its fields between colons, in order.
pub fn search_dirs(search_path: &str) -> (out: Vec<String>)
    ensures
        out.deep_view() == fields(search_path@, ':'),
{
    split(search_path, ':')
}

impl Comp {
    /// The candidates for `prefix`, each replacing the line by the text
    /// that it shows. `path_entries` holds the names found in the
    /// directories of the search path, in the order of the directories;
    /// `dir_entries` those found in the working directory.
    pub fn candidates(
        &self,
        prefix: &str,
        path_entries: &Vec<String>,
        dir_entries: &Vec<String>,
    ) -> (out: Vec<Pair>)
        ensures
            shown(out@) == candidates_of(prefix@, path_entries.deep_view(), dir_entries.deep_view()),
            plain(out@),
    {
        let p = chars_of(prefix);
        let names = offered_names();
        let mut out: Vec<Pair> = Vec::new();
        assert(shown(out@) =~= Seq::<Seq<char>>::empty());
        add_matching(&mut out, &names, &p);
        assert(shown(out@) =~= matching(offered(), p@));
        add_matching(&mut out, path_entries, &p);
        add_matching(&mut out, dir_entries, &p);
        out
    }

    /// Completes `line` at the cursor, which stands `pos` bytes into it,
    /// between two characters or at either end. The whole of the line
    /// before the cursor is the prefix that a candidate starts with, and a
    /// candidate replaces the line from its start, position 0.
    pub fn complete(
        &self,
        line: &str,
        pos: usize,
        path_entries: &Vec<String>,
        dir_entries: &Vec<String>,
    ) -> (r: (usize, Vec<Pair>))
        requires
            is_char_boundary(encode_utf8(line@), pos as int),
        ensures
            r.0 == 0,
            shown(r.1@) == candidates_of(
                typed(line@, pos as int),
                path_entries.deep_view(),
                dir_entries.deep_view(),
            ),
            plain(r.1@),
    {
        let (prefix, _) = line.split_at(pos);
        proof {
            encode_utf8_decode_utf8(prefix@);
            assert(encode_utf8(prefix@) =~= encode_utf8(line@).subrange(0, pos as int));
        }
        (0, self.candidates(prefix, path_entries, dir_entries))
    }

    /// Completes `line` at the cursor if the cursor stands between two
    /// characters or at either end of the line; there is nothing to
    /// complete where it stands inside a character or beyond the line.
    pub fn complete_at(
        &self,
        line: &str,
        pos: usize,
        path_entries: &Vec<String>,
        dir_entries: &Vec<String>,
    ) -> (r: Option<(usize, Vec<Pair>)>)
        ensures
            r is Some <==> is_char_boundary(encode_utf8(line@), pos as int),
            r is Some ==> {
                &&& r->Some_0.0 == 0
                &&& shown(r->Some_0.1@) == candidates_of(
                    typed(line@, pos as int),
                    path_entries.deep_view(),
                    dir_entries.deep_view(),
                )
                &&& plain(r->Some_0.1@)
            },
    {
        if line.is_char_boundary(pos) {
            Some(self.complete(line, pos, path_entries, dir_entries))
        } else {
            None
        }
    }
}

} // verus!
