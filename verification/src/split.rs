//! Cutting text into words, fields and lines, and putting words together.

use crate::text::{chars_of, is_space, separates, text_between};
use vstd::prelude::*;

verus! {

/// The number of characters of `s` before its first whitespace character,
/// or the length of `s` if it holds none.
pub open spec fn word_len(s: Seq<char>) -> nat
    decreases s.len(),
{
    if s.len() == 0 || is_space(s[0]) {
        0
    } else {
        1 + word_len(s.skip(1))
    }
}

/// The number of characters of `s` before the first `c`, or the length of
/// `s` if `c` does not occur in it.
pub open spec fn index_of(s: Seq<char>, c: char) -> nat
    decreases s.len(),
{
    if s.len() == 0 || s[0] == c {
        0
    } else {
        1 + index_of(s.skip(1), c)
    }
}

/// `word_len(s)` is the one position that no whitespace precedes and at
/// which `s` ends or holds whitespace.
pub proof fn lemma_word_len(s: Seq<char>, n: int)
    requires
        0 <= n <= s.len(),
        forall|i: int| 0 <= i < n ==> !is_space(s[i]),
        n == s.len() || is_space(s[n]),
    ensures
        word_len(s) == n,
    decreases n,
{
    if n > 0 {
        lemma_word_len(s.skip(1), n - 1);
    }
}

/// What `word_len` returns: a position within `s` that no whitespace
/// precedes and at which `s` ends or holds whitespace.
pub proof fn lemma_word_len_bounds(s: Seq<char>)
    ensures
        word_len(s) <= s.len(),
        forall|i: int| 0 <= i < word_len(s) ==> !is_space(s[i]),
        word_len(s) == s.len() || is_space(s[word_len(s) as int]),
    decreases s.len(),
{
    if s.len() != 0 && !is_space(s[0]) {
        let t = s.skip(1);
        lemma_word_len_bounds(t);
        assert forall|i: int| 0 <= i < word_len(s) implies !is_space(s[i]) by {
            if i > 0 {
                assert(s[i] == t[i - 1]);
            }
        }
        if word_len(s) != s.len() {
            assert(s[word_len(s) as int] == t[word_len(t) as int]);
        }
    }
}

/// `index_of(s, c)` is the one position that no `c` precedes and at which
/// `s` ends or holds `c`.
pub proof fn lemma_index_of(s: Seq<char>, c: char, n: int)
    requires
        0 <= n <= s.len(),
        forall|i: int| 0 <= i < n ==> s[i] != c,
        n == s.len() || s[n] == c,
    ensures
        index_of(s, c) == n,
    decreases n,
{
    if n > 0 {
        lemma_index_of(s.skip(1), c, n - 1);
    }
}

/// The words of `s`: its longest runs of characters that are not
/// whitespace, in order. None of them is empty.
pub open spec fn tokens(s: Seq<char>) -> Seq<Seq<char>>
    decreases s.len(),
{
    if s.len() == 0 {
        Seq::empty()
    } else if is_space(s[0]) {
        tokens(s.skip(1))
    } else {
        proof {
            lemma_word_len_bounds(s);
        }
        let n = word_len(s) as int;
        seq![s.take(n)] + tokens(s.skip(n))
    }
}

/// The fields of `s` between occurrences of `sep`. There is one more field
/// than `sep` occurs, and a field may be empty.
pub open spec fn fields(s: Seq<char>, sep: char) -> Seq<Seq<char>>
    decreases s.len(),
{
    let n = index_of(s, sep) as int;
    if n >= s.len() {
        seq![s]
    } else {
        seq![s.take(n)] + fields(s.skip(n + 1), sep)
    }
}

/// `l` without one carriage return at its end.
pub open spec fn without_cr(l: Seq<char>) -> Seq<char> {
    if l.len() > 0 && l.last() == '\r' {
        l.drop_last()
    } else {
        l
    }
}

/// The lines of `s`. A line ends at a line feed, or at a carriage return
/// directly followed by one; neither belongs to the line. What follows the
/// last line feed is a line unless it is empty.
pub open spec fn lines(s: Seq<char>) -> Seq<Seq<char>>
    decreases s.len(),
{
    let n = index_of(s, '\n') as int;
    if s.len() == 0 {
        Seq::empty()
    } else if n >= s.len() {
        seq![s]
    } else {
        seq![without_cr(s.take(n))] + lines(s.skip(n + 1))
    }
}

/// `s` without the whitespace at its start.
pub open spec fn trim_start(s: Seq<char>) -> Seq<char>
    decreases s.len(),
{
    if s.len() > 0 && is_space(s[0]) {
        trim_start(s.skip(1))
    } else {
        s
    }
}

/// `s` without the whitespace at its end.
pub open spec fn trim_end(s: Seq<char>) -> Seq<char>
    decreases s.len(),
{
    if s.len() > 0 && is_space(s.last()) {
        trim_end(s.drop_last())
    } else {
        s
    }
}

/// `s` without the whitespace at its start and at its end.
pub open spec fn trim(s: Seq<char>) -> Seq<char> {
    trim_end(trim_start(s))
}

/// The words `ws` with one `sep` between each two neighbours.
pub open spec fn join(ws: Seq<Seq<char>>, sep: char) -> Seq<char>
    decreases ws.len(),
{
    if ws.len() == 0 {
        Seq::empty()
    } else if ws.len() == 1 {
        ws[0]
    } else {
        join(ws.drop_last(), sep).push(sep) + ws.last()
    }
}

/// The end of the word that starts at `from`: the first position from there
/// on at which `v` ends or holds whitespace.
pub fn word_end(v: &Vec<char>, from: usize) -> (to: usize)
    requires
        from <= v.len(),
    ensures
        from <= to <= v.len(),
        to == from + word_len(v@.skip(from as int)),
{
    let mut to: usize = from;
    while to < v.len() && !separates(v[to])
        invariant
            from <= to <= v.len(),
            forall|k: int| from <= k < to ==> !is_space(v@[k]),
        decreases v.len() - to,
    {
        to += 1;
    }
    proof {
        lemma_word_len(v@.skip(from as int), to - from);
    }
    to
}

/// The first position from `from` on at which `v` ends or holds `c`.
pub fn find_char(v: &Vec<char>, from: usize, c: char) -> (to: usize)
    requires
        from <= v.len(),
    ensures
        from <= to <= v.len(),
        to == from + index_of(v@.skip(from as int), c),
{
    let mut to: usize = from;
    while to < v.len() && v[to] != c
        invariant
            from <= to <= v.len(),
            forall|k: int| from <= k < to ==> v@[k] != c,
        decreases v.len() - to,
    {
        to += 1;
    }
    proof {
        lemma_index_of(v@.skip(from as int), c, to - from);
    }
    to
}

/// The words of `v`, each as a string.
pub fn split_words(v: &Vec<char>) -> (out: Vec<String>)
    ensures
        out.deep_view() == tokens(v@),
{
    let mut out: Vec<String> = Vec::new();
    let mut i: usize = 0;
    assert(v@.skip(0) =~= v@);
    assert(out.deep_view() + tokens(v@) =~= tokens(v@));
    while i < v.len()
        invariant
            i <= v.len(),
            out.deep_view() + tokens(v@.skip(i as int)) == tokens(v@),
        decreases v.len() - i,
    {
        let ghost rest = v@.skip(i as int);
        if separates(v[i]) {
            assert(rest.skip(1) =~= v@.skip(i + 1));
            i += 1;
        } else {
            let j = word_end(v, i);
            let word = text_between(v, i, j);
            let ghost before = out.deep_view();
            out.push(word);
            proof {
                assert(rest.take(j - i) =~= v@.subrange(i as int, j as int));
                assert(rest.skip(j - i) =~= v@.skip(j as int));
                assert(out.deep_view() =~= before.push(word@));
                assert(before.push(word@) + tokens(v@.skip(j as int)) =~= before + (seq![word@]
                    + tokens(v@.skip(j as int))));
            }
            i = j;
        }
    }
    assert(out.deep_view() + tokens(v@.skip(i as int)) =~= out.deep_view());
    out
}

/// The fields of `v` between occurrences of `sep`, each as a string.
pub fn split_fields(v: &Vec<char>, sep: char) -> (out: Vec<String>)
    ensures
        out.deep_view() == fields(v@, sep),
{
    let mut out: Vec<String> = Vec::new();
    let mut i: usize = 0;
    assert(v@.skip(0) =~= v@);
    assert(out.deep_view() + fields(v@, sep) =~= fields(v@, sep));
    loop
        invariant_except_break
            i <= v.len(),
            out.deep_view() + fields(v@.skip(i as int), sep) == fields(v@, sep),
        ensures
            out.deep_view() == fields(v@, sep),
        decreases v.len() - i,
    {
        let ghost rest = v@.skip(i as int);
        let ghost before = out.deep_view();
        let j = find_char(v, i, sep);
        let field = text_between(v, i, j);
        out.push(field);
        assert(out.deep_view() =~= before.push(field@));
        if j >= v.len() {
            proof {
                assert(rest =~= v@.subrange(i as int, j as int));
                assert(before.push(field@) =~= before + seq![rest]);
            }
            break ;
        }
        proof {
            assert(rest.take(j - i) =~= v@.subrange(i as int, j as int));
            assert(rest.skip(j - i + 1) =~= v@.skip(j + 1));
            assert(before.push(field@) + fields(v@.skip(j + 1), sep) =~= before + (seq![field@]
                + fields(v@.skip(j + 1), sep)));
        }
        i = j + 1;
    }
    out
}

/// The lines of `v`, each as a string.
pub fn split_lines(v: &Vec<char>) -> (out: Vec<String>)
    ensures
        out.deep_view() == lines(v@),
{
    let mut out: Vec<String> = Vec::new();
    let mut i: usize = 0;
    assert(v@.skip(0) =~= v@);
    assert(out.deep_view() + lines(v@) =~= lines(v@));
    while i < v.len()
        invariant
            i <= v.len(),
            out.deep_view() + lines(v@.skip(i as int)) == lines(v@),
        decreases v.len() - i,
    {
        let ghost rest = v@.skip(i as int);
        let ghost before = out.deep_view();
        let j = find_char(v, i, '\n');
        if j >= v.len() {
            let line = text_between(v, i, j);
            out.push(line);
            proof {
                assert(rest =~= v@.subrange(i as int, j as int));
                assert(out.deep_view() =~= before + seq![rest]);
                assert(lines(v@.skip(j as int)) =~= Seq::<Seq<char>>::empty());
                assert(out.deep_view() + lines(v@.skip(j as int)) =~= out.deep_view());
            }
            i = j;
        } else {
            let end = if j > i && v[j - 1] == '\r' {
                j - 1
            } else {
                j
            };
            let line = text_between(v, i, end);
            out.push(line);
            proof {
                assert(rest.take(j - i) =~= v@.subrange(i as int, j as int));
                assert(line@ =~= without_cr(rest.take(j - i)));
                assert(rest.skip(j - i + 1) =~= v@.skip(j + 1));
                assert(out.deep_view() =~= before.push(line@));
                assert(before.push(line@) + lines(v@.skip(j + 1)) =~= before + (seq![line@]
                    + lines(v@.skip(j + 1))));
            }
            i = j + 1;
        }
    }
    assert(out.deep_view() + lines(v@.skip(i as int)) =~= out.deep_view());
    out
}

/// `trim_start(s)` is what is left of `s` from position `n` on, where `n`
/// is the first position that holds no whitespace.
pub proof fn lemma_trim_start(s: Seq<char>, n: int)
    requires
        0 <= n <= s.len(),
        forall|i: int| 0 <= i < n ==> is_space(s[i]),
        n == s.len() || !is_space(s[n]),
    ensures
        trim_start(s) == s.skip(n),
    decreases n,
{
    if n > 0 {
        lemma_trim_start(s.skip(1), n - 1);
        assert(s.skip(1).skip(n - 1) =~= s.skip(n));
    } else {
        assert(s.skip(0) =~= s);
    }
}

/// `trim_end(s)` is the first `n` characters of `s`, where `n` follows the
/// last position that holds no whitespace.
pub proof fn lemma_trim_end(s: Seq<char>, n: int)
    requires
        0 <= n <= s.len(),
        forall|i: int| n <= i < s.len() ==> is_space(s[i]),
        n == 0 || !is_space(s[n - 1]),
    ensures
        trim_end(s) == s.take(n),
    decreases s.len() - n,
{
    if n < s.len() {
        lemma_trim_end(s.drop_last(), n);
        assert(s.drop_last().take(n) =~= s.take(n));
    } else {
        assert(s.take(n) =~= s);
    }
}

/// The bounds of `v` without the whitespace at its start and at its end.
pub fn trim_bounds(v: &Vec<char>) -> (r: (usize, usize))
    ensures
        r.0 <= r.1 <= v.len(),
        v@.subrange(r.0 as int, r.1 as int) == trim(v@),
{
    let mut a: usize = 0;
    while a < v.len() && separates(v[a])
        invariant
            a <= v.len(),
            forall|k: int| 0 <= k < a ==> is_space(v@[k]),
        decreases v.len() - a,
    {
        a += 1;
    }
    let mut b: usize = v.len();
    while b > a && separates(v[b - 1])
        invariant
            a <= b <= v.len(),
            forall|k: int| b <= k < v.len() ==> is_space(v@[k]),
        decreases b,
    {
        b -= 1;
    }
    proof {
        lemma_trim_start(v@, a as int);
        lemma_trim_end(v@.skip(a as int), b - a);
        assert(v@.skip(a as int).take(b - a) =~= v@.subrange(a as int, b as int));
    }
    (a, b)
}

/// The words `ws` with one `sep` between each two neighbours, as a string.
pub fn join_words(ws: &Vec<String>, sep: char) -> (out: String)
    ensures
        out@ == join(ws.deep_view(), sep),
{
    let mut out = String::new();
    let mut i: usize = 0;
    assert(ws.deep_view().take(0) =~= Seq::<Seq<char>>::empty());
    while i < ws.len()
        invariant
            i <= ws.len(),
            out@ == join(ws.deep_view().take(i as int), sep),
        decreases ws.len() - i,
    {
        let ghost before = ws.deep_view().take(i as int);
        let ghost now = ws.deep_view().take(i + 1);
        if i > 0 {
            out.push(sep);
        }
        out.append(ws[i].as_str());
        proof {
            assert(now.drop_last() =~= before);
            assert(now.last() == ws[i as int]@);
            if i == 0 {
                assert(out@ =~= ws[i as int]@);
            }
        }
        i += 1;
    }
    assert(ws.deep_view().take(ws.len() as int) =~= ws.deep_view());
    out
}

/// The words of `s`.
pub fn words(s: &str) -> (out: Vec<String>)
    ensures
        out.deep_view() == tokens(s@),
{
    let v = chars_of(s);
    split_words(&v)
}

/// The lines of `s`.
pub fn lines_of(s: &str) -> (out: Vec<String>)
    ensures
        out.deep_view() == lines(s@),
{
    let v = chars_of(s);
    split_lines(&v)
}

/// The fields of `s` between occurrences of `sep`.
pub fn split(s: &str, sep: char) -> (out: Vec<String>)
    ensures
        out.deep_view() == fields(s@, sep),
{
    let v = chars_of(s);
    split_fields(&v, sep)
}

/// `s` without the whitespace at its start and at its end.
pub fn trimmed(s: &str) -> (out: String)
    ensures
        out@ == trim(s@),
{
    let v = chars_of(s);
    let (a, b) = trim_bounds(&v);
    text_between(&v, a, b)
}

/// Whether `w` is a word: not empty and without whitespace.
pub open spec fn is_word(w: Seq<char>) -> bool {
    w.len() > 0 && forall|i: int| 0 <= i < w.len() ==> !is_space(#[trigger] w[i])
}

/// Every one of the words of a text is a word.
pub proof fn lemma_tokens_are_words(s: Seq<char>)
    ensures
        forall|k: int| 0 <= k < tokens(s).len() ==> is_word(#[trigger] tokens(s)[k]),
    decreases s.len(),
{
    if s.len() == 0 {
        assert(tokens(s).len() == 0);
    } else if is_space(s[0]) {
        lemma_tokens_are_words(s.skip(1));
        assert(tokens(s) == tokens(s.skip(1)));
    } else {
        lemma_word_len_bounds(s);
        let n = word_len(s) as int;
        lemma_tokens_are_words(s.skip(n));
        assert(tokens(s) == seq![s.take(n)] + tokens(s.skip(n)));
        assert forall|k: int| 0 <= k < tokens(s).len() implies is_word(#[trigger] tokens(s)[k]) by {
            if k > 0 {
                assert(tokens(s)[k] == tokens(s.skip(n))[k - 1]);
            } else {
                let w = s.take(n);
                assert(tokens(s)[0] == w);
                assert(n > 0);
                assert forall|i: int| 0 <= i < w.len() implies !is_space(#[trigger] w[i]) by {
                    assert(w[i] == s[i]);
                }
            }
        }
    }
}

/// A word before a text that is empty or starts with whitespace is the
/// first word of the two together; the other words are those of the text.
pub proof fn lemma_tokens_after_word(w: Seq<char>, s: Seq<char>)
    requires
        is_word(w),
        s.len() == 0 || is_space(s[0]),
    ensures
        tokens(w + s) == seq![w] + tokens(s),
{
    let t = w + s;
    let n = w.len() as int;
    assert forall|i: int| 0 <= i < n implies !is_space(t[i]) by {
        assert(t[i] == w[i]);
    }
    lemma_word_len(t, n);
    assert(t.take(n) =~= w);
    assert(t.skip(n) =~= s);
    assert(t[0] == w[0]);
}

/// A word before a text that starts with a word grows that word; the
/// other words are those of the text.
pub proof fn lemma_tokens_glued(w: Seq<char>, s: Seq<char>)
    requires
        is_word(w),
        s.len() > 0,
        !is_space(s[0]),
    ensures
        tokens(s).len() > 0,
        tokens(w + s) == seq![w + tokens(s)[0]] + tokens(s).skip(1),
{
    let t = w + s;
    let m = w.len() as int;
    let n = word_len(s) as int;
    lemma_word_len_bounds(s);
    assert forall|i: int| 0 <= i < m + n implies !is_space(t[i]) by {
        if i < m {
            assert(t[i] == w[i]);
        } else {
            assert(t[i] == s[i - m]);
        }
    }
    if m + n < t.len() {
        assert(t[m + n] == s[n]);
    }
    lemma_word_len(t, m + n);
    assert(t.take(m + n) =~= w + s.take(n));
    assert(t.skip(m + n) =~= s.skip(n));
    assert(t[0] == w[0]);
    assert(tokens(s).skip(1) =~= tokens(s.skip(n)));
}

/// Joining a first word and at least one more: the first word, the
/// separator, and the others joined.
pub proof fn lemma_join_front(a: Seq<char>, rest: Seq<Seq<char>>, sep: char)
    requires
        rest.len() > 0,
    ensures
        join(seq![a] + rest, sep) == a.push(sep) + join(rest, sep),
    decreases rest.len(),
{
    let ws = seq![a] + rest;
    assert(ws.drop_last() =~= seq![a] + rest.drop_last());
    assert(ws.last() == rest.last());
    if rest.len() == 1 {
        assert(ws.drop_last() =~= seq![a]);
        assert(join(ws.drop_last(), sep) == a);
    } else {
        lemma_join_front(a, rest.drop_last(), sep);
        assert((a.push(sep) + join(rest.drop_last(), sep)).push(sep) + rest.last() =~= a.push(sep)
            + (join(rest.drop_last(), sep).push(sep) + rest.last()));
    }
}

/// Words that are joined start with the first character of the first word
/// and end with the last character of the last.
pub proof fn lemma_join_edges(ws: Seq<Seq<char>>, sep: char)
    requires
        ws.len() > 0,
        forall|k: int| 0 <= k < ws.len() ==> (#[trigger] ws[k]).len() > 0,
    ensures
        join(ws, sep).len() > 0,
        join(ws, sep)[0] == ws[0][0],
        join(ws, sep).last() == ws.last().last(),
    decreases ws.len(),
{
    if ws.len() > 1 {
        let init = ws.drop_last();
        assert forall|k: int| 0 <= k < init.len() implies (#[trigger] init[k]).len() > 0 by {
            assert(init[k] == ws[k]);
        }
        lemma_join_edges(init, sep);
        assert(init[0] == ws[0]);
    }
}

/// The words of a text, joined by spaces, have no whitespace at either
/// end, so that trimming leaves them as they are.
pub proof fn lemma_trim_joined_tokens(s: Seq<char>)
    ensures
        trim(join(tokens(s), ' ')) == join(tokens(s), ' '),
        trim(seq![' '] + join(tokens(s), ' ')) == join(tokens(s), ' '),
{
    let ws = tokens(s);
    let j = join(ws, ' ');
    lemma_tokens_are_words(s);
    if ws.len() > 0 {
        assert forall|k: int| 0 <= k < ws.len() implies (#[trigger] ws[k]).len() > 0 by {
            assert(is_word(ws[k]));
        }
        lemma_join_edges(ws, ' ');
        assert(is_word(ws[0]));
        assert(is_word(ws.last()));
    }
    assert(trim_start(j) == j);
    assert(trim_end(j) == j);
    assert((seq![' '] + j).skip(1) =~= j);
    assert(is_space(' '));
    assert(trim_start(seq![' '] + j) == j);
}

} // verus!
