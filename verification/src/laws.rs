//! What holds of the shell whatever is typed: laws of aliases, of `cd`
//! and of sourced scripts, each proved from the definitions that the
//! contracts of the functions use.

use crate::alias::{parse_alias, resolved, UsageError};
use crate::complete::{candidates_of, matching, offered, typed};
use crate::dispatch::{
    action_of, after_steps, is_builtin, table_after, table_after_all, ActionView,
};
use crate::split::{
    index_of, is_word, join, lemma_index_of, lemma_join_front, lemma_tokens_after_word,
    lemma_tokens_glued, lemma_trim_joined_tokens, lines, tokens,
};
use crate::text::{is_prefix, is_space};
use vstd::utf8::{
    decode_utf8_split, encode_utf8, encode_utf8_decode_utf8, encode_utf8_valid_utf8,
    is_char_boundary,
};
use vstd::prelude::*;

verus! {

/// The line that defines `name` as an alias of `command`:
/// `alias name=command`.
pub open spec fn alias_line(name: Seq<char>, command: Seq<char>) -> Seq<char> {
    "alias "@ + name + "="@ + command
}

/// `alias name=command` defines `name`, whatever `command` is, as an alias
/// of the words of `command` with one space between each two. `name` is a
/// word without `=`.
pub proof fn law_alias_line_defines(
    table: Map<Seq<char>, Seq<char>>,
    name: Seq<char>,
    command: Seq<char>,
    home: Option<Seq<char>>,
)
    requires
        is_word(name),
        !name.contains('='),
    ensures
        action_of(table, alias_line(name, command), home) == (ActionView::Defined {
            name,
            command: join(tokens(command), ' '),
        }),
        table_after(table, alias_line(name, command)) == table.insert(
            name,
            join(tokens(command), ' '),
        ),
{
    reveal_strlit("alias ");
    reveal_strlit("alias");
    reveal_strlit("=");
    lemma_builtins_differ();
    let line = alias_line(name, command);
    let head = name.push('=');
    let said = join(tokens(command), ' ');
    // the command word
    let after = seq![' '] + (head + command);
    assert("alias "@ =~= "alias"@ + seq![' ']);
    assert("="@ =~= seq!['=']);
    assert(line =~= "alias"@ + after);
    assert(is_word("alias"@));
    assert(is_space(after[0]));
    lemma_tokens_after_word("alias"@, after);
    assert(after.skip(1) =~= head + command);
    assert(tokens(after) == tokens(head + command));
    let ws = tokens(line);
    assert(ws[0] == "alias"@);
    assert(ws.skip(1) =~= tokens(head + command));
    // its arguments, joined
    assert(is_word(head)) by {
        assert forall|i: int| 0 <= i < head.len() implies !is_space(#[trigger] head[i]) by {
            if i < name.len() {
                assert(head[i] == name[i]);
            }
        }
    }
    let joined = join(tokens(head + command), ' ');
    if command.len() == 0 || is_space(command[0]) {
        lemma_tokens_after_word(head, command);
        if tokens(command).len() == 0 {
            assert(seq![head] + tokens(command) =~= seq![head]);
            assert(joined == head);
            assert(said =~= Seq::<char>::empty());
            assert(joined =~= head + seq![' '].skip(1) + said);
        } else {
            lemma_join_front(head, tokens(command), ' ');
            assert(joined =~= head + (seq![' '] + said));
        }
    } else {
        lemma_tokens_glued(head, command);
        let tv = tokens(command);
        if tv.len() == 1 {
            assert(seq![head + tv[0]] + tv.skip(1) =~= seq![head + tv[0]]);
            assert(said == tv[0]);
        } else {
            lemma_join_front(head + tv[0], tv.skip(1), ' ');
            lemma_join_front(tv[0], tv.skip(1), ' ');
            assert(seq![tv[0]] + tv.skip(1) =~= tv);
            assert((head + tv[0]).push(' ') + join(tv.skip(1), ' ') =~= head + (tv[0].push(' ')
                + join(tv.skip(1), ' ')));
        }
        assert(joined =~= head + said);
    }
    // the name before the first `=`, the command after it
    let n = name.len() as int;
    assert forall|i: int| 0 <= i < n implies joined[i] != '=' by {
        assert(joined[i] == name[i]);
        assert(name.contains(name[i]));
    }
    assert(joined[n] == '=');
    lemma_index_of(joined, '=', n);
    assert(joined.take(n) =~= name);
    lemma_trim_joined_tokens(command);
    if command.len() == 0 || is_space(command[0]) {
        if tokens(command).len() == 0 {
            assert(joined.skip(n + 1) =~= said);
        } else {
            assert(joined.skip(n + 1) =~= seq![' '] + said);
        }
    } else {
        assert(joined.skip(n + 1) =~= said);
    }
}

/// Defining an alias and then invoking it: after `alias name=command`, a
/// line whose command word is `name` runs the command, its words one space
/// apart, as the program, and hands it the arguments of the line as they
/// were typed. `name` is a word without `=` that is no builtin.
pub proof fn law_alias_round_trip(
    table: Map<Seq<char>, Seq<char>>,
    name: Seq<char>,
    command: Seq<char>,
    line: Seq<char>,
    home: Option<Seq<char>>,
)
    requires
        is_word(name),
        !name.contains('='),
        !is_builtin(name),
        tokens(line).len() > 0,
        tokens(line)[0] == name,
    ensures
        action_of(table_after(table, alias_line(name, command)), line, home) == (
        ActionView::Spawn { program: join(tokens(command), ' '), args: tokens(line).skip(1) }),
{
    law_alias_line_defines(table, name, command, home);
    law_alias_is_invoked(table, alias_line(name, command), line, home);
}

/// Once a line has defined an alias, a line whose command word is the
/// alias's name runs the alias's command, whole, as the program, and hands
/// it the arguments of the line as they were typed. The name must be one
/// that the dispatcher does not handle itself.
pub proof fn law_alias_is_invoked(
    table: Map<Seq<char>, Seq<char>>,
    definition: Seq<char>,
    line: Seq<char>,
    home: Option<Seq<char>>,
)
    requires
        action_of(table, definition, home) is Defined,
        tokens(line).len() > 0,
        tokens(line)[0] == action_of(table, definition, home)->Defined_name,
        !is_builtin(tokens(line)[0]),
    ensures
        action_of(table_after(table, definition), line, home) == (ActionView::Spawn {
            program: action_of(table, definition, home)->Defined_command,
            args: tokens(line).skip(1),
        }),
{
}

/// A command word that is neither a builtin nor an alias names the
/// program itself.
pub proof fn law_plain_command(
    table: Map<Seq<char>, Seq<char>>,
    line: Seq<char>,
    home: Option<Seq<char>>,
)
    requires
        tokens(line).len() > 0,
        !is_builtin(tokens(line)[0]),
        !table.contains_key(tokens(line)[0]),
    ensures
        action_of(table, line, home) == (ActionView::Spawn {
            program: tokens(line)[0],
            args: tokens(line).skip(1),
        }),
        table_after(table, line) == table,
{
}

/// Defining an alias a second time with the same text changes nothing:
/// the table is the same as after the first time, and so is what every
/// name resolves to.
pub proof fn law_define_twice(table: Map<Seq<char>, Seq<char>>, spec: Seq<char>, name: Seq<char>)
    requires
        parse_alias(spec) is Some,
    ensures
        ({
            let (k, v) = parse_alias(spec)->Some_0;
            &&& table.insert(k, v).insert(k, v) == table.insert(k, v)
            &&& resolved(table.insert(k, v).insert(k, v), name) == resolved(
                table.insert(k, v),
                name,
            )
            &&& resolved(table.insert(k, v), k) == v
        }),
{
    let (k, v) = parse_alias(spec)->Some_0;
    assert(table.insert(k, v).insert(k, v) =~= table.insert(k, v));
}

/// Dispatching the same line twice leaves the aliases as dispatching it
/// once does.
pub proof fn law_dispatch_twice(table: Map<Seq<char>, Seq<char>>, line: Seq<char>)
    ensures
        table_after(table_after(table, line), line) == table_after(table, line),
{
    let once = table_after(table, line);
    assert(table_after(once, line) =~= once);
}

/// `cd` without an argument asks for no change of the working directory:
/// the answer is the usage hint, and the aliases stay.
pub proof fn law_cd_without_argument(
    table: Map<Seq<char>, Seq<char>>,
    line: Seq<char>,
    home: Option<Seq<char>>,
)
    requires
        tokens(line) == seq!["cd"@],
    ensures
        action_of(table, line, home) == ActionView::Usage(UsageError::Cd),
        table_after(table, line) == table,
{
    lemma_builtins_differ();
}

/// The builtin command words are five different words.
pub proof fn lemma_builtins_differ()
    ensures
        "exit"@ != "alias"@,
        "exit"@ != "env"@,
        "exit"@ != "cd"@,
        "exit"@ != "source"@,
        "alias"@ != "env"@,
        "alias"@ != "cd"@,
        "alias"@ != "source"@,
        "env"@ != "cd"@,
        "env"@ != "source"@,
        "cd"@ != "source"@,
{
    reveal_strlit("exit");
    reveal_strlit("alias");
    reveal_strlit("env");
    reveal_strlit("cd");
    reveal_strlit("source");
    assert("exit"@.len() == 4);
    assert("alias"@.len() == 5);
    assert("env"@.len() == 3);
    assert("cd"@.len() == 2);
    assert("source"@.len() == 6);
}

/// A line without a word is answered by nothing and changes nothing.
pub proof fn law_blank_line(
    table: Map<Seq<char>, Seq<char>>,
    line: Seq<char>,
    home: Option<Seq<char>>,
)
    requires
        tokens(line).len() == 0,
    ensures
        action_of(table, line, home) == ActionView::Nothing,
        table_after(table, line) == table,
{
}

/// A sourced script runs line by line, in the order of the file and each
/// line once: after `i` of its lines have been dispatched, the aliases are
/// those that these `i` lines left, the next waiting line is line `i` of
/// the script, blank or not, and behind the rest of the script wait the
/// lines that waited before.
pub proof fn law_script_order(
    table: Map<Seq<char>, Seq<char>>,
    content: Seq<char>,
    waiting: Seq<Seq<char>>,
    i: nat,
)
    requires
        i <= lines(content).len(),
    ensures
        after_steps(table, lines(content) + waiting, i) == (
            table_after_all(table, lines(content).take(i as int)),
            lines(content).skip(i as int) + waiting,
        ),
        i < lines(content).len() ==> after_steps(table, lines(content) + waiting, i).1[0] == lines(
            content,
        )[i as int],
{
    lemma_steps(table, lines(content), waiting, i);
}

/// `law_script_order` for any list of lines put before the waiting ones.
pub proof fn lemma_steps(
    table: Map<Seq<char>, Seq<char>>,
    ls: Seq<Seq<char>>,
    waiting: Seq<Seq<char>>,
    i: nat,
)
    requires
        i <= ls.len(),
    ensures
        after_steps(table, ls + waiting, i) == (
            table_after_all(table, ls.take(i as int)),
            ls.skip(i as int) + waiting,
        ),
    decreases i,
{
    if i == 0 {
        assert(ls.skip(0) + waiting =~= ls + waiting);
        assert(ls.take(0) =~= Seq::<Seq<char>>::empty());
    } else {
        let next = table_after(table, ls[0]);
        lemma_steps(next, ls.skip(1), waiting, (i - 1) as nat);
        assert((ls + waiting).skip(1) =~= ls.skip(1) + waiting);
        assert(ls.take(i as int).skip(1) =~= ls.skip(1).take(i - 1));
        assert(ls.skip(1).skip(i - 1) =~= ls.skip(i as int));
        assert(ls.take(i as int)[0] == ls[0]);
    }
}

/// A script sourced from within a script runs at once and whole. When
/// line `i` of the script `outer` has sourced `inner`, the lines of `inner`
/// wait before the rest of `outer`: after `k` of them have been dispatched,
/// the aliases are those that these `k` lines left, and behind the rest of
/// `inner` wait the lines of `outer` after line `i`, then the lines that
/// waited before. Once all of `inner` has run, the next waiting line is
/// line `i + 1` of `outer`.
pub proof fn law_nested_script(
    table: Map<Seq<char>, Seq<char>>,
    outer: Seq<char>,
    inner: Seq<char>,
    waiting: Seq<Seq<char>>,
    i: int,
    k: nat,
)
    requires
        0 <= i < lines(outer).len(),
        k <= lines(inner).len(),
    ensures
        after_steps(table, lines(inner) + lines(outer).skip(i + 1) + waiting, k) == (
            table_after_all(table, lines(inner).take(k as int)),
            lines(inner).skip(k as int) + lines(outer).skip(i + 1) + waiting,
        ),
        after_steps(
            table,
            lines(inner) + lines(outer).skip(i + 1) + waiting,
            lines(inner).len(),
        ) == (table_after_all(table, lines(inner)), lines(outer).skip(i + 1) + waiting),
{
    let ins = lines(inner);
    let rest = lines(outer).skip(i + 1) + waiting;
    lemma_steps(table, ins, rest, k);
    lemma_steps(table, ins, rest, ins.len());
    assert(ins + lines(outer).skip(i + 1) + waiting =~= ins + rest);
    assert(ins.skip(k as int) + lines(outer).skip(i + 1) + waiting =~= ins.skip(k as int) + rest);
    assert(ins.take(ins.len() as int) =~= ins);
    assert(ins.skip(ins.len() as int) + rest =~= rest);
}

/// How often `x` occurs in `names`.
pub open spec fn occurrences(names: Seq<Seq<char>>, x: Seq<char>) -> nat
    decreases names.len(),
{
    if names.len() == 0 {
        0
    } else if names.last() == x {
        occurrences(names.drop_last(), x) + 1
    } else {
        occurrences(names.drop_last(), x)
    }
}

/// A name occurs in one list after another as often as in both together.
pub proof fn lemma_occurrences_add(a: Seq<Seq<char>>, b: Seq<Seq<char>>, x: Seq<char>)
    ensures
        occurrences(a + b, x) == occurrences(a, x) + occurrences(b, x),
    decreases b.len(),
{
    if b.len() == 0 {
        assert(a + b =~= a);
    } else {
        lemma_occurrences_add(a, b.drop_last(), x);
        assert((a + b).drop_last() =~= a + b.drop_last());
        assert((a + b).last() == b.last());
    }
}

/// Among the names that start with a prefix, a name that starts with it
/// occurs as often as among all of them, and no other name occurs.
pub proof fn lemma_matching_occurrences(names: Seq<Seq<char>>, prefix: Seq<char>, x: Seq<char>)
    ensures
        occurrences(matching(names, prefix), x) == if is_prefix(prefix, x) {
            occurrences(names, x)
        } else {
            0
        },
    decreases names.len(),
{
    if names.len() > 0 {
        lemma_matching_occurrences(names.drop_last(), prefix, x);
        if is_prefix(prefix, names.last()) {
            let kept = matching(names.drop_last(), prefix);
            assert(kept.push(names.last()).drop_last() =~= kept);
        }
    }
}

/// The completer offers a name as often as it found it: once for each time
/// it occurs among the command names that are always offered, the entries
/// of the search path and the entries of the working directory, if the
/// name starts, letter for letter, with the prefix; and not at all if it
/// does not.
pub proof fn law_candidates_are_the_matches(
    prefix: Seq<char>,
    path_entries: Seq<Seq<char>>,
    dir_entries: Seq<Seq<char>>,
    x: Seq<char>,
)
    ensures
        occurrences(candidates_of(prefix, path_entries, dir_entries), x) == if is_prefix(
            prefix,
            x,
        ) {
            occurrences(offered(), x) + occurrences(path_entries, x) + occurrences(dir_entries, x)
        } else {
            0
        },
{
    let a = matching(offered(), prefix);
    let b = matching(path_entries, prefix);
    let c = matching(dir_entries, prefix);
    lemma_occurrences_add(a + b, c, x);
    lemma_occurrences_add(a, b, x);
    lemma_matching_occurrences(offered(), prefix, x);
    lemma_matching_occurrences(path_entries, prefix, x);
    lemma_matching_occurrences(dir_entries, prefix, x);
}

/// What has been typed before the cursor is the start of the line.
pub proof fn law_typed_starts_the_line(line: Seq<char>, pos: int)
    requires
        is_char_boundary(encode_utf8(line), pos),
    ensures
        is_prefix(typed(line, pos), line),
        encode_utf8(typed(line, pos)) == encode_utf8(line).subrange(0, pos),
{
    let bytes = encode_utf8(line);
    encode_utf8_valid_utf8(line);
    encode_utf8_decode_utf8(line);
    decode_utf8_split(bytes, pos);
    let rest = vstd::utf8::decode_utf8(bytes.subrange(pos, bytes.len() as int));
    assert(line =~= typed(line, pos) + rest);
    assert(line.take(typed(line, pos).len() as int) =~= typed(line, pos));
    vstd::utf8::valid_utf8_split(bytes, pos);
    vstd::utf8::decode_utf8_encode_utf8(bytes.subrange(0, pos));
}

} // verus!
