//! The alias table: from the name a command is invoked by to the command
//! text that replaces it.

use crate::split::{find_char, index_of, trim, trim_bounds};
use crate::text::{chars_of, reads, text_between};
use vstd::prelude::*;

verus! {

/// Why a builtin could not do its work: an argument that it needs is
/// missing.
#[derive(Debug, Clone, Copy, PartialEq, Eq, Structural)]
pub enum UsageError {
    /// `alias` without `name=command`.
    Alias,
    /// `cd` without a directory.
    Cd,
    /// `source` without a file.
    Source,
}

impl UsageError {
    /// The one line that tells the user how the builtin is called.
    pub open spec fn hint_text(self) -> Seq<char> {
        match self {
            UsageError::Alias => "Uso: alias nome=comando"@,
            UsageError::Cd => "Uso: cd <diretório>"@,
            UsageError::Source => "Uso: source <arquivo>"@,
        }
    }

    /// The one line that tells the user how the builtin is called.
    pub fn hint(&self) -> (out: String)
        ensures
            out@ == self.hint_text(),
    {
        match self {
            UsageError::Alias => String::from_str("Uso: alias nome=comando"),
            UsageError::Cd => String::from_str("Uso: cd <diretório>"),
            UsageError::Source => String::from_str("Uso: source <arquivo>"),
        }
    }
}

/// One alias: `name`, when it is the command word of a line, stands for
/// `command`.
#[derive(Debug, Clone, PartialEq, Eq)]
pub struct Alias {
    pub name: String,
    pub command: String,
}

/// What an alias definition says: the name before the first `=` and the
/// command after it, the command without the whitespace around it. A
/// definition without `=` says nothing.
pub open spec fn parse_alias(spec: Seq<char>) -> Option<(Seq<char>, Seq<char>)> {
    let n = index_of(spec, '=') as int;
    if n >= spec.len() {
        None
    } else {
        Some((spec.take(n), trim(spec.skip(n + 1))))
    }
}

/// The command that `name` stands for in `table`: its alias, or `name`
/// itself where it has none.
pub open spec fn resolved(table: Map<Seq<char>, Seq<char>>, name: Seq<char>) -> Seq<char> {
    if table.contains_key(name) {
        table[name]
    } else {
        name
    }
}

/// The table that a list of aliases makes, a later one replacing an
/// earlier one of the same name.
pub open spec fn table_of(list: Seq<Alias>) -> Map<Seq<char>, Seq<char>>
    decreases list.len(),
{
    if list.len() == 0 {
        Map::empty()
    } else {
        table_of(list.drop_last()).insert(list.last().name@, list.last().command@)
    }
}

/// The aliases of a session. No name occurs twice.
pub struct AliasTable {
    entries: Vec<Alias>,
}

impl View for AliasTable {
    type V = Map<Seq<char>, Seq<char>>;

    closed spec fn view(&self) -> Map<Seq<char>, Seq<char>> {
        Map::new(
            |k: Seq<char>| self.holds(k),
            |k: Seq<char>| self.entries@[self.place(k)].command@,
        )
    }
}

impl AliasTable {
    #[verifier::type_invariant]
    spec fn distinct(self) -> bool {
        forall|i: int, j: int|
            0 <= i < j < self.entries@.len() ==> self.entries@[i].name@ != self.entries@[j].name@
    }

    spec fn at(self, k: Seq<char>, i: int) -> bool {
        0 <= i < self.entries@.len() && self.entries@[i].name@ == k
    }

    spec fn holds(self, k: Seq<char>) -> bool {
        exists|i: int| self.at(k, i)
    }

    spec fn place(self, k: Seq<char>) -> int {
        choose|i: int| self.at(k, i)
    }

    /// A table without aliases.
    pub fn new() -> (t: AliasTable)
        ensures
            t@ == Map::<Seq<char>, Seq<char>>::empty(),
    {
        let t = AliasTable { entries: Vec::new() };
        assert(t@ =~= Map::<Seq<char>, Seq<char>>::empty());
        t
    }

    /// Whether the table holds no alias.
    pub fn is_empty(&self) -> (r: bool)
        ensures
            r == (self@ == Map::<Seq<char>, Seq<char>>::empty()),
    {
        proof {
            if self.entries@.len() > 0 {
                assert(self.at(self.entries@[0].name@, 0));
                assert(self@.contains_key(self.entries@[0].name@));
            } else {
                assert(self@ =~= Map::<Seq<char>, Seq<char>>::empty());
            }
        }
        self.entries.len() == 0
    }

    /// The place of `name` among the entries.
    fn find(&self, name: &str) -> (r: Option<usize>)
        ensures
            match r {
                Some(i) => self.at(name@, i as int),
                None => !self.holds(name@),
            },
    {
        let mut i: usize = 0;
        while i < self.entries.len()
            invariant
                i <= self.entries@.len(),
                forall|k: int| 0 <= k < i ==> !self.at(name@, k),
            decreases self.entries@.len() - i,
        {
            if reads(self.entries[i].name.as_str(), name) {
                return Some(i);
            }
            i += 1;
        }
        None
    }

    /// The command that `name` is an alias of, if it is one.
    pub fn get(&self, name: &str) -> (r: Option<String>)
        ensures
            match r {
                Some(c) => self@.contains_key(name@) && self@[name@] == c@,
                None => !self@.contains_key(name@),
            },
    {
        proof {
            use_type_invariant(self);
        }
        match self.find(name) {
            Some(i) => {
                assert(self.at(name@, self.place(name@)));
                Some(self.entries[i].command.clone())
            },
            None => None,
        }
    }

    /// The command that `name` stands for: its alias, or `name` itself
    /// where it has none.
    pub fn resolve(&self, name: &str) -> (out: String)
        ensures
            out@ == resolved(self@, name@),
    {
        match self.get(name) {
            Some(c) => c,
            None => String::from_str(name),
        }
    }

    /// Makes `name` an alias of `command`. An alias that `name` had before
    /// is replaced; every other alias stays.
    pub fn insert(&mut self, name: String, command: String)
        ensures
            final(self)@ == old(self)@.insert(name@, command@),
    {
        proof {
            use_type_invariant(&*self);
        }
        let ghost before = *self;
        let found = self.find(name.as_str());
        let mut list: Vec<Alias> = Vec::new();
        std::mem::swap(&mut self.entries, &mut list);
        match found {
            Some(i) => {
                list.set(i, Alias { name, command });
                self.entries = list;
                proof {
                    assert forall|k: Seq<char>, j: int| self.at(k, j) == before.at(k, j) by {}
                    assert forall|k: Seq<char>| self.holds(k) == before.holds(k) by {
                        if self.holds(k) {
                            assert(before.at(k, self.place(k)));
                        }
                        if before.holds(k) {
                            assert(self.at(k, before.place(k)));
                        }
                    }
                    assert(self.at(name@, i as int));
                    assert forall|k: Seq<char>| self.holds(k) implies #[trigger] self@[k]
                        == before@.insert(name@, command@)[k] by {
                        let p = self.place(k);
                        let q = before.place(k);
                        assert(self.at(k, p));
                        assert(before.at(k, p));
                        assert(before.at(k, q));
                        assert(p == q);
                    }
                    assert(self@ =~= before@.insert(name@, command@));
                }
            },
            None => {
                list.push(Alias { name, command });
                proof {
                    assert forall|j: int| 0 <= j < before.entries@.len() implies list@[j].name@
                        != name@ by {
                        assert(!before.at(name@, j));
                    }
                }
                self.entries = list;
                proof {
                    let n = before.entries@.len() as int;
                    assert(self.at(name@, n));
                    assert forall|k: Seq<char>| self.holds(k) == (before.holds(k) || k == name@) by {
                        if self.holds(k) {
                            let p = self.place(k);
                            if p < n {
                                assert(before.at(k, p));
                            }
                        }
                        if before.holds(k) {
                            assert(self.at(k, before.place(k)));
                        }
                    }
                    assert forall|k: Seq<char>| self.holds(k) implies #[trigger] self@[k]
                        == before@.insert(name@, command@)[k] by {
                        let p = self.place(k);
                        assert(self.at(k, p));
                        if k != name@ {
                            let q = before.place(k);
                            assert(before.at(k, p));
                            assert(before.at(k, q));
                            assert(p == q);
                        } else {
                            assert(p == n);
                        }
                    }
                    assert(self@ =~= before@.insert(name@, command@));
                }
            },
        }
    }

    /// Reads `spec` as `name=command` and makes `name` an alias of
    /// `command`. Without a `=` in `spec` the table stays as it is.
    pub fn define(&mut self, spec: &str) -> (r: Result<Alias, UsageError>)
        ensures
            match parse_alias(spec@) {
                Some((name, command)) => {
                    &&& final(self)@ == old(self)@.insert(name, command)
                    &&& r is Ok
                    &&& r->Ok_0.name@ == name
                    &&& r->Ok_0.command@ == command
                },
                None => {
                    &&& final(self)@ == old(self)@
                    &&& r == Err::<Alias, UsageError>(UsageError::Alias)
                },
            },
    {
        let v = chars_of(spec);
        let n = find_char(&v, 0, '=');
        assert(v@.skip(0) =~= v@);
        if n >= v.len() {
            return Err(UsageError::Alias);
        }
        let rest = chars_of(text_between(&v, n + 1, v.len()).as_str());
        let (a, b) = trim_bounds(&rest);
        let name = text_between(&v, 0, n);
        let command = text_between(&rest, a, b);
        proof {
            assert(v@.subrange(0, n as int) =~= spec@.take(n as int));
            assert(v@.subrange(n + 1, v.len() as int) =~= spec@.skip(n + 1));
        }
        self.insert(name.clone(), command.clone());
        Ok(Alias { name, command })
    }

    /// The aliases of the table, each name once, in no particular order.
    pub fn entries(&self) -> (out: Vec<Alias>)
        ensures
            table_of(out@) == self@,
            forall|i: int, j: int| 0 <= i < j < out@.len() ==> out@[i].name@ != out@[j].name@,
            forall|i: int|
                0 <= i < out@.len() ==> self@.contains_key(#[trigger] out@[i].name@)
                    && self@[out@[i].name@] == out@[i].command@,
    {
        proof {
            use_type_invariant(self);
        }
        let mut out: Vec<Alias> = Vec::new();
        let mut i: usize = 0;
        while i < self.entries.len()
            invariant
                i <= self.entries@.len(),
                out@.len() == i,
                forall|k: int|
                    0 <= k < i ==> out@[k].name@ == self.entries@[k].name@ && out@[k].command@
                        == self.entries@[k].command@,
            decreases self.entries@.len() - i,
        {
            let e = &self.entries[i];
            out.push(Alias { name: e.name.clone(), command: e.command.clone() });
            i += 1;
        }
        proof {
            assert forall|k: int| 0 <= k < out@.len() implies self@.contains_key(
                #[trigger] out@[k].name@,
            ) && self@[out@[k].name@] == out@[k].command@ by {
                let key = out@[k].name@;
                assert(self.at(key, k));
                assert(self.at(key, self.place(key)));
            }
            lemma_table_of_distinct(out@);
            assert forall|key: Seq<char>| self@.contains_key(key) == table_of(out@).contains_key(
                key,
            ) by {
                if self@.contains_key(key) {
                    let p = self.place(key);
                    assert(self.at(key, p));
                    assert(listed(out@, key, p));
                }
                if table_of(out@).contains_key(key) {
                    let p = choose|p: int| listed(out@, key, p);
                    assert(self.at(key, p));
                }
            }
            assert forall|key: Seq<char>| self@.contains_key(key) implies self@[key] == table_of(
                out@,
            )[key] by {
                let p = self.place(key);
                assert(self.at(key, p));
                assert(listed(out@, key, p));
            }
            assert(table_of(out@) =~= self@);
        }
        out
    }

    /// The table that a list of aliases makes, a later one replacing an
    /// earlier one of the same name.
    pub fn from_entries(list: Vec<Alias>) -> (t: AliasTable)
        ensures
            t@ == table_of(list@),
    {
        let mut t = AliasTable::new();
        let mut i: usize = 0;
        assert(list@.take(0) =~= Seq::<Alias>::empty());
        while i < list.len()
            invariant
                i <= list@.len(),
                t@ == table_of(list@.take(i as int)),
            decreases list@.len() - i,
        {
            assert(list@.take(i + 1).drop_last() =~= list@.take(i as int));
            t.insert(list[i].name.clone(), list[i].command.clone());
            i += 1;
        }
        assert(list@.take(list@.len() as int) =~= list@);
        t
    }
}

/// Whether the entry of `list` at position `i` is the one named `k`.
pub open spec fn listed(list: Seq<Alias>, k: Seq<char>, i: int) -> bool {
    0 <= i < list.len() && list[i].name@ == k
}

/// In the table of a list without a repeated name, a name has an alias
/// just when the list holds it, and the alias is the command listed with it.
pub proof fn lemma_table_of_distinct(list: Seq<Alias>)
    requires
        forall|i: int, j: int| 0 <= i < j < list.len() ==> list[i].name@ != list[j].name@,
    ensures
        forall|k: Seq<char>|
            #[trigger] table_of(list).contains_key(k) <==> exists|i: int| listed(list, k, i),
        forall|k: Seq<char>, i: int|
            #[trigger] listed(list, k, i) ==> table_of(list)[k] == list[i].command@,
    decreases list.len(),
{
    if list.len() > 0 {
        let init = list.drop_last();
        let n = list.len() - 1;
        lemma_table_of_distinct(init);
        assert forall|k: Seq<char>| #[trigger] table_of(list).contains_key(k) implies exists|
            i: int,
        | listed(list, k, i) by {
            if k == list[n].name@ {
                assert(listed(list, k, n));
            } else {
                assert(table_of(init).contains_key(k));
                let i = choose|i: int| listed(init, k, i);
                assert(listed(list, k, i));
            }
        }
        assert forall|k: Seq<char>| (exists|i: int| listed(list, k, i)) implies #[trigger] table_of(
            list,
        ).contains_key(k) by {
            let i = choose|i: int| listed(list, k, i);
            if i < n {
                assert(listed(init, k, i));
            }
        }
        assert forall|k: Seq<char>, i: int| #[trigger] listed(list, k, i) implies table_of(list)[k]
            == list[i].command@ by {
            if i < n {
                assert(listed(init, k, i));
                assert(list[i].name@ != list[n].name@);
            }
        }
    }
}

} // verus!
