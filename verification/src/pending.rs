//! The lines of sourced scripts that wait for dispatch.

use crate::split::{lines, lines_of};
use vstd::prelude::*;

verus! {

/// The waiting lines. A script that is sourced puts its lines before those
/// that wait already, so that they run before the rest of the script that
/// sourced it.
pub struct Pending {
    /// The lines, the next one last.
    stack: Vec<String>,
}

impl View for Pending {
    type V = Seq<Seq<char>>;

    /// The waiting lines, the next one first.
    closed spec fn view(&self) -> Seq<Seq<char>> {
        Seq::new(self.stack@.len(), |i: int| self.stack@[self.stack@.len() - 1 - i]@)
    }
}

impl Pending {
    /// No waiting line.
    pub fn new() -> (p: Pending)
        ensures
            p@ == Seq::<Seq<char>>::empty(),
    {
        let p = Pending { stack: Vec::new() };
        assert(p@ =~= Seq::<Seq<char>>::empty());
        p
    }

    /// Whether no line waits.
    pub fn is_empty(&self) -> (r: bool)
        ensures
            r == (self@.len() == 0),
    {
        self.stack.len() == 0
    }

    /// Puts the lines of the script `content` before the waiting lines, in
    /// the order of the script.
    pub fn load(&mut self, content: &str)
        ensures
            final(self)@ == lines(content@) + old(self)@,
    {
        let mut ls = lines_of(content);
        let ghost all = lines(content@);
        let ghost before = self@;
        assert(all.skip(all.len() as int) + before =~= before);
        while ls.len() > 0
            invariant
                ls.deep_view() == all.take(ls@.len() as int),
                ls@.len() <= all.len(),
                self@ == all.skip(ls@.len() as int) + before,
            decreases ls@.len(),
        {
            let ghost n = ls@.len() as int;
            let ghost queue = self@;
            let ghost heads = ls.deep_view();
            let l = ls.pop().unwrap();
            assert(l@ == heads[n - 1]);
            self.stack.push(l);
            assert(self@ =~= seq![l@] + queue);
            assert(seq![l@] + (all.skip(n) + before) =~= all.skip(n - 1) + before);
            assert(ls.deep_view() =~= all.take(n - 1));
        }
        assert(all.skip(0) =~= all);
    }

    /// Takes the next waiting line, if there is one.
    pub fn next_line(&mut self) -> (r: Option<String>)
        ensures
            match r {
                Some(l) => old(self)@.len() > 0 && l@ == old(self)@[0] && final(self)@ == old(
                    self,
                )@.skip(1),
                None => old(self)@.len() == 0 && final(self)@ == old(self)@,
            },
    {
        let ghost queue = self@;
        let r = self.stack.pop();
        if r.is_some() {
            assert(self@ =~= queue.skip(1));
        }
        r
    }
}

} // verus!
