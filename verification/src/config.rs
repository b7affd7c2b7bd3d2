//! What a session keeps between runs: the end of the prompt and the
//! aliases.

use crate::alias::AliasTable;
use vstd::prelude::*;

verus! {

/// The configuration of a session.
pub struct Cfg {
    /// The end of the prompt, before the space that precedes the input.
    pub ps: String,
    /// The aliases.
    pub al: AliasTable,
}

impl Default for Cfg {
    /// The configuration of a session that found none stored: the prompt
    /// ends in `->` and there is no alias.
    fn default() -> (c: Cfg)
        ensures
            c.ps@ == "->"@,
            c.al@ == Map::<Seq<char>, Seq<char>>::empty(),
    {
        Cfg { ps: String::from_str("->"), al: AliasTable::new() }
    }
}

} // verus!
