//! Command aliases: a name that expands to another command line.
use vstd::prelude::*;
use vstd::string::*;

use crate::trie::Trie;

verus! {

/// Alias names and the command text each expands to.
pub struct CommandAliases {
    aliases: Trie<String>,
}

impl View for CommandAliases {
    type V = Map<Seq<char>, Seq<char>>;

    closed spec fn view(&self) -> Map<Seq<char>, Seq<char>> {
        self.aliases@.map_values(|s: String| s@)
    }
}

impl Default for CommandAliases {
    fn default() -> (r: Self)
        ensures
            r.wf(),
            r@ == Map::<Seq<char>, Seq<char>>::empty(),
    {
        CommandAliases::new()
    }
}

impl CommandAliases {
    /// The alias table is well formed.
    pub closed spec fn wf(&self) -> bool {
        self.aliases.wf()
    }

    /// No aliases.
    pub fn new() -> (r: Self)
        ensures
            r.wf(),
            r@ == Map::<Seq<char>, Seq<char>>::empty(),
    {
        let r = CommandAliases { aliases: Trie::new() };
        assert(r@ =~= Map::<Seq<char>, Seq<char>>::empty());
        r
    }

    /// Makes `name` expand to `command`, replacing an earlier alias.
    pub fn add(&mut self, name: &str, command: &str)
        requires
            old(self).wf(),
        ensures
            final(self).wf(),
            final(self)@ == old(self)@.insert(name@, command@),
    {
        self.aliases.insert(name, command.to_owned());
        assert(self@ =~= old(self)@.insert(name@, command@));
    }

    /// Removes the alias `name`, returning its expansion.
    pub fn remove(&mut self, name: &str) -> (r: Option<String>)
        requires
            old(self).wf(),
        ensures
            final(self).wf(),
            final(self)@ == old(self)@.remove(name@),
            match old(self)@.get(name@) {
                Some(c) => r matches Some(s) && s@ == c,
                None => r is None,
            },
    {
        let r = self.aliases.remove(name);
        assert(self@ =~= old(self)@.remove(name@));
        r
    }

    /// The expansion of `name`.
    pub fn get(&self, name: &str) -> (r: Option<&str>)
        requires
            self.wf(),
        ensures
            match self@.get(name@) {
                Some(c) => r matches Some(s) && s@ == c,
                None => r is None,
            },
    {
        match self.aliases.get(name) {
            Some(s) => Some(s.as_str()),
            None => None,
        }
    }

    /// Whether `name` is an alias.
    pub fn contains(&self, name: &str) -> (r: bool)
        requires
            self.wf(),
        ensures
            r == self@.contains_key(name@),
    {
        self.aliases.contains(name)
    }

    /// Every alias with its expansion, each once, in no particular order.
    pub fn iter(&self) -> (r: Vec<(String, String)>)
        requires
            self.wf(),
        ensures
            forall|a: int|
                0 <= a < r@.len() ==> self@.contains_key((#[trigger] r@[a]).0@) && r@[a].1@ == self@[r@[a].0@],
            forall|k: Seq<char>|
                self@.contains_key(k) ==> exists|a: int| 0 <= a < r@.len() && (#[trigger] r@[a]).0@ == k,
            forall|a: int, b: int| 0 <= a < b < r@.len() ==> (#[trigger] r@[a]).0@ != (#[trigger] r@[b]).0@,
    {
        let all = self.aliases.iter();
        let mut out: Vec<(String, String)> = Vec::new();
        let mut i: usize = 0;
        while i < all.len()
            invariant
                i <= all@.len(),
                out@.len() == i,
                forall|a: int| 0 <= a < i ==> (#[trigger] out@[a]).0@ == all@[a].0@ && out@[a].1@ == all@[a].1@,
            decreases all.len() - i,
        {
            out.push((all[i].0.clone(), all[i].1.clone()));
            i = i + 1;
        }
        proof {
            assert forall|k: Seq<char>| self@.contains_key(k) implies exists|a: int|
                0 <= a < out@.len() && (#[trigger] out@[a]).0@ == k by {
                let a = choose|a: int| 0 <= a < all@.len() && (#[trigger] all@[a]).0@ == k;
                assert(out@[a].0@ == k);
            }
            assert forall|a: int, b: int| 0 <= a < b < out@.len() implies (#[trigger] out@[a]).0@
                != (#[trigger] out@[b]).0@ by {
                assert(all@[a].0@ != all@[b].0@);
            }
        }
        out
    }

    /// The number of aliases.
    pub fn len(&self) -> (r: usize)
        requires
            self.wf(),
        ensures
            self@.dom().finite(),
            r == self@.len(),
    {
        assert(self@.dom() =~= self.aliases@.dom());
        self.aliases.len()
    }

    /// Whether there are no aliases.
    pub fn is_empty(&self) -> (r: bool)
        requires
            self.wf(),
        ensures
            self@.dom().finite(),
            r == (self@.len() == 0),
    {
        assert(self@.dom() =~= self.aliases@.dom());
        self.aliases.is_empty()
    }
}

} // verus!
