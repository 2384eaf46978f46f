//! The registry of tools an agent may choose from.
use vstd::prelude::*;

use crate::error::{Result, TinyError};
use crate::model::weights::{
    lemma_search_membership, lemma_seq_to_map_insert, lemma_seq_to_map_len,
    lemma_seq_to_map_value, lemma_sorted_distinct, lemma_sorted_insert, names_distinct,
    names_sorted, search_result, seq_to_map,
};
use crate::text::{chars_of, compare_chars, seq_lt};

verus! {

/// Registered tools by name, each with a description, kept in increasing
/// name order.
#[derive(Debug, Clone)]
pub struct ToolRegistry {
    entries: Vec<(String, String)>,
}

impl ToolRegistry {
    spec fn entry_seq(&self) -> Seq<(Seq<char>, Seq<char>)> {
        self.entries@.map_values(|e: (String, String)| (e.0@, e.1@))
    }

    /// The registry's invariant: names strictly increase.
    pub closed spec fn wf(&self) -> bool {
        names_sorted(self.entry_seq())
    }

    /// The registered tools as (name, description), in increasing name order.
    pub closed spec fn listing(&self) -> Seq<(Seq<char>, Seq<char>)> {
        self.entry_seq()
    }

    /// The listing is sorted by name, free of duplicates, and describes the map view.
    pub proof fn lemma_listing(&self)
        requires
            self.wf(),
        ensures
            names_sorted(self.listing()),
            names_distinct(self.listing()),
            seq_to_map(self.listing()) == self@,
            self.listing().len() == self@.len(),
    {
        lemma_sorted_distinct(self.entry_seq());
        lemma_seq_to_map_len(self.entry_seq());
    }

    fn find(&self, key: &Vec<char>) -> (r: (usize, bool))
        ensures
            search_result(self.entry_seq(), key@, r.0 as int, r.1),
    {
        let mut i: usize = 0;
        while i < self.entries.len()
            invariant
                0 <= i <= self.entries@.len(),
                forall|j: int| 0 <= j < i ==> seq_lt(#[trigger] self.entry_seq()[j].0, key@),
            decreases self.entries.len() - i,
        {
            let name = chars_of(self.entries[i].0.as_str());
            let c = compare_chars(&name, key);
            assert(self.entry_seq()[i as int].0 == name@);
            if c == 0 {
                return (i, true);
            } else if c == 1 {
                return (i, false);
            }
            i = i + 1;
        }
        (i, false)
    }

    /// An empty registry.
    pub fn new() -> (r: Self)
        ensures
            r.wf(),
            r@ == Map::<Seq<char>, Seq<char>>::empty(),
    {
        let r = ToolRegistry { entries: Vec::new() };
        assert(r.entry_seq() =~= Seq::<(Seq<char>, Seq<char>)>::empty());
        r
    }

    /// Registers a tool; a name that is already registered is refused.
    pub fn register(&mut self, name: &str, description: &str) -> (r: Result<()>)
        requires
            old(self).wf(),
        ensures
            final(self).wf(),
            r is Ok <==> !old(self)@.dom().contains(name@),
            r is Ok ==> final(self)@ == old(self)@.insert(name@, description@),
            r matches Err(e) ==> e matches TinyError::Tool(m) && m@ == "tool is already registered"@
                && final(self)@ == old(self)@,
    {
        let key = chars_of(name);
        let (p, found) = self.find(&key);
        proof {
            lemma_search_membership(self.entry_seq(), key@, p as int, found);
            lemma_sorted_distinct(self.entry_seq());
        }
        if found {
            return Err(TinyError::Tool("tool is already registered".to_string()));
        }
        let ghost before = self.entry_seq();
        proof {
            lemma_seq_to_map_insert(before, p as int, (key@, description@));
            lemma_sorted_insert(before, p as int, (key@, description@));
        }
        self.entries.insert(p, (name.to_string(), description.to_string()));
        assert(self.entry_seq() =~= before.insert(p as int, (key@, description@)));
        Ok(())
    }

    /// Whether a tool named `name` is registered.
    pub fn contains(&self, name: &str) -> (b: bool)
        requires
            self.wf(),
        ensures
            b == self@.dom().contains(name@),
    {
        let key = chars_of(name);
        let (p, found) = self.find(&key);
        proof {
            lemma_search_membership(self.entry_seq(), key@, p as int, found);
        }
        found
    }

    /// The description of the tool named `name`, if it is registered.
    pub fn description(&self, name: &str) -> (r: Option<&str>)
        requires
            self.wf(),
        ensures
            r is Some <==> self@.dom().contains(name@),
            r matches Some(d) ==> d@ == self@[name@],
    {
        let key = chars_of(name);
        let (p, found) = self.find(&key);
        proof {
            lemma_search_membership(self.entry_seq(), key@, p as int, found);
            lemma_sorted_distinct(self.entry_seq());
        }
        if found {
            proof {
                lemma_seq_to_map_value(self.entry_seq(), p as int);
            }
            Some(self.entries[p].1.as_str())
        } else {
            None
        }
    }

    /// Number of registered tools.
    pub fn len(&self) -> (n: usize)
        requires
            self.wf(),
        ensures
            n == self@.len(),
    {
        proof {
            self.lemma_listing();
        }
        self.entries.len()
    }

    /// Whether no tool is registered.
    pub fn is_empty(&self) -> (b: bool)
        requires
            self.wf(),
        ensures
            b == (self@.len() == 0),
    {
        self.len() == 0
    }

    /// Name and description of the `i`-th tool in name order.
    pub fn tool_at(&self, i: usize) -> (r: (&str, &str))
        requires
            self.wf(),
            i < self@.len(),
        ensures
            r.0@ == self.listing()[i as int].0,
            r.1@ == self.listing()[i as int].1,
    {
        proof {
            self.lemma_listing();
        }
        (self.entries[i].0.as_str(), self.entries[i].1.as_str())
    }
}

impl View for ToolRegistry {
    type V = Map<Seq<char>, Seq<char>>;

    closed spec fn view(&self) -> Map<Seq<char>, Seq<char>> {
        seq_to_map(self.entry_seq())
    }
}

} // verus!
