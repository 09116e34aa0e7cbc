//! Node names, and the neighbour map that a cluster may be given: for some nodes, the list
//! of the nodes that they talk to.

use vstd::prelude::*;

verus! {

/// A node identity as contracts see it: the characters of its name.
pub type NodeId = Seq<char>;

/// The identities that a list of names stands for, in order.
pub open spec fn names_of(names: Seq<String>) -> Seq<NodeId> {
    names.map_values(|name: String| name@)
}

#[derive(Debug)]
struct Entry {
    name: String,
    neighbours: Vec<String>,
}

/// An explicit neighbour map: for some nodes, the ordered list of their direct neighbours.
///
/// Each node has at most one list; a later `insert` for the same node replaces the earlier one.
#[derive(Debug)]
pub struct Topology {
    entries: Vec<Entry>,
}

impl View for Topology {
    type V = Map<NodeId, Seq<NodeId>>;

    closed spec fn view(&self) -> Map<NodeId, Seq<NodeId>> {
        Map::new(
            |name: NodeId| self.has(name),
            |name: NodeId| names_of(self.entries[self.position(name)].neighbours@),
        )
    }
}

impl Topology {
    #[verifier::type_invariant]
    closed spec fn distinct_names(&self) -> bool {
        forall|i: int, j: int|
            0 <= i < j < self.entries.len() ==> self.entries[i].name@ != self.entries[j].name@
    }

    closed spec fn has(&self, name: NodeId) -> bool {
        exists|i: int| 0 <= i < self.entries.len() && self.entries[i].name@ == name
    }

    closed spec fn position(&self, name: NodeId) -> int {
        choose|i: int| 0 <= i < self.entries.len() && self.entries[i].name@ == name
    }

    proof fn lemma_entry(&self, i: int)
        requires
            self.distinct_names(),
            0 <= i < self.entries.len(),
        ensures
            self@.contains_key(self.entries[i].name@),
            self@[self.entries[i].name@] == names_of(self.entries[i].neighbours@),
    {
        // No other entry has this name, so the position chosen for it is `i`.
        let name = self.entries[i].name@;
        assert(self.has(name));
        assert(self.position(name) == i);
    }

    /// A topology that lists no node.
    pub fn new() -> (topology: Topology)
        ensures
            topology@ == Map::<NodeId, Seq<NodeId>>::empty(),
    {
        let topology = Topology { entries: Vec::new() };
        assert(topology@ =~= Map::<NodeId, Seq<NodeId>>::empty());
        topology
    }

    fn find(&self, name: &String) -> (found: Option<usize>)
        ensures
            match found {
                Some(i) => i < self.entries.len() && self.entries[i as int].name@ == name@,
                None => !self.has(name@),
            },
    {
        let mut i: usize = 0;
        while i < self.entries.len()
            invariant
                i <= self.entries.len(),
                forall|j: int| 0 <= j < i ==> self.entries[j].name@ != name@,
            decreases self.entries.len() - i,
        {
            if self.entries[i].name == *name {
                return Some(i);
            }
            i += 1;
        }
        None
    }

    /// The neighbour list recorded for `name`, if there is one.
    pub fn get(&self, name: &String) -> (found: Option<&Vec<String>>)
        ensures
            match found {
                Some(neighbours) => self@.contains_key(name@) && names_of(neighbours@)
                    == self@[name@],
                None => !self@.contains_key(name@),
            },
    {
        proof {
            use_type_invariant(self);
        }
        match self.find(name) {
            Some(i) => {
                proof {
                    self.lemma_entry(i as int);
                }
                Some(&self.entries[i].neighbours)
            },
            None => None,
        }
    }

    /// The nodes that have a list, each once.
    pub fn names(&self) -> (names: Vec<String>)
        ensures
            names_of(names@).no_duplicates(),
            names_of(names@).to_set() == self@.dom(),
    {
        proof {
            use_type_invariant(self);
        }
        let mut names: Vec<String> = Vec::new();
        let mut i: usize = 0;
        while i < self.entries.len()
            invariant
                i <= self.entries.len(),
                names.len() == i,
                forall|j: int| 0 <= j < i ==> names[j]@ == self.entries[j].name@,
            decreases self.entries.len() - i,
        {
            names.push(self.entries[i].name.clone());
            i += 1;
        }
        proof {
            let listed = names_of(names@);
            assert forall|name: NodeId| listed.to_set().contains(name) <==> self@.dom().contains(
                name,
            ) by {
                if listed.to_set().contains(name) {
                    let j = choose|j: int| 0 <= j < listed.len() && listed[j] == name;
                    self.lemma_entry(j);
                }
                if self.has(name) {
                    let j = self.position(name);
                    assert(listed[j] == name);
                }
            }
            assert(listed.to_set() =~= self@.dom());
        }
        names
    }

    /// Records `neighbours` as the list of `name`, in place of any list it had before.
    pub fn insert(&mut self, name: String, neighbours: Vec<String>)
        ensures
            final(self)@ == old(self)@.insert(name@, names_of(neighbours@)),
    {
        proof {
            use_type_invariant(&*self);
        }
        let ghost before = *self;
        let entry = Entry { name, neighbours };
        let found = self.find(&entry.name);
        // The list is taken out while it changes, so that `self` is whole at every step.
        let mut entries: Vec<Entry> = Vec::new();
        core::mem::swap(&mut entries, &mut self.entries);
        let ghost key = entry.name@;
        let ghost list = names_of(entry.neighbours@);
        match found {
            Some(i) => {
                entries.set(i, entry);
            },
            None => {
                entries.push(entry);
            },
        }
        self.entries = entries;
        proof {
            let after = *self;
            assert forall|k: NodeId|
                after@.contains_key(k) <==> (k == key || before@.contains_key(k)) by {
                if after.has(k) && k != key {
                    let p = after.position(k);
                    assert(before.entries[p].name@ == k);
                }
                if before.has(k) {
                    let p = before.position(k);
                    assert(after.entries[p].name@ == k || k == key);
                }
                if k == key {
                    let p = match found {
                        Some(i) => i as int,
                        None => before.entries.len() as int,
                    };
                    assert(after.entries[p].name@ == k);
                }
            }
            assert forall|k: NodeId| after@.contains_key(k) implies after@[k] == before@.insert(
                key,
                list,
            )[k] by {
                let p = after.position(k);
                after.lemma_entry(p);
                if k != key {
                    before.lemma_entry(p);
                }
            }
            assert(after@ =~= before@.insert(key, list));
        }
    }
}

} // verus!
