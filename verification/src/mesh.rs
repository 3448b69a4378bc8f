//! The floodsub mesh as the node sees it: each topic with the peers
//! subscribed to it.

use crate::keyed::{
    distinct_keys, lemma_pairs_dom, lemma_pairs_len, lemma_pairs_push, lemma_pairs_update,
    lemma_pairs_value, pairs_map,
};
use crate::text::views;
use vstd::prelude::*;

verus! {

/// One topic of a mesh and the peers subscribed to it.
#[derive(Debug)]
pub struct MeshEntry {
    pub topic: String,
    pub peers: Vec<String>,
}

/// The topic/peers pairs of the entries `e`.
pub open spec fn mesh_pairs(e: Seq<MeshEntry>) -> Seq<(Seq<char>, Seq<Seq<char>>)> {
    e.map_values(|x: MeshEntry| (x.topic@, views(x.peers@)))
}

/// The map from topic to peers that the entries `e` describe.
pub open spec fn entries_map(e: Seq<MeshEntry>) -> Map<Seq<char>, Seq<Seq<char>>> {
    pairs_map(mesh_pairs(e))
}

/// A map from topic to the peers subscribed to it, without duplicate topics.
#[derive(Debug)]
pub struct Mesh {
    entries: Vec<MeshEntry>,
}

impl View for Mesh {
    type V = Map<Seq<char>, Seq<Seq<char>>>;

    closed spec fn view(&self) -> Map<Seq<char>, Seq<Seq<char>>> {
        entries_map(self.entries@)
    }
}

/// Whether `a` and `b` hold the same strings in the same order.
pub fn strings_equal(a: &Vec<String>, b: &Vec<String>) -> (r: bool)
    ensures
        r == (views(a@) == views(b@)),
{
    if a.len() != b.len() {
        proof {
            assert(views(a@).len() != views(b@).len());
        }
        return false;
    }
    let mut i: usize = 0;
    while i < a.len()
        invariant
            a.len() == b.len(),
            i <= a.len(),
            forall|j: int| 0 <= j < i ==> (#[trigger] a@[j])@ == b@[j]@,
        decreases a.len() - i,
    {
        if a[i] != b[i] {
            proof {
                assert(views(a@)[i as int] != views(b@)[i as int]);
            }
            return false;
        }
        i = i + 1;
    }
    proof {
        assert(views(a@) =~= views(b@));
    }
    true
}

/// Whether `x` is one of the strings of `v`.
pub fn contains_string(v: &Vec<String>, x: &String) -> (r: bool)
    ensures
        r == views(v@).contains(x@),
{
    let mut i: usize = 0;
    while i < v.len()
        invariant
            i <= v.len(),
            forall|j: int| 0 <= j < i ==> (#[trigger] v@[j])@ != x@,
        decreases v.len() - i,
    {
        if v[i] == *x {
            proof {
                assert(views(v@)[i as int] == x@);
            }
            return true;
        }
        i = i + 1;
    }
    proof {
        if views(v@).contains(x@) {
            let j = choose|j: int| 0 <= j < views(v@).len() && views(v@)[j] == x@;
            assert(v@[j]@ == x@);
        }
    }
    false
}

/// Clones a sequence of strings.
pub fn clone_strings(v: &Vec<String>) -> (r: Vec<String>)
    ensures
        r@ == v@,
{
    let r = v.clone();
    proof {
        assert(r@ =~= v@);
    }
    r
}

impl Mesh {
    #[verifier::type_invariant]
    spec fn wf(self) -> bool {
        distinct_keys(mesh_pairs(self.entries@))
    }

    /// The empty mesh.
    pub fn new() -> (m: Mesh)
        ensures
            m@ == Map::<Seq<char>, Seq<Seq<char>>>::empty(),
    {
        let m = Mesh { entries: Vec::new() };
        proof {
            assert(mesh_pairs(m.entries@) =~= Seq::<(Seq<char>, Seq<Seq<char>>)>::empty());
        }
        m
    }

    /// The entries of the mesh, one per topic.
    pub fn entries(&self) -> (r: &Vec<MeshEntry>)
        ensures
            entries_map(r@) == self@,
            distinct_keys(mesh_pairs(r@)),
    {
        proof {
            use_type_invariant(self);
        }
        &self.entries
    }

    /// The number of topics.
    pub fn len(&self) -> (r: usize)
        ensures
            r == self@.dom().len(),
    {
        proof {
            use_type_invariant(self);
            lemma_pairs_len(mesh_pairs(self.entries@));
        }
        self.entries.len()
    }

    /// Where `topic` stands among the entries, if it is there.
    fn find(&self, topic: &String) -> (r: Option<usize>)
        ensures
            match r {
                Some(i) => i < self.entries@.len() && self.entries@[i as int].topic@ == topic@,
                None => !self@.dom().contains(topic@),
            },
    {
        let mut i: usize = 0;
        while i < self.entries.len()
            invariant
                i <= self.entries@.len(),
                forall|j: int| 0 <= j < i ==> (#[trigger] self.entries@[j]).topic@ != topic@,
            decreases self.entries@.len() - i,
        {
            if self.entries[i].topic == *topic {
                return Some(i);
            }
            i = i + 1;
        }
        proof {
            let pairs = mesh_pairs(self.entries@);
            lemma_pairs_dom(pairs, topic@);
            if self@.dom().contains(topic@) {
                let j = choose|j: int| 0 <= j < pairs.len() && (#[trigger] pairs[j]).0 == topic@;
                assert(self.entries@[j].topic@ == topic@);
            }
        }
        None
    }

    /// The peers subscribed to `topic`, if the mesh has it.
    pub fn get(&self, topic: &String) -> (r: Option<&Vec<String>>)
        ensures
            match r {
                Some(p) => self@.dom().contains(topic@) && views(p@) == self@[topic@],
                None => !self@.dom().contains(topic@),
            },
    {
        proof {
            use_type_invariant(self);
        }
        match self.find(topic) {
            Some(i) => {
                proof {
                    lemma_pairs_value(mesh_pairs(self.entries@), i as int);
                }
                Some(&self.entries[i].peers)
            },
            None => None,
        }
    }

    /// Sets the peers of `topic`, replacing what it had.
    pub fn insert(&mut self, topic: String, peers: Vec<String>)
        ensures
            final(self)@ == old(self)@.insert(topic@, views(peers@)),
    {
        proof {
            use_type_invariant(&*self);
        }
        let ghost old_entries = self.entries@;
        let ghost pairs = mesh_pairs(old_entries);
        match self.find(&topic) {
            Some(i) => {
                let x = MeshEntry { topic, peers };
                let ghost xg = x;
                proof {
                    assert(mesh_pairs(old_entries.update(i as int, xg)) =~= pairs.update(
                        i as int,
                        (pairs[i as int].0, views(xg.peers@)),
                    ));
                    lemma_pairs_update(pairs, i as int, views(xg.peers@));
                }
                let mut entries = Vec::new();
                std::mem::swap(&mut entries, &mut self.entries);
                entries.set(i, x);
                self.entries = entries;
            },
            None => {
                let x = MeshEntry { topic, peers };
                let ghost xg = x;
                proof {
                    assert(mesh_pairs(old_entries.push(xg)) =~= pairs.push(
                        (xg.topic@, views(xg.peers@)),
                    ));
                    lemma_pairs_push(pairs, xg.topic@, views(xg.peers@));
                }
                let mut entries = Vec::new();
                std::mem::swap(&mut entries, &mut self.entries);
                entries.push(x);
                self.entries = entries;
            },
        }
    }

    /// A copy of the mesh.
    pub fn duplicate(&self) -> (r: Mesh)
        ensures
            r@ == self@,
    {
        let mut r = Mesh::new();
        let mut i: usize = 0;
        proof {
            assert(mesh_pairs(self.entries@.take(0)) =~= Seq::<(Seq<char>, Seq<Seq<char>>)>::empty());
        }
        while i < self.entries.len()
            invariant
                i <= self.entries@.len(),
                r@ == entries_map(self.entries@.take(i as int)),
            decreases self.entries@.len() - i,
        {
            let e = &self.entries[i];
            proof {
                assert(mesh_pairs(self.entries@.take(i + 1)).drop_last() =~= mesh_pairs(
                    self.entries@.take(i as int),
                ));
            }
            r.insert(e.topic.clone(), clone_strings(&e.peers));
            i = i + 1;
        }
        proof {
            assert(self.entries@.take(i as int) =~= self.entries@);
        }
        r
    }

    /// Whether the two meshes map every topic to the same peers, in the
    /// same order (the equality of the two maps).
    pub fn same_as(&self, other: &Mesh) -> (r: bool)
        ensures
            r == (self@ == other@),
    {
        let ghost pairs = mesh_pairs(self.entries@);
        proof {
            use_type_invariant(self);
            use_type_invariant(other);
            lemma_pairs_len(pairs);
            lemma_pairs_len(mesh_pairs(other.entries@));
        }
        if self.entries.len() != other.entries.len() {
            return false;
        }
        let mut i: usize = 0;
        while i < self.entries.len()
            invariant
                pairs == mesh_pairs(self.entries@),
                distinct_keys(pairs),
                i <= self.entries@.len(),
                forall|j: int|
                    0 <= j < i ==> #[trigger] other@.dom().contains(pairs[j].0) && other@[pairs[j].0]
                        == pairs[j].1,
            decreases self.entries@.len() - i,
        {
            let e = &self.entries[i];
            proof {
                lemma_pairs_value(pairs, i as int);
            }
            match other.get(&e.topic) {
                None => {
                    return false;
                },
                Some(p) => {
                    if !strings_equal(&e.peers, p) {
                        return false;
                    }
                },
            }
            assert forall|j: int| 0 <= j < i + 1 implies #[trigger] other@.dom().contains(pairs[j].0)
                && other@[pairs[j].0] == pairs[j].1 by {
                if j == i {
                    assert(pairs[j] == (e.topic@, views(e.peers@)));
                }
            }
            i = i + 1;
        }
        proof {
            let a = self@;
            let b = other@;
            assert forall|k: Seq<char>| a.dom().contains(k) implies #[trigger] b.dom().contains(k)
                && a[k] == b[k] by {
                lemma_pairs_dom(pairs, k);
                let j = choose|j: int| 0 <= j < pairs.len() && (#[trigger] pairs[j]).0 == k;
                lemma_pairs_value(pairs, j);
            }
            lemma_pairs_dom(pairs, Seq::<char>::empty());
            lemma_pairs_dom(mesh_pairs(other.entries@), Seq::<char>::empty());
            vstd::set_lib::lemma_subset_equality(a.dom(), b.dom());
            assert(a =~= b);
        }
        true
    }
}

} // verus!
