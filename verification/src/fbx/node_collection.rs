use vstd::prelude::*;
use crate::fbx::node::{NodeRecord, NodeView};

verus! {

#[verifier::external_type_specification]
#[verifier::external_body]
#[verifier::reject_recursive_types(K)]
#[verifier::reject_recursive_types(V)]
#[verifier::reject_recursive_types(S)]
pub struct ExMultiMap<K, V, S>(multimap::MultiMap<K, V, S>);

/// What a name index holds: for each key, the values stored under it, in
/// insertion order.
pub uninterp spec fn mm_contents(m: multimap::MultiMap<String, usize>) -> Map<
    Seq<char>,
    Seq<usize>,
>;

/// Relies on `multimap::MultiMap::new`: a fresh multimap holds nothing.
#[verifier::external_body]
fn mm_new() -> (r: multimap::MultiMap<String, usize>)
    ensures
        mm_contents(r).dom() == Set::<Seq<char>>::empty(),
{
    multimap::MultiMap::new()
}

/// Relies on `multimap::MultiMap::insert`: the value is pushed onto the
/// key's vector, which is created with just this value when the key is
/// new.
#[verifier::external_body]
fn mm_insert(m: &mut multimap::MultiMap<String, usize>, key: String, value: usize)
    ensures
        mm_contents(*final(m)) == (if mm_contents(*old(m)).dom().contains(key@) {
            mm_contents(*old(m)).insert(key@, mm_contents(*old(m))[key@].push(value))
        } else {
            mm_contents(*old(m)).insert(key@, seq![value])
        }),
{
    m.insert(key, value);
}

/// Relies on `multimap::MultiMap::get`: the first value in the vector
/// stored under the key, or nothing when the key is absent or its vector
/// is empty.
#[verifier::external_body]
fn mm_get(m: &multimap::MultiMap<String, usize>, key: &str) -> (r: Option<usize>)
    ensures
        match r {
            Some(v) => mm_contents(*m).dom().contains(key@) && mm_contents(*m)[key@].len() > 0
                && v == mm_contents(*m)[key@][0],
            None => !mm_contents(*m).dom().contains(key@) || mm_contents(*m)[key@].len() == 0,
        },
{
    m.get(key).copied()
}

/// Relies on `multimap::MultiMap::get_vec`: the whole vector stored under
/// the key, or nothing when the key is absent.
#[verifier::external_body]
fn mm_get_vec(m: &multimap::MultiMap<String, usize>, key: &str) -> (r: Option<Vec<usize>>)
    ensures
        match r {
            Some(v) => mm_contents(*m).dom().contains(key@) && v@ == mm_contents(*m)[key@],
            None => !mm_contents(*m).dom().contains(key@),
        },
{
    m.get_vec(key).cloned()
}

/// How a lookup in a `NodeCollection` can fail.
#[derive(Debug, PartialEq)]
pub enum Error {
    MultipleValuesExist,
    NoSuchNode,
}

/// The positions of the records named `k` in `s`, in increasing order.
pub open spec fn positions_of(s: Seq<NodeView>, k: Seq<char>) -> Seq<int>
    decreases s.len(),
{
    if s.len() == 0 {
        Seq::empty()
    } else {
        let rest = positions_of(s.drop_last(), k);
        if s.last().name == k {
            rest.push(s.len() - 1)
        } else {
            rest
        }
    }
}

/// Every position named by `positions_of` lies in range and carries the
/// looked-up name.
pub proof fn lemma_positions_of_bounds(s: Seq<NodeView>, k: Seq<char>)
    ensures
        forall|j: int|
            0 <= j < positions_of(s, k).len() ==> 0 <= #[trigger] positions_of(s, k)[j] < s.len()
                && s[positions_of(s, k)[j]].name == k,
    decreases s.len(),
{
    if s.len() > 0 {
        lemma_positions_of_bounds(s.drop_last(), k);
        let ps = positions_of(s, k);
        let rest = positions_of(s.drop_last(), k);
        assert forall|j: int| 0 <= j < ps.len() implies 0 <= ps[j] < s.len() && s[ps[j]].name
            == k by {
            if j < rest.len() {
                assert(ps[j] == rest[j]);
                assert(s.drop_last()[rest[j]] == s[rest[j]]);
            } else {
                assert(s.last() == s[s.len() - 1]);
                assert(ps[j] == s.len() - 1);
            }
        }
    }
}

/// Appending one record extends the position list of its own name by its
/// position and leaves every other name's list unchanged.
pub proof fn lemma_positions_of_push(s: Seq<NodeView>, n: NodeView, k: Seq<char>)
    ensures
        positions_of(s.push(n), k) == (if n.name == k {
            positions_of(s, k).push(s.len() as int)
        } else {
            positions_of(s, k)
        }),
{
    assert(s.push(n).drop_last() =~= s);
    assert(s.push(n).last() == n);
}

/// A name-indexed, insertion-order-preserving view over one set of sibling
/// records: each record is stored once, and looked up by its name.
pub struct NodeCollection<'a> {
    nodes: Vec<&'a NodeRecord>,
    index: multimap::MultiMap<String, usize>,
}

impl<'a> NodeCollection<'a> {
    /// The records of this collection, in insertion order.
    pub closed spec fn view(&self) -> Seq<NodeView> {
        Seq::new(self.nodes@.len(), |i: int| self.nodes@[i]@)
    }

    /// The name index lists exactly the positions of each name, in
    /// increasing order.
    pub closed spec fn wf(&self) -> bool {
        &&& forall|k: Seq<char>|
            #[trigger] mm_contents(self.index).dom().contains(k) <==> positions_of(
                self.view(),
                k,
            ).len() > 0
        &&& forall|k: Seq<char>|
            mm_contents(self.index).dom().contains(k) ==> (
            #[trigger] mm_contents(self.index)[k]).len() == positions_of(self.view(), k).len()
                && forall|j: int|
                0 <= j < positions_of(self.view(), k).len() ==> mm_contents(self.index)[k][j]
                    == #[trigger] positions_of(self.view(), k)[j]
    }

    /// Creates an empty collection.
    pub fn new() -> (r: NodeCollection<'a>)
        ensures
            r@ == Seq::<NodeView>::empty(),
            r.wf(),
    {
        let r = NodeCollection { nodes: Vec::new(), index: mm_new() };
        proof {
            assert(r@ =~= Seq::<NodeView>::empty());
        }
        r
    }

    /// Adds one record at the end of the collection, indexed by its name.
    pub fn insert(&mut self, node: &'a NodeRecord)
        requires
            old(self).wf(),
        ensures
            final(self)@ == old(self)@.push(node@),
            final(self).wf(),
    {
        let ghost old_view = self.view();
        let position = self.nodes.len();
        mm_insert(&mut self.index, node.name.clone(), position);
        self.nodes.push(node);
        proof {
            assert(self.view() =~= old_view.push(node@));
            assert forall|k: Seq<char>| true implies positions_of(self.view(), k) == (if node@.name
                == k {
                positions_of(old_view, k).push(old_view.len() as int)
            } else {
                positions_of(old_view, k)
            }) by {
                lemma_positions_of_push(old_view, node@, k);
            }
        }
    }

    /// Hands out the first record stored under `name`, or reports that no
    /// record carries that name.
    pub fn get(&self, name: &str) -> (r: Result<&'a NodeRecord, Error>)
        requires
            self.wf(),
        ensures
            match r {
                Ok(node) => positions_of(self@, name@).len() > 0 && node@ == self@[positions_of(
                    self@,
                    name@,
                )[0]],
                Err(e) => e == Error::NoSuchNode && positions_of(self@, name@).len() == 0,
            },
    {
        proof {
            lemma_positions_of_bounds(self@, name@);
        }
        match mm_get(&self.index, name) {
            Some(i) => {
                proof {
                    assert(mm_contents(self.index)[name@].len() > 0);
                    assert(positions_of(self@, name@).len() > 0);
                    assert(i == positions_of(self@, name@)[0]);
                    assert(0 <= positions_of(self@, name@)[0] < self@.len());
                }
                Ok(self.nodes[i])
            },
            None => Err(Error::NoSuchNode),
        }
    }

    /// Hands out every record stored under `name`, in insertion order, or
    /// nothing when no record carries that name.
    pub fn get_multiple(&self, name: &str) -> (r: Option<Vec<&'a NodeRecord>>)
        requires
            self.wf(),
        ensures
            match r {
                Some(v) => {
                    let ps = positions_of(self@, name@);
                    ps.len() > 0 && v@.len() == ps.len() && forall|j: int|
                        0 <= j < ps.len() ==> #[trigger] v@[j]@ == self@[ps[j]]
                },
                None => positions_of(self@, name@).len() == 0,
            },
    {
        proof {
            lemma_positions_of_bounds(self@, name@);
        }
        match mm_get_vec(&self.index, name) {
            Some(indices) => {
                proof {
                    assert forall|t: int| 0 <= t < indices@.len() implies indices@[t]
                        == positions_of(self@, name@)[t] by {
                        let p = positions_of(self@, name@)[t];
                        assert(mm_contents(self.index)[name@][t] == p);
                    }
                }
                let mut out: Vec<&'a NodeRecord> = Vec::new();
                let mut j: usize = 0;
                while j < indices.len()
                    invariant
                        self.wf(),
                        j <= indices@.len(),
                        mm_contents(self.index).dom().contains(name@),
                        indices@ == mm_contents(self.index)[name@],
                        indices@.len() == positions_of(self@, name@).len(),
                        forall|t: int|
                            0 <= t < indices@.len() ==> indices@[t] == #[trigger] positions_of(
                                self@,
                                name@,
                            )[t],
                        out@.len() == j,
                        forall|t: int|
                            0 <= t < j ==> #[trigger] out@[t]@ == self@[positions_of(
                                self@,
                                name@,
                            )[t]],
                    decreases indices@.len() - j,
                {
                    proof {
                        lemma_positions_of_bounds(self@, name@);
                        assert(indices@[j as int] == positions_of(self@, name@)[j as int]);
                        assert(0 <= positions_of(self@, name@)[j as int] < self@.len());
                    }
                    out.push(self.nodes[indices[j]]);
                    j = j + 1;
                }
                Some(out)
            },
            None => None,
        }
    }
}

} // verus!
