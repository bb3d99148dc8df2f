use vstd::prelude::*;
use crate::error::Error;
use crate::root_history::{recent, zero_element, RootHistory};

verus! {

/// How far a single update may move a chain's leaf index forward.
pub const MAX_LEAF_INDEX_ADVANCE: u32 = 65536;

/// What this pool knows of the tree of a linked chain.
#[derive(Debug, Clone, Copy, PartialEq, Eq)]
pub struct Edge {
    /// The chain the tree lives on.
    pub chain_id: u64,
    /// The latest root of that tree.
    pub root: [u8; 32],
    /// The index of the latest leaf of that tree.
    pub latest_leaf_index: u32,
    /// The address or identifier of that tree.
    pub target: [u8; 32],
}

/// Whether an update of a chain's edge moves its leaf index strictly forward,
/// and by less than `MAX_LEAF_INDEX_ADVANCE`.
pub open spec fn is_fresh_update(previous: u32, next: u32) -> bool {
    previous < next && next < previous + MAX_LEAF_INDEX_ADVANCE
}

/// The roots of the trees of linked chains, each chain with its own history
/// of recent roots. Chains are kept in the order they were first linked.
pub struct LinkableMerkleTree {
    max_edges: u32,
    chain_id_list: Vec<u64>,
    edges: Vec<Edge>,
    neighbor_roots: Vec<RootHistory>,
}

impl LinkableMerkleTree {
    /// How many chains can be linked.
    pub closed spec fn spec_max_edges(&self) -> nat {
        self.max_edges as nat
    }

    /// The linked chains, in the order they were first linked.
    pub closed spec fn chain_ids(&self) -> Seq<u64> {
        self.chain_id_list@
    }

    /// The latest edge of each linked chain, in the order of `chain_ids`.
    pub closed spec fn edges(&self) -> Seq<Edge> {
        self.edges@
    }

    /// Every root recorded for each linked chain, oldest first, in the order
    /// of `chain_ids`.
    pub closed spec fn root_logs(&self) -> Seq<Seq<Seq<u8>>> {
        self.neighbor_roots@.map_values(|h: RootHistory| h.pushed())
    }

    /// Whether `root` is among the recent roots of chain `chain_id`; the zero
    /// element never is.
    pub open spec fn knows_neighbor_root(&self, chain_id: u64, root: Seq<u8>) -> bool {
        root != zero_element() && exists|i: int|
            0 <= i < self.chain_ids().len() && self.chain_ids()[i] == chain_id
                && #[trigger] recent(self.root_logs()[i]).contains(root)
    }

    /// Whether `roots` gives, position by position, a recent root of each
    /// linked chain, and holds one root for each linked tree but the local one.
    pub open spec fn valid_neighbor_roots(&self, roots: Seq<Seq<u8>>) -> bool {
        &&& roots.len() == self.spec_max_edges() - 1
        &&& self.chain_ids().len() <= roots.len()
        &&& forall|i: int| 0 <= i < self.chain_ids().len() ==> #[trigger] self.knows_neighbor_root(self.chain_ids()[i], roots[i])
    }

    pub closed spec fn wf(&self) -> bool {
        let n = self.chain_id_list@.len();
        &&& n <= self.max_edges
        &&& self.edges@.len() == n
        &&& self.neighbor_roots@.len() == n
        &&& forall|i: int, j: int| 0 <= i < j < n ==> self.chain_id_list@[i] != self.chain_id_list@[j]
        &&& forall|i: int| 0 <= i < n ==> (#[trigger] self.edges@[i]).chain_id == self.chain_id_list@[i]
        &&& forall|i: int| 0 <= i < n ==> (#[trigger] self.neighbor_roots@[i]).wf()
        &&& forall|i: int| 0 <= i < n ==> (#[trigger] self.neighbor_roots@[i]).pushed().len() > 0
        &&& forall|i: int| 0 <= i < n ==> (#[trigger] self.neighbor_roots@[i]).latest() == self.edges@[i].root@
    }

    /// A registry with no linked chain, that accepts up to `max_edges`.
    pub fn new(max_edges: u32) -> (r: LinkableMerkleTree)
        ensures
            r.wf(),
            r.spec_max_edges() == max_edges,
            r.chain_ids() == Seq::<u64>::empty(),
    {
        LinkableMerkleTree {
            max_edges,
            chain_id_list: Vec::new(),
            edges: Vec::new(),
            neighbor_roots: Vec::new(),
        }
    }

    /// How many chains can be linked.
    pub fn max_edges(&self) -> (r: u32)
        ensures
            r == self.spec_max_edges(),
    {
        self.max_edges
    }

    /// The linked chains, in the order they were first linked.
    pub fn chain_id_list(&self) -> (r: Vec<u64>)
        ensures
            r@ == self.chain_ids(),
    {
        self.chain_id_list.clone()
    }

    /// The position of `chain_id` among the linked chains.
    fn position(&self, chain_id: u64) -> (r: Option<usize>)
        requires
            self.wf(),
        ensures
            match r {
                Some(i) => i < self.chain_ids().len() && self.chain_ids()[i as int] == chain_id,
                None => !self.chain_ids().contains(chain_id),
            },
    {
        let mut i: usize = 0;
        while i < self.chain_id_list.len()
            invariant
                i <= self.chain_id_list@.len(),
                forall|j: int| 0 <= j < i ==> self.chain_id_list@[j] != chain_id,
            decreases self.chain_id_list@.len() - i,
        {
            if self.chain_id_list[i] == chain_id {
                return Some(i);
            }
            i = i + 1;
        }
        None
    }

    /// Records `edge` as the latest state of its chain's tree. A chain already
    /// linked must move its leaf index strictly forward, by less than
    /// `MAX_LEAF_INDEX_ADVANCE`; its root joins that chain's history. A new
    /// chain is linked if fewer than `max_edges` are; its history starts with
    /// its root.
    pub fn update_edge(&mut self, edge: Edge) -> (r: Result<(), Error>)
        requires
            old(self).wf(),
        ensures
            final(self).wf(),
            final(self).spec_max_edges() == old(self).spec_max_edges(),
            final(self).chain_ids().len() <= final(self).spec_max_edges(),
            r is Err ==> *final(self) == *old(self),
            forall|i: int| 0 <= i < old(self).chain_ids().len() && old(self).chain_ids()[i] == edge.chain_id ==> {
                if is_fresh_update(old(self).edges()[i].latest_leaf_index, edge.latest_leaf_index) {
                    &&& r == Ok::<(), Error>(())
                    &&& final(self).chain_ids() == old(self).chain_ids()
                    &&& final(self).edges() == old(self).edges().update(i, edge)
                    &&& final(self).root_logs() == old(self).root_logs().update(i, old(self).root_logs()[i].push(edge.root@))
                } else {
                    r == Err::<(), Error>(Error::StaleOrReplayedEdge)
                }
            },
            !old(self).chain_ids().contains(edge.chain_id) ==> {
                if old(self).chain_ids().len() < old(self).spec_max_edges() {
                    &&& r == Ok::<(), Error>(())
                    &&& final(self).chain_ids() == old(self).chain_ids().push(edge.chain_id)
                    &&& final(self).edges() == old(self).edges().push(edge)
                    &&& final(self).root_logs() == old(self).root_logs().push(seq![edge.root@])
                } else {
                    r == Err::<(), Error>(Error::EdgeListFull)
                }
            },
    {
        match self.position(edge.chain_id) {
            Some(i) => {
                let previous = self.edges[i].latest_leaf_index;
                if !(previous < edge.latest_leaf_index
                    && (edge.latest_leaf_index as u64) < previous as u64 + MAX_LEAF_INDEX_ADVANCE as u64) {
                    return Err(Error::StaleOrReplayedEdge);
                }
                let ghost old_logs = self.root_logs();
                let mut history = self.neighbor_roots.remove(i);
                history.push(edge.root);
                self.neighbor_roots.insert(i, history);
                self.edges.set(i, edge);
                proof {
                    assert(self.root_logs() =~= old_logs.update(i as int, old_logs[i as int].push(edge.root@)));
                }
                Ok(())
            },
            None => {
                if self.chain_id_list.len() >= self.max_edges as usize {
                    return Err(Error::EdgeListFull);
                }
                let ghost old_logs = self.root_logs();
                let mut history = RootHistory::new();
                history.push(edge.root);
                self.chain_id_list.push(edge.chain_id);
                self.edges.push(edge);
                self.neighbor_roots.push(history);
                proof {
                    assert(history.pushed() =~= seq![edge.root@]);
                    assert(self.root_logs() =~= old_logs.push(seq![edge.root@]));
                }
                Ok(())
            },
        }
    }

    /// The latest root of chain `chain_id`.
    pub fn get_latest_neighbor_root(&self, chain_id: u64) -> (r: Result<[u8; 32], Error>)
        requires
            self.wf(),
        ensures
            !self.chain_ids().contains(chain_id) ==> r == Err::<[u8; 32], Error>(Error::ItemNotFound),
            forall|i: int| 0 <= i < self.chain_ids().len() && self.chain_ids()[i] == chain_id ==>
                r == Ok::<[u8; 32], Error>(self.edges()[i].root),
    {
        match self.position(chain_id) {
            Some(i) => Ok(self.edges[i].root),
            None => Err(Error::ItemNotFound),
        }
    }

    /// The latest edge of every linked chain, in the order they were linked.
    pub fn get_latest_neighbor_edges(&self) -> (r: Vec<Edge>)
        ensures
            r@ == self.edges(),
    {
        self.edges.clone()
    }

    /// The latest root of every linked chain, in the order they were linked.
    pub fn get_neighbor_roots(&self) -> (r: Vec<[u8; 32]>)
        requires
            self.wf(),
        ensures
            r@.len() == self.edges().len(),
            forall|i: int| 0 <= i < r@.len() ==> #[trigger] r@[i] == self.edges()[i].root,
    {
        let mut out: Vec<[u8; 32]> = Vec::new();
        let mut i: usize = 0;
        while i < self.edges.len()
            invariant
                i <= self.edges@.len(),
                out@.len() == i,
                forall|j: int| 0 <= j < i ==> #[trigger] out@[j] == self.edges@[j].root,
            decreases self.edges@.len() - i,
        {
            out.push(self.edges[i].root);
            i = i + 1;
        }
        out
    }

    /// Whether `root` is among the recent roots of chain `chain_id`.
    pub fn is_known_neighbor_root(&self, chain_id: u64, root: [u8; 32]) -> (r: bool)
        requires
            self.wf(),
        ensures
            r == self.knows_neighbor_root(chain_id, root@),
    {
        match self.position(chain_id) {
            Some(i) => {
                let r = self.neighbor_roots[i].contains(&root);
                proof {
                    assert(self.root_logs()[i as int] == self.neighbor_roots@[i as int].pushed());
                    if self.knows_neighbor_root(chain_id, root@) {
                        let k = choose|k: int|
                            0 <= k < self.chain_ids().len() && self.chain_ids()[k] == chain_id
                                && #[trigger] recent(self.root_logs()[k]).contains(root@);
                        assert(k == i);
                    }
                }
                r
            },
            None => false,
        }
    }

    /// Whether `roots` holds exactly `max_edges - 1` roots and, position by
    /// position, a recent root of each linked chain.
    pub fn is_valid_neighbor_roots(&self, roots: &[[u8; 32]]) -> (r: bool)
        requires
            self.wf(),
        ensures
            r == self.valid_neighbor_roots(roots@.map_values(|e: [u8; 32]| e@)),
    {
        let ghost rs = roots@.map_values(|e: [u8; 32]| e@);
        if self.max_edges == 0 || roots.len() != (self.max_edges - 1) as usize {
            return false;
        }
        if self.chain_id_list.len() > roots.len() {
            return false;
        }
        let mut i: usize = 0;
        while i < self.chain_id_list.len()
            invariant
                self.wf(),
                rs == roots@.map_values(|e: [u8; 32]| e@),
                self.chain_id_list@.len() <= roots@.len(),
                i <= self.chain_id_list@.len(),
                forall|j: int| 0 <= j < i ==> #[trigger] self.knows_neighbor_root(self.chain_ids()[j], rs[j]),
            decreases self.chain_id_list@.len() - i,
        {
            if !self.is_known_neighbor_root(self.chain_id_list[i], roots[i]) {
                assert(rs[i as int] == roots@[i as int]@);
                assert(!self.knows_neighbor_root(self.chain_ids()[i as int], rs[i as int]));
                return false;
            }
            i = i + 1;
        }
        true
    }
}

/// A well-formed registry has one edge and one root log per linked chain, no
/// more chains than it accepts, each chain once, each edge at its chain's
/// position, and each log ending with its edge's root.
pub proof fn lemma_registry_lengths(t: &LinkableMerkleTree)
    requires
        t.wf(),
    ensures
        t.edges().len() == t.chain_ids().len(),
        t.root_logs().len() == t.chain_ids().len(),
        t.chain_ids().len() <= t.spec_max_edges(),
        forall|i: int, j: int| 0 <= i < j < t.chain_ids().len() ==> t.chain_ids()[i] != t.chain_ids()[j],
        forall|i: int| 0 <= i < t.chain_ids().len() ==> (#[trigger] t.edges()[i]).chain_id == t.chain_ids()[i],
        forall|i: int| 0 <= i < t.chain_ids().len() ==> (#[trigger] t.root_logs()[i]).len() > 0 && t.root_logs()[i].last()
            == t.edges()[i].root@,
{
    assert forall|i: int| 0 <= i < t.chain_ids().len() implies (#[trigger] t.root_logs()[i]).len() > 0
        && t.root_logs()[i].last() == t.edges()[i].root@ by {
        assert(t.root_logs()[i] == t.neighbor_roots@[i].pushed());
    }
}

/// The current root of every linked chain, given position by position, is a
/// valid vector of neighbor roots once it holds one root per linked tree but
/// the local one; a zero root is never known, so none may be zero.
pub proof fn lemma_current_roots_are_valid(t: &LinkableMerkleTree, roots: Seq<Seq<u8>>)
    requires
        t.wf(),
        roots.len() == t.chain_ids().len(),
        roots.len() == t.spec_max_edges() - 1,
        forall|i: int| 0 <= i < roots.len() ==> #[trigger] roots[i] == t.edges()[i].root@,
        forall|i: int| 0 <= i < roots.len() ==> #[trigger] roots[i] != zero_element(),
    ensures
        t.valid_neighbor_roots(roots),
{
    assert forall|i: int| 0 <= i < t.chain_ids().len() implies #[trigger] t.knows_neighbor_root(t.chain_ids()[i], roots[i]) by {
        let log = t.root_logs()[i];
        assert(log == t.neighbor_roots@[i].pushed());
        assert(t.neighbor_roots@[i].latest() == log[log.len() - 1]);
        if log.len() <= 100 {
            assert(recent(log)[log.len() - 1] == roots[i]);
        } else {
            assert(recent(log)[99] == roots[i]);
        }
        assert(recent(t.root_logs()[i]).contains(roots[i]));
    }
}

} // verus!
