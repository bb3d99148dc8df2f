use vstd::prelude::*;
use crate::error::Error;
use crate::field::{is_canonical, le_value, field_modulus};
use crate::poseidon::{poseidon_of, Poseidon};
use crate::root_history::{recent, zero_element, RootHistory, ROOT_HISTORY_SIZE};

verus! {

/// The deepest tree supported: leaf indices are `u32` and must reach `2^levels`.
pub const MAX_LEVELS: u32 = 31;

/// `2^e`.
pub open spec fn two_to(e: nat) -> nat
    decreases e,
{
    if e == 0 {
        1
    } else {
        2 * two_to((e - 1) as nat)
    }
}

/// The parent of two nodes.
pub open spec fn hash_node(left: Seq<u8>, right: Seq<u8>) -> Seq<u8> {
    match poseidon_of(left, right) {
        Some(h) => h,
        None => zero_element(),
    }
}

/// The root of an empty subtree of height `h`: the zero element at the
/// leaves, and above them the parent of two such subtrees.
pub open spec fn zero_at(h: nat) -> Seq<u8>
    decreases h,
{
    if h == 0 {
        zero_element()
    } else {
        hash_node(zero_at((h - 1) as nat), zero_at((h - 1) as nat))
    }
}

/// The node at height `h` and position `j` of the tree whose leaves are
/// `leaves`, every position past them holding the zero element.
pub open spec fn node(leaves: Seq<Seq<u8>>, h: nat, j: nat) -> Seq<u8>
    decreases h,
{
    if j * two_to(h) >= leaves.len() {
        zero_at(h)
    } else if h == 0 {
        leaves[j as int]
    } else {
        hash_node(node(leaves, (h - 1) as nat, 2 * j), node(leaves, (h - 1) as nat, 2 * j + 1))
    }
}

/// The root of the tree of height `levels` over `leaves`.
pub open spec fn merkle_root(levels: nat, leaves: Seq<Seq<u8>>) -> Seq<u8> {
    node(leaves, levels, 0)
}

pub proof fn lemma_two_to_pos(e: nat)
    ensures
        two_to(e) >= 1,
    decreases e,
{
    if e > 0 {
        lemma_two_to_pos((e - 1) as nat);
    }
}

proof fn lemma_two_to_mono(a: nat, b: nat)
    requires
        a <= b,
    ensures
        two_to(a) <= two_to(b),
    decreases b,
{
    if a < b {
        lemma_two_to_mono(a, (b - 1) as nat);
    }
}

pub proof fn lemma_div_unique(x: int, d: int, a: int)
    requires
        d > 0,
        a * d <= x,
        x < (a + 1) * d,
    ensures
        x / d == a,
{
    assert(x / d == a) by (nonlinear_arith)
        requires
            d > 0,
            a * d <= x,
            x < (a + 1) * d,
    ;
}

proof fn lemma_div_bounds(x: int, d: int)
    requires
        x >= 0,
        d > 0,
    ensures
        (x / d) * d <= x,
        x < (x / d + 1) * d,
        x / d >= 0,
{
    vstd::arithmetic::div_mod::lemma_fundamental_div_mod(x, d);
    vstd::arithmetic::div_mod::lemma_mod_pos_bound(x, d);
    vstd::arithmetic::div_mod::lemma_div_pos_is_pos(x, d);
    assert((x / d) * d <= x && x < (x / d + 1) * d) by (nonlinear_arith)
        requires
            x == d * (x / d) + x % d,
            0 <= x % d < d,
    ;
}

/// `x / 2^(i+1)` is half of `x / 2^i`.
proof fn lemma_div_next(x: int, i: nat)
    requires
        x >= 0,
    ensures
        x / (two_to(i + 1) as int) == (x / (two_to(i) as int)) / 2,
{
    lemma_two_to_pos(i);
    let d = two_to(i) as int;
    assert(two_to(i + 1) == 2 * two_to(i));
    vstd::arithmetic::div_mod::lemma_div_denominator(x, d, 2);
    assert(d * 2 == two_to(i + 1));
}

/// A node over leaves all present keeps its value when a leaf is appended.
proof fn lemma_node_append(leaves: Seq<Seq<u8>>, x: Seq<u8>, h: nat, j: nat)
    requires
        (j + 1) * two_to(h) <= leaves.len(),
    ensures
        node(leaves.push(x), h, j) == node(leaves, h, j),
    decreases h,
{
    lemma_two_to_pos(h);
    assert(j * two_to(h) < leaves.len()) by (nonlinear_arith)
        requires
            (j + 1) * two_to(h) <= leaves.len(),
            two_to(h) >= 1,
    ;
    assert(!(j * two_to(h) >= leaves.push(x).len()));
    if h == 0 {
        assert(leaves.push(x)[j as int] == leaves[j as int]);
    } else {
        let t = two_to((h - 1) as nat);
        assert(two_to(h) == 2 * t);
        assert((2 * j + 1 + 1) * t == (j + 1) * two_to(h)) by (nonlinear_arith)
            requires
                two_to(h) == 2 * t,
        ;
        assert((2 * j + 1) * t <= (2 * j + 1 + 1) * t) by (nonlinear_arith)
            requires
                t >= 0,
        ;
        lemma_node_append(leaves, x, (h - 1) as nat, 2 * j);
        lemma_node_append(leaves, x, (h - 1) as nat, 2 * j + 1);
    }
}

/// One level of an insertion: the node on the path of leaf `n` at height
/// `i + 1` is the parent of the path node at height `i` and its sibling.
proof fn lemma_insert_step(l1: Seq<Seq<u8>>, leaf: Seq<u8>, i: nat, left: Seq<u8>, right: Seq<u8>, h: Seq<u8>)
    requires
        ({
            let n = l1.len() as int;
            let q = n / (two_to(i) as int);
            let l2 = l1.push(leaf);
            &&& poseidon_of(left, right) == Some(h)
            &&& q % 2 == 0 ==> left == node(l2, i, q as nat) && right == zero_at(i)
            &&& q % 2 == 1 ==> left == node(l1, i, (q - 1) as nat) && right == node(l2, i, q as nat)
        }),
    ensures
        h == node(l1.push(leaf), i + 1, ((l1.len() as int / (two_to(i) as int)) / 2) as nat),
{
    let n = l1.len() as int;
    let d = two_to(i) as int;
    let q = n / d;
    let l2 = l1.push(leaf);
    let j = q / 2;
    lemma_two_to_pos(i);
    lemma_div_bounds(n, d);
    lemma_div_bounds(q, 2);
    assert(two_to(i + 1) == 2 * two_to(i));
    assert(j * two_to(i + 1) <= q * d) by (nonlinear_arith)
        requires
            j * 2 <= q,
            two_to(i + 1) == 2 * d,
            d >= 1,
    ;
    assert(!(j * two_to(i + 1) >= l2.len()));
    if q % 2 == 0 {
        assert(q == 2 * j);
        assert((q + 1) * d >= l2.len());
        assert(node(l2, i, (q + 1) as nat) == zero_at(i));
    } else {
        assert(q == 2 * j + 1);
        lemma_node_append(l1, leaf, i, (q - 1) as nat);
    }
}

/// After leaf `n` is inserted, the filled subtree of each level where the new
/// count has an odd quotient is the left sibling of the path.
proof fn lemma_filled_after_insert(l1: Seq<Seq<u8>>, leaf: Seq<u8>, k: nat, before: Seq<u8>, after: Seq<u8>)
    requires
        ({
            let n = l1.len() as int;
            let q = n / (two_to(k) as int);
            &&& q % 2 == 1 ==> before == node(l1, k, (q - 1) as nat)
            &&& after == (if q % 2 == 0 { node(l1.push(leaf), k, q as nat) } else { before })
        }),
        ((l1.len() + 1) as int / (two_to(k) as int)) % 2 == 1,
    ensures
        after == node(l1.push(leaf), k, (((l1.len() + 1) as int / (two_to(k) as int)) - 1) as nat),
{
    let n = l1.len() as int;
    let d = two_to(k) as int;
    let q = n / d;
    let q2 = (n + 1) / d;
    lemma_two_to_pos(k);
    lemma_div_bounds(n, d);
    if (n + 1) < (q + 1) * d {
        lemma_div_unique(n + 1, d, q);
    } else {
        assert((q + 1 + 1) * d == (q + 1) * d + d) by (nonlinear_arith);
        lemma_div_unique(n + 1, d, q + 1);
    }
    if q % 2 == 1 {
        assert(q2 == q);
        lemma_node_append(l1, leaf, k, (q - 1) as nat);
    }
}

proof fn lemma_le_value_zero(b: Seq<u8>)
    requires
        forall|i: int| 0 <= i < b.len() ==> b[i] == 0u8,
    ensures
        le_value(b) == 0,
    decreases b.len(),
{
    if b.len() > 0 {
        lemma_le_value_zero(b.drop_first());
    }
}

/// The table of empty-subtree roots: entry `h` is `zero_at(h)`, for every
/// height up to `levels`.
pub fn zero_table(levels: u32) -> (r: Vec<[u8; 32]>)
    ensures
        r@.len() == levels + 1,
        forall|h: int| 0 <= h <= levels ==> (#[trigger] r@[h])@ == zero_at(h as nat) && is_canonical(r@[h]@),
{
    let hasher = Poseidon::new();
    let mut table: Vec<[u8; 32]> = Vec::new();
    let z = [0u8; 32];
    assert(z@ =~= zero_element());
    proof {
        lemma_le_value_zero(z@);
    }
    table.push(z);
    let mut current = z;
    let mut i: u32 = 0;
    while i < levels
        invariant
            i <= levels,
            table@.len() == i + 1,
            current == table@[i as int],
            forall|h: int| 0 <= h <= i ==> (#[trigger] table@[h])@ == zero_at(h as nat) && is_canonical(table@[h]@),
        decreases levels - i,
    {
        let next = match hasher.hash_left_right(&current, &current) {
            Ok(h) => h,
            Err(_) => {
                proof {
                    assert(false);
                }
                current
            },
        };
        table.push(next);
        current = next;
        i = i + 1;
    }
    table
}

/// Computes `2^e`.
fn two_pow(e: u32) -> (r: u64)
    requires
        e <= 32,
    ensures
        r == two_to(e as nat),
{
    let mut r: u64 = 1;
    let mut i: u32 = 0;
    while i < e
        invariant
            i <= e,
            e <= 32,
            r == two_to(i as nat),
        decreases e - i,
    {
        proof {
            lemma_two_to_mono(i as nat + 1, 32);
            reveal_with_fuel(two_to, 33);
            assert(two_to(32) == 0x1_0000_0000);
        }
        r = r * 2;
        i = i + 1;
    }
    r
}

/// An append-only Merkle tree of fixed height over 32-byte field elements.
/// It keeps, for each level, the last left child completed there, and the
/// roots of its last `ROOT_HISTORY_SIZE` states.
pub struct MerkleTree {
    levels: u32,
    next_index: u32,
    filled_subtrees: Vec<[u8; 32]>,
    zeros: Vec<[u8; 32]>,
    roots: RootHistory,
    hasher: Poseidon,
    leaves: Ghost<Seq<Seq<u8>>>,
}

impl MerkleTree {
    /// The leaves inserted so far, in order.
    pub closed spec fn leaves(&self) -> Seq<Seq<u8>> {
        self.leaves@
    }

    pub closed spec fn spec_levels(&self) -> nat {
        self.levels as nat
    }

    /// Whether no further leaf fits.
    pub open spec fn is_full(&self) -> bool {
        self.leaves().len() >= two_to(self.spec_levels())
    }

    /// The root of the tree after each insertion, oldest first.
    pub open spec fn root_sequence(&self) -> Seq<Seq<u8>> {
        Seq::new(self.leaves().len(), |k: int| merkle_root(self.spec_levels(), self.leaves().subrange(0, k + 1)))
    }

    /// The root of the current tree.
    pub open spec fn current_root(&self) -> Seq<u8> {
        merkle_root(self.spec_levels(), self.leaves())
    }

    /// Whether `root` is the root the tree had after one of its last
    /// `ROOT_HISTORY_SIZE` insertions; the zero element never is.
    pub open spec fn knows_root(&self, root: Seq<u8>) -> bool {
        root != zero_element() && recent(self.root_sequence()).contains(root)
    }

    pub closed spec fn wf(&self) -> bool {
        let n = self.leaves@.len() as int;
        &&& self.levels <= MAX_LEVELS
        &&& self.next_index == n
        &&& n <= two_to(self.levels as nat)
        &&& self.zeros@.len() == self.levels + 1
        &&& forall|h: int| 0 <= h <= self.levels ==>
            (#[trigger] self.zeros@[h])@ == zero_at(h as nat) && is_canonical(self.zeros@[h]@)
        &&& self.filled_subtrees@.len() == self.levels
        &&& forall|h: int| 0 <= h < self.levels ==> is_canonical((#[trigger] self.filled_subtrees@[h])@)
        &&& forall|h: int| 0 <= h < self.levels ==> (n / (two_to(h as nat) as int)) % 2 == 1 ==>
            (#[trigger] self.filled_subtrees@[h])@ == node(self.leaves@, h as nat, (n / (two_to(h as nat) as int) - 1) as nat)
        &&& self.roots.wf()
        &&& self.roots.pushed() == self.root_sequence()
    }

    /// An empty tree of height `levels`.
    pub fn new(levels: u32) -> (r: MerkleTree)
        requires
            levels <= MAX_LEVELS,
        ensures
            r.wf(),
            r.spec_levels() == levels,
            r.leaves() == Seq::<Seq<u8>>::empty(),
    {
        let zeros = zero_table(levels);
        let mut filled: Vec<[u8; 32]> = Vec::new();
        let mut i: u32 = 0;
        while i < levels
            invariant
                i <= levels,
                zeros@.len() == levels + 1,
                forall|h: int| 0 <= h <= levels ==> (#[trigger] zeros@[h])@ == zero_at(h as nat) && is_canonical(zeros@[h]@),
                filled@.len() == i,
                forall|h: int| 0 <= h < i ==> (#[trigger] filled@[h]) == zeros@[h],
            decreases levels - i,
        {
            filled.push(zeros[i as usize]);
            i = i + 1;
        }
        let t = MerkleTree {
            levels,
            next_index: 0,
            filled_subtrees: filled,
            zeros,
            roots: RootHistory::new(),
            hasher: Poseidon::new(),
            leaves: Ghost(Seq::empty()),
        };
        proof {
            lemma_two_to_pos(levels as nat);
            assert forall|h: int| 0 <= h < levels implies is_canonical((#[trigger] t.filled_subtrees@[h])@) by {
                assert(t.filled_subtrees@[h] == t.zeros@[h]);
            }
            assert forall|h: int| 0 <= h < levels implies (0int / (#[trigger] two_to(h as nat) as int)) % 2 != 1 by {
                lemma_two_to_pos(h as nat);
            }
            assert(t.roots.pushed() =~= t.root_sequence());
        }
        t
    }

    /// The height of the tree.
    pub fn levels(&self) -> (r: u32)
        ensures
            r == self.spec_levels(),
    {
        self.levels
    }

    /// How many leaves the tree can hold: `2^levels`.
    pub fn capacity(&self) -> (r: u64)
        requires
            self.wf(),
        ensures
            r == two_to(self.spec_levels()),
    {
        two_pow(self.levels)
    }

    /// The index the next leaf will get: the number of leaves.
    pub fn next_index(&self) -> (r: u32)
        requires
            self.wf(),
        ensures
            r == self.leaves().len(),
            r <= two_to(self.spec_levels()),
    {
        self.next_index
    }

    /// The latest root: the root of the current tree, or the zero element
    /// while the tree is empty.
    pub fn get_last_root(&self) -> (r: [u8; 32])
        requires
            self.wf(),
        ensures
            self.leaves().len() == 0 ==> r@ == zero_element(),
            self.leaves().len() > 0 ==> r@ == self.current_root(),
    {
        proof {
            assert(self.leaves().subrange(0, self.leaves().len() as int) =~= self.leaves());
        }
        self.roots.latest_root()
    }

    /// Whether `root` is the root of one of the last `ROOT_HISTORY_SIZE` states
    /// of the tree; the zero element never is.
    pub fn is_known_root(&self, root: [u8; 32]) -> (r: bool)
        requires
            self.wf(),
        ensures
            r == self.knows_root(root@),
    {
        self.roots.contains(&root)
    }

    /// Appends `leaf` and returns its index. The path from the new leaf to the
    /// root is hashed level by level: a node that is a left child is paired
    /// with the empty subtree on its right, and becomes the filled subtree of
    /// its level; a right child is paired with the filled subtree on its left.
    /// The new root enters the root history.
    #[verifier::rlimit(60)]
    pub fn insert(&mut self, leaf: [u8; 32]) -> (r: Result<u32, Error>)
        requires
            old(self).wf(),
        ensures
            final(self).wf(),
            final(self).spec_levels() == old(self).spec_levels(),
            old(self).is_full() ==> r == Err::<u32, Error>(Error::TreeFull) && *final(self) == *old(self),
            !old(self).is_full() && old(self).spec_levels() > 0 && !is_canonical(leaf@) ==> r == Err::<u32, Error>(
                Error::HashError,
            ) && *final(self) == *old(self),
            !old(self).is_full() && (old(self).spec_levels() == 0 || is_canonical(leaf@)) ==> r == Ok::<u32, Error>(
                old(self).leaves().len() as u32,
            ) && final(self).leaves() == old(self).leaves().push(leaf@),
    {
        let n = self.next_index;
        let cap = two_pow(self.levels);
        if n as u64 == cap {
            return Err(Error::TreeFull);
        }
        let ghost lv = self.levels as nat;
        let ghost l1 = self.leaves@;
        let ghost l2 = l1.push(leaf@);
        let ghost old_filled = self.filled_subtrees@;
        let ghost old_self = *self;
        proof {
            assert(two_to(0) == 1);
            assert(n as int / 1int == n as int);
            lemma_two_to_mono(lv, 31);
            reveal_with_fuel(two_to, 32);
            assert(two_to(31) == 0x8000_0000);
        }
        let mut current_index = n;
        let mut current = leaf;
        let mut i: u32 = 0;
        while i < self.levels
            invariant
                old_self.wf(),
                old_self == *old(self),
                i == 0 ==> *self == old_self,
                i > 0 ==> is_canonical(leaf@),
                i == 0 ==> current == leaf,
                self.levels == old_self.levels,
                self.next_index == old_self.next_index,
                self.zeros == old_self.zeros,
                self.roots == old_self.roots,
                self.leaves == old_self.leaves,
                lv == self.levels,
                l1 == self.leaves@,
                l2 == l1.push(leaf@),
                old_filled == old_self.filled_subtrees@,
                n == l1.len(),
                n < two_to(lv),
                i <= lv,
                current_index as int == n as int / (two_to(i as nat) as int),
                current@ == node(l2, i as nat, (n as int / (two_to(i as nat) as int)) as nat),
                i > 0 ==> is_canonical(current@),
                self.filled_subtrees@.len() == lv,
                forall|k: int| 0 <= k < lv ==> is_canonical((#[trigger] self.filled_subtrees@[k])@),
                forall|k: int| 0 <= k < i ==> (#[trigger] self.filled_subtrees@[k])@ == (if (n as int / (two_to(k as nat) as int)) % 2 == 0 {
                    node(l2, k as nat, (n as int / (two_to(k as nat) as int)) as nat)
                } else {
                    old_filled[k]@
                }),
                forall|k: int| i <= k < lv ==> #[trigger] self.filled_subtrees@[k] == old_filled[k],
            decreases lv - i,
        {
            let is_left = current_index % 2 == 0;
            let left: [u8; 32];
            let right: [u8; 32];
            proof {
                lemma_two_to_pos(i as nat);
                lemma_div_bounds(n as int, two_to(i as nat) as int);
            }
            if is_left {
                left = current;
                right = self.zeros[i as usize];
                assert(is_canonical(old_self.zeros@[i as int]@));
            } else {
                left = self.filled_subtrees[i as usize];
                right = current;
                assert(is_canonical(self.filled_subtrees@[i as int]@));
                assert(old_self.filled_subtrees@[i as int] == left);
            }
            let h = match self.hasher.hash_left_right(&left, &right) {
                Ok(h) => h,
                Err(_) => {
                    assert(i == 0);
                    return Err(Error::HashError);
                },
            };
            if is_left {
                self.filled_subtrees.set(i as usize, current);
            }
            proof {
                lemma_insert_step(l1, leaf@, i as nat, left@, right@, h@);
                lemma_div_next(n as int, i as nat);
            }
            current = h;
            current_index = current_index / 2;
            i = i + 1;
        }
        proof {
            let d = two_to(lv) as int;
            lemma_two_to_pos(lv);
            lemma_div_unique(n as int, d, 0);
        }
        self.roots.push(current);
        self.next_index = n + 1;
        self.leaves = Ghost(l2);
        proof {
            assert(self.roots.pushed() =~= self.root_sequence()) by {
                assert forall|k: int| 0 <= k < n implies #[trigger] l2.subrange(0, k + 1) == l1.subrange(0, k + 1) by {
                    assert(l2.subrange(0, k + 1) =~= l1.subrange(0, k + 1));
                }
                assert(l2.subrange(0, n + 1) =~= l2);
            }
            assert forall|k: int| 0 <= k < lv && ((n + 1) as int / (two_to(k as nat) as int)) % 2 == 1 implies
                (#[trigger] self.filled_subtrees@[k])@ == node(l2, k as nat, ((n + 1) as int / (two_to(k as nat) as int) - 1) as nat) by {
                lemma_filled_after_insert(l1, leaf@, k as nat, old_filled[k]@, self.filled_subtrees@[k]@);
            }
        }
        Ok(n)
    }
}

} // verus!
