use vstd::prelude::*;

verus! {

/// Number of roots a history remembers.
pub const ROOT_HISTORY_SIZE: u32 = 100;

/// The zero element: an unwritten slot, never a known root.
pub open spec fn zero_element() -> Seq<u8> {
    Seq::new(32, |i: int| 0u8)
}

/// The root pushed `age` pushes ago (0 is the latest), or the zero element
/// where fewer roots were pushed.
pub open spec fn root_of_age(history: Seq<Seq<u8>>, age: int) -> Seq<u8> {
    if 0 <= age < history.len() {
        history[history.len() - 1 - age]
    } else {
        zero_element()
    }
}

/// The roots still remembered: the last `ROOT_HISTORY_SIZE` pushed, oldest first.
pub open spec fn recent(history: Seq<Seq<u8>>) -> Seq<Seq<u8>> {
    if history.len() <= ROOT_HISTORY_SIZE {
        history
    } else {
        history.subrange(history.len() - ROOT_HISTORY_SIZE, history.len() as int)
    }
}

/// The age of the root in `slot` when the latest root is in `current`.
pub open spec fn age_of_slot(current: int, slot: int) -> int {
    (current + ROOT_HISTORY_SIZE - slot) % (ROOT_HISTORY_SIZE as int)
}

/// Whether two field elements are the same bytes.
pub fn same_element(a: &[u8; 32], b: &[u8; 32]) -> (r: bool)
    ensures
        r == (a@ == b@),
{
    let mut i: usize = 0;
    while i < 32
        invariant
            i <= 32,
            forall|j: int| 0 <= j < i ==> a@[j] == b@[j],
        decreases 32 - i,
    {
        if a[i] != b[i] {
            return false;
        }
        i = i + 1;
    }
    assert(a@ =~= b@);
    true
}

/// Whether a field element is the zero element.
pub fn is_zero_element(a: &[u8; 32]) -> (r: bool)
    ensures
        r == (a@ == zero_element()),
{
    let z = [0u8; 32];
    assert(z@ =~= zero_element());
    same_element(a, &z)
}

/// A circular buffer of the last `ROOT_HISTORY_SIZE` roots, each written in the
/// slot after the previous one, wrapping from the last slot to the first.
/// Slots never written hold the zero element.
pub struct RootHistory {
    roots: Vec<[u8; 32]>,
    current_root_index: u32,
    history: Ghost<Seq<Seq<u8>>>,
}

impl RootHistory {
    /// Every root pushed, oldest first.
    pub closed spec fn pushed(&self) -> Seq<Seq<u8>> {
        self.history@
    }

    pub closed spec fn wf(&self) -> bool {
        &&& self.roots@.len() == ROOT_HISTORY_SIZE
        &&& self.current_root_index < ROOT_HISTORY_SIZE
        &&& self.current_root_index == self.history@.len() % (ROOT_HISTORY_SIZE as nat)
        &&& forall|s: int| 0 <= s < ROOT_HISTORY_SIZE ==>
            (#[trigger] self.roots@[s])@ == root_of_age(self.history@, age_of_slot(self.current_root_index as int, s))
    }

    /// Whether `root` is one of the remembered roots; the zero element never is.
    pub open spec fn knows(&self, root: Seq<u8>) -> bool {
        root != zero_element() && recent(self.pushed()).contains(root)
    }

    /// The latest root, or the zero element where none was pushed.
    pub open spec fn latest(&self) -> Seq<u8> {
        root_of_age(self.pushed(), 0)
    }

    /// An empty history.
    pub fn new() -> (r: RootHistory)
        ensures
            r.wf(),
            r.pushed() == Seq::<Seq<u8>>::empty(),
    {
        let mut roots: Vec<[u8; 32]> = Vec::new();
        let mut i: u32 = 0;
        while i < ROOT_HISTORY_SIZE
            invariant
                i <= ROOT_HISTORY_SIZE,
                roots@.len() == i,
                forall|s: int| 0 <= s < i ==> (#[trigger] roots@[s])@ == zero_element(),
            decreases ROOT_HISTORY_SIZE - i,
        {
            let z = [0u8; 32];
            assert(z@ =~= zero_element());
            roots.push(z);
            i = i + 1;
        }
        RootHistory { roots, current_root_index: 0, history: Ghost(Seq::empty()) }
    }

    /// The slot that holds the latest root.
    pub fn current_root_index(&self) -> (r: u32)
        requires
            self.wf(),
        ensures
            r == self.pushed().len() % (ROOT_HISTORY_SIZE as nat),
    {
        self.current_root_index
    }

    /// The latest root, or the zero element where none was pushed.
    pub fn latest_root(&self) -> (r: [u8; 32])
        requires
            self.wf(),
        ensures
            r@ == self.latest(),
    {
        self.roots[self.current_root_index as usize]
    }

    /// Records `root` as the latest root, evicting the oldest one once
    /// `ROOT_HISTORY_SIZE` are held.
    pub fn push(&mut self, root: [u8; 32])
        requires
            old(self).wf(),
        ensures
            final(self).wf(),
            final(self).pushed() == old(self).pushed().push(root@),
    {
        let ghost h = self.history@;
        let ghost cur = self.current_root_index as int;
        let next = (self.current_root_index + 1) % ROOT_HISTORY_SIZE;
        self.roots.set(next as usize, root);
        self.current_root_index = next;
        self.history = Ghost(h.push(root@));
        assert forall|s: int| 0 <= s < ROOT_HISTORY_SIZE implies
            (#[trigger] self.roots@[s])@ == root_of_age(self.history@, age_of_slot(next as int, s)) by {
            if s != next as int {
                assert(age_of_slot(next as int, s) == age_of_slot(cur, s) + 1);
            }
        }
    }

    /// Whether `root` is remembered: the slots are scanned from the latest
    /// root backwards, wrapping from the first slot to the last.
    pub fn contains(&self, root: &[u8; 32]) -> (r: bool)
        requires
            self.wf(),
        ensures
            r == self.knows(root@),
    {
        if is_zero_element(root) {
            return false;
        }
        let ghost h = self.history@;
        let mut i: u32 = self.current_root_index;
        let mut k: u32 = 0;
        while k < ROOT_HISTORY_SIZE
            invariant
                self.wf(),
                h == self.history@,
                root@ != zero_element(),
                k <= ROOT_HISTORY_SIZE,
                i < ROOT_HISTORY_SIZE,
                age_of_slot(self.current_root_index as int, i as int) == k % ROOT_HISTORY_SIZE,
                forall|a: int| 0 <= a < k ==> root_of_age(h, a) != root@,
            decreases ROOT_HISTORY_SIZE - k,
        {
            assert(self.roots@[i as int]@ == root_of_age(h, k as int));
            if same_element(&self.roots[i as usize], root) {
                assert(recent(h).contains(root@)) by {
                    let n = h.len() as int;
                    if n <= ROOT_HISTORY_SIZE {
                        assert(recent(h)[n - 1 - k] == root@);
                    } else {
                        assert(recent(h)[ROOT_HISTORY_SIZE - 1 - k] == root@);
                    }
                }
                return true;
            }
            if i == 0 {
                i = ROOT_HISTORY_SIZE - 1;
            } else {
                i = i - 1;
            }
            k = k + 1;
        }
        assert(!recent(h).contains(root@)) by {
            if recent(h).contains(root@) {
                let j = choose|j: int| 0 <= j < recent(h).len() && recent(h)[j] == root@;
                let n = h.len() as int;
                if n <= ROOT_HISTORY_SIZE {
                    assert(root_of_age(h, n - 1 - j) == root@);
                } else {
                    assert(root_of_age(h, ROOT_HISTORY_SIZE - 1 - j) == root@);
                }
            }
        }
        false
    }
}

} // verus!
