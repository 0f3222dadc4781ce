use vstd::prelude::*;

use crate::hash::{zero_spec, FieldElement};

verus! {

/// The largest depth a tree may have.
pub const MAX_DEPTH: u32 = 32;

pub open spec fn pow2(e: nat) -> nat
    decreases e,
{
    if e == 0 {
        1
    } else {
        2 * pow2((e - 1) as nat)
    }
}

/// The leaf at index `i` of a leaf layer: leaves past its end are empty.
pub open spec fn leaf_of(leaves: Seq<FieldElement>, i: int) -> FieldElement {
    if 0 <= i < leaves.len() {
        leaves[i]
    } else {
        zero_spec()
    }
}

/// The leaf layer of an authenticated map from indices to hashes, with the
/// root that the full tree last computed for it.
pub struct SuperficialTree {
    pub leaf_nodes: Vec<FieldElement>,
    pub root: FieldElement,
    pub depth: u32,
}

impl SuperficialTree {
    /// The number of leaves that a tree of this depth has.
    pub open spec fn capacity(&self) -> nat {
        pow2(self.depth as nat)
    }

    pub open spec fn wf(&self) -> bool {
        &&& self.depth <= MAX_DEPTH
        &&& self.leaf_nodes@.len() <= self.capacity()
    }

    /// The leaf at an index.
    pub open spec fn leaf(&self, i: int) -> FieldElement {
        leaf_of(self.leaf_nodes@, i)
    }

    /// An empty tree of the given depth.
    pub fn new(depth: u32) -> (r: SuperficialTree)
        requires
            depth <= MAX_DEPTH,
        ensures
            r.wf(),
            r.depth == depth,
            r.root == zero_spec(),
            forall|i: int| #[trigger] r.leaf(i) == zero_spec(),
    {
        SuperficialTree { leaf_nodes: Vec::new(), root: FieldElement::zero(), depth }
    }

    /// The leaf at `index` (empty past the stored leaves).
    pub fn get_leaf_by_index(&self, index: u64) -> (r: FieldElement)
        ensures
            r == self.leaf(index as int),
    {
        if index < self.leaf_nodes.len() as u64 {
            self.leaf_nodes[index as usize]
        } else {
            FieldElement::zero()
        }
    }

    /// Overwrites the leaf at `index`; every other leaf keeps its value.
    pub fn update_leaf_node(&mut self, leaf_hash: &FieldElement, index: u64)
        requires
            old(self).wf(),
            index < old(self).capacity(),
        ensures
            final(self).wf(),
            final(self).depth == old(self).depth,
            final(self).root == old(self).root,
            forall|i: int| #[trigger] final(self).leaf(i) == if i == index {
                *leaf_hash
            } else {
                old(self).leaf(i)
            },
    {
        proof {
            lemma_pow2_bound(self.depth as nat);
        }
        let idx = index as usize;
        if idx < self.leaf_nodes.len() {
            self.leaf_nodes.set(idx, *leaf_hash);
        } else {
            let ghost old_leaves = self.leaf_nodes@;
            while self.leaf_nodes.len() < idx
                invariant
                    old_leaves == old(self).leaf_nodes@,
                    self.depth == old(self).depth,
                    self.root == old(self).root,
                    idx < self.capacity(),
                    old_leaves.len() <= self.leaf_nodes@.len() <= idx,
                    forall|i: int| #[trigger] leaf_of(self.leaf_nodes@, i) == leaf_of(old_leaves, i),
                decreases idx - self.leaf_nodes@.len(),
            {
                let ghost before = self.leaf_nodes@;
                self.leaf_nodes.push(FieldElement::zero());
                assert forall|i: int| #[trigger] leaf_of(self.leaf_nodes@, i) == leaf_of(old_leaves, i) by {
                    assert(leaf_of(before, i) == leaf_of(old_leaves, i));
                }
            }
            let ghost before = self.leaf_nodes@;
            self.leaf_nodes.push(*leaf_hash);
            assert forall|i: int| #[trigger] leaf_of(self.leaf_nodes@, i) == if i == index {
                *leaf_hash
            } else {
                leaf_of(old_leaves, i)
            } by {
                assert(leaf_of(before, i) == leaf_of(old_leaves, i));
            }
        }
    }

    /// The smallest index whose leaf is empty.
    pub fn first_zero_idx(&self) -> (r: u64)
        requires
            self.wf(),
        ensures
            r <= self.leaf_nodes@.len(),
            self.leaf(r as int) == zero_spec(),
            forall|i: int| 0 <= i < r ==> #[trigger] self.leaf(i) != zero_spec(),
    {
        proof {
            lemma_pow2_bound(self.depth as nat);
        }
        let mut i: usize = 0;
        while i < self.leaf_nodes.len()
            invariant
                i <= self.leaf_nodes@.len(),
                self.leaf_nodes@.len() <= u64::MAX,
                forall|j: int| 0 <= j < i ==> #[trigger] self.leaf(j) != zero_spec(),
            decreases self.leaf_nodes@.len() - i,
        {
            if self.leaf_nodes[i].is_zero() {
                return i as u64;
            }
            i = i + 1;
        }
        i as u64
    }
}

proof fn lemma_pow2_bound(e: nat)
    requires
        e <= 32,
    ensures
        pow2(e) <= 0x1_0000_0000,
{
    lemma_pow2_mono(e, 32);
    reveal_with_fuel(pow2, 33);
}

proof fn lemma_pow2_mono(a: nat, b: nat)
    requires
        a <= b,
    ensures
        pow2(a) <= pow2(b),
    decreases b,
{
    if a < b {
        lemma_pow2_mono(a, (b - 1) as nat);
    }
}

/// A word of a value: `j` from 0 to 3, least significant first.
pub open spec fn word_of(f: FieldElement, j: int) -> u64 {
    if j == 0 {
        f.w0
    } else if j == 1 {
        f.w1
    } else if j == 2 {
        f.w2
    } else {
        f.w3
    }
}

/// The value held by the four words from `at` on.
pub open spec fn element_at(w: Seq<u64>, at: int) -> FieldElement {
    FieldElement { w0: w[at], w1: w[at + 1], w2: w[at + 2], w3: w[at + 3] }
}

/// The disk image of a tree: its depth, the four words of its root, the
/// number of stored leaves, then four words per leaf.
pub open spec fn image_of(depth: u32, root: FieldElement, leaves: Seq<FieldElement>) -> Seq<u64> {
    seq![depth as u64, root.w0, root.w1, root.w2, root.w3, leaves.len() as u64] + Seq::new(
        4 * leaves.len(),
        |k: int| word_of(leaves[k / 4], k % 4),
    )
}

/// What a disk image holds, where it is the image of a well-formed tree:
/// its depth, root and leaves.
pub open spec fn decode_image(w: Seq<u64>) -> Option<(u32, FieldElement, Seq<FieldElement>)> {
    if w.len() >= 6 && w[0] <= MAX_DEPTH && w[5] <= pow2(w[0] as nat) && w.len() == 6 + 4 * w[5] {
        Some((w[0] as u32, element_at(w, 1), Seq::new(w[5] as nat, |i: int| element_at(w, 6 + 4 * i))))
    } else {
        None
    }
}

/// Storing a well-formed tree and loading it back gives the same depth, root
/// and leaves.
pub proof fn lemma_tree_round_trip(t: SuperficialTree)
    requires
        t.wf(),
    ensures
        decode_image(image_of(t.depth, t.root, t.leaf_nodes@)) == Some((t.depth, t.root, t.leaf_nodes@)),
{
    let leaves = t.leaf_nodes@;
    let w = image_of(t.depth, t.root, leaves);
    lemma_pow2_bound(t.depth as nat);
    assert(w[0] == t.depth as u64);
    assert(w[5] == leaves.len());
    assert(element_at(w, 1) == t.root);
    let got = Seq::new(w[5] as nat, |i: int| element_at(w, 6 + 4 * i));
    assert forall|i: int| 0 <= i < leaves.len() implies #[trigger] got[i] == leaves[i] by {
        assert((4 * i) / 4 == i && (4 * i + 1) / 4 == i && (4 * i + 2) / 4 == i && (4 * i + 3) / 4 == i);
        assert((4 * i) % 4 == 0 && (4 * i + 1) % 4 == 1 && (4 * i + 2) % 4 == 2 && (4 * i + 3) % 4 == 3);
    }
    assert(got =~= leaves);
}

impl SuperficialTree {
    /// The words that stand for this tree on disk.
    pub fn to_disk_image(&self) -> (r: Vec<u64>)
        requires
            self.wf(),
        ensures
            r@ == image_of(self.depth, self.root, self.leaf_nodes@),
    {
        proof {
            lemma_pow2_bound(self.depth as nat);
        }
        let mut r: Vec<u64> = Vec::new();
        r.push(self.depth as u64);
        r.push(self.root.w0);
        r.push(self.root.w1);
        r.push(self.root.w2);
        r.push(self.root.w3);
        r.push(self.leaf_nodes.len() as u64);
        let ghost leaves = self.leaf_nodes@;
        let ghost head = r@;
        let mut i: usize = 0;
        while i < self.leaf_nodes.len()
            invariant
                leaves == self.leaf_nodes@,
                i <= leaves.len(),
                head.len() == 6,
                r@ == head + Seq::new(4 * i as nat, |k: int| word_of(leaves[k / 4], k % 4)),
            decreases leaves.len() - i,
        {
            let f = self.leaf_nodes[i];
            r.push(f.w0);
            r.push(f.w1);
            r.push(f.w2);
            r.push(f.w3);
            assert(r@ =~= head + Seq::new(4 * (i + 1) as nat, |k: int| word_of(leaves[k / 4], k % 4)));
            i = i + 1;
        }
        assert(head =~= seq![self.depth as u64, self.root.w0, self.root.w1, self.root.w2, self.root.w3, leaves.len() as u64]);
        r
    }

    /// The tree that a disk image stands for, or `None` where the words are
    /// not the image of a well-formed tree.
    pub fn from_disk_image(words: &Vec<u64>) -> (r: Option<SuperficialTree>)
        ensures
            match decode_image(words@) {
                Some((depth, root, leaves)) => r is Some && r->0.wf() && r->0.depth == depth && r->0.root == root
                    && r->0.leaf_nodes@ == leaves,
                None => r is None,
            },
    {
        if words.len() < 6 || words[0] > MAX_DEPTH as u64 {
            return None;
        }
        let depth = words[0] as u32;
        proof {
            lemma_pow2_bound(depth as nat);
        }
        let n = words[5];
        if n > (1u64 << depth) {
            assert(n > pow2(depth as nat)) by {
                lemma_shift_is_pow2(depth);
            }
            return None;
        }
        assert(n <= pow2(depth as nat)) by {
            lemma_shift_is_pow2(depth);
        }
        let len = words.len();
        let body: usize = len - 6;
        let q: usize = body / 4;
        let rem: usize = body % 4;
        if q as u64 != n || rem != 0 {
            proof {
                if len == 6 + 4 * n {
                    assert(body == 4 * (n as int));
                    assert((4 * (n as int)) / 4 == n && (4 * (n as int)) % 4 == 0) by (nonlinear_arith);
                }
            }
            return None;
        }
        assert(body == 4 * q + rem) by (nonlinear_arith)
            requires
                q == body / 4,
                rem == body % 4,
        ;
        let root = FieldElement { w0: words[1], w1: words[2], w2: words[3], w3: words[4] };
        let mut leaves: Vec<FieldElement> = Vec::new();
        let mut i: usize = 0;
        while i < q
            invariant
                q == n,
                words@.len() == 6 + 4 * n,
                words@.len() <= usize::MAX,
                i <= n,
                leaves@ =~= Seq::new(i as nat, |j: int| element_at(words@, 6 + 4 * j)),
            decreases n - i,
        {
            let at = 6 + 4 * i;
            leaves.push(FieldElement { w0: words[at], w1: words[at + 1], w2: words[at + 2], w3: words[at + 3] });
            i = i + 1;
        }
        Some(SuperficialTree { leaf_nodes: leaves, root, depth })
    }
}

pub(crate) proof fn lemma_shift_is_pow2(d: u32)
    requires
        d <= 32,
    ensures
        (1u64 << d) as nat == pow2(d as nat),
    decreases d,
{
    if d == 0 {
        assert(1u64 << 0u32 == 1) by (bit_vector);
    } else {
        lemma_shift_is_pow2((d - 1) as u32);
        assert((1u64 << d) == 2 * (1u64 << ((d - 1) as u32))) by (bit_vector)
            requires
                1 <= d <= 32,
        ;
    }
}

} // verus!
