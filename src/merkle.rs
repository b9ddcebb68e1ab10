//! A binary Merkle tree over byte-string leaves, kept as layers of nodes that
//! refer to each other by index, and the inclusion proofs it hands out.
//!
//! When a layer has an odd number of nodes its last hash is carried up to the
//! next layer unchanged.
use vstd::prelude::*;

use crate::digest::{hash, merkle_digest};
use crate::octets::{append_bytes, bytes_eq};

verus! {

/// Converts every item of `vec`, in order, through `From`.
pub fn convert_vec_type<T: Clone, A: From<T>>(vec: &[T]) -> (r: Vec<A>)
    ensures
        r@.len() == vec@.len(),
{
    let mut end_vec: Vec<A> = Vec::with_capacity(vec.len());
    let mut i: usize = 0;
    while i < vec.len()
        invariant
            i <= vec@.len(),
            end_vec@.len() == i,
        decreases vec@.len() - i,
    {
        let end_item: A = A::from(vec[i].clone());
        end_vec.push(end_item);
        i = i + 1;
    }
    end_vec
}

/// The parent hash of two adjacent nodes.
pub open spec fn join(l: Seq<u8>, r: Seq<u8>) -> Seq<u8> {
    merkle_digest(l + r)
}

/// The layer above `layer`: adjacent pairs are joined, a trailing odd node is promoted.
pub open spec fn next_layer(layer: Seq<Seq<u8>>) -> Seq<Seq<u8>> {
    Seq::new(
        ((layer.len() + 1) / 2) as nat,
        |i: int|
            if 2 * i + 1 < layer.len() {
                join(layer[2 * i], layer[2 * i + 1])
            } else {
                layer[2 * i]
            },
    )
}

/// The bottom layer: one digest per leaf.
pub open spec fn leaf_layer(leaves: Seq<Seq<u8>>) -> Seq<Seq<u8>> {
    leaves.map_values(|l: Seq<u8>| merkle_digest(l))
}

/// All layers from `layer` up to the single-node root layer.
pub open spec fn layers_from(layer: Seq<Seq<u8>>) -> Seq<Seq<Seq<u8>>>
    decreases layer.len(),
{
    if layer.len() <= 1 {
        seq![layer]
    } else {
        seq![layer] + layers_from(next_layer(layer))
    }
}

/// The layers of the tree over `leaves`.
pub open spec fn merkle_layers(leaves: Seq<Seq<u8>>) -> Seq<Seq<Seq<u8>>> {
    layers_from(leaf_layer(leaves))
}

/// The Merkle root of a non-empty sequence of leaves.
pub open spec fn merkle_root(leaves: Seq<Seq<u8>>) -> Seq<u8> {
    merkle_layers(leaves).last()[0]
}

/// Layers that each join the one below, ending in a single root node.
pub open spec fn layers_wf(ls: Seq<Seq<Seq<u8>>>) -> bool {
    &&& ls.len() >= 1
    &&& forall|k: int| 0 <= k < ls.len() - 1 ==> (#[trigger] ls[k]).len() > 1 && ls[k + 1] == next_layer(ls[k])
    &&& ls.last().len() == 1
}

proof fn lemma_layers_from_wf(layer: Seq<Seq<u8>>)
    requires
        layer.len() >= 1,
    ensures
        layers_wf(layers_from(layer)),
        layers_from(layer)[0] == layer,
    decreases layer.len(),
{
    if layer.len() > 1 {
        let up = next_layer(layer);
        lemma_layers_from_wf(up);
        let ls = layers_from(layer);
        assert forall|k: int| 0 <= k < ls.len() - 1 implies (#[trigger] ls[k]).len() > 1 && ls[k + 1] == next_layer(ls[k]) by {
            if k > 0 {
                assert(ls[k] == layers_from(up)[k - 1]);
            }
        }
    }
}

/// The position of the ancestor, `k` layers up, of the node at position `q`.
pub open spec fn path_index(q: int, k: nat) -> int
    decreases k,
{
    if k == 0 {
        q
    } else {
        path_index(q, (k - 1) as nat) / 2
    }
}

/// One proof step: the hashes of the children of the parent of node `q`.
pub open spec fn proof_step(layer: Seq<Seq<u8>>, q: int) -> (Seq<u8>, Option<Seq<u8>>) {
    let l = 2 * (q / 2);
    (layer[l], if l + 1 < layer.len() { Some(layer[l + 1]) } else { None })
}

/// The proof for the leaf at position `q` of a tree with layers `ls`.
pub open spec fn proof_of(ls: Seq<Seq<Seq<u8>>>, q: int) -> Seq<(Seq<u8>, Option<Seq<u8>>)> {
    if ls.len() == 1 {
        seq![(ls[0][0], None)]
    } else {
        Seq::new((ls.len() - 1) as nat, |k: int| proof_step(ls[k], path_index(q, k as nat)))
    }
}

/// The hash that one proof step stands for; a missing right hash means promotion.
pub open spec fn step_hash(s: (Seq<u8>, Option<Seq<u8>>)) -> Seq<u8> {
    match s.1 {
        Some(r) => join(s.0, r),
        None => s.0,
    }
}

/// Each step's hash is the left hash of the next step, and the last one is `root`.
pub open spec fn proof_holds(p: Seq<(Seq<u8>, Option<Seq<u8>>)>, root: Seq<u8>) -> bool {
    &&& p.len() > 0
    &&& forall|i: int| 0 <= i < p.len() - 1 ==> step_hash(#[trigger] p[i]) == p[i + 1].0
    &&& step_hash(p.last()) == root
}

/// Position of the first occurrence of `h` in `layer`.
pub open spec fn is_first_index(layer: Seq<Seq<u8>>, h: Seq<u8>, q: int) -> bool {
    &&& 0 <= q < layer.len()
    &&& layer[q] == h
    &&& forall|j: int| 0 <= j < q ==> layer[j] != h
}

/// A node of the tree: its hash, its position in its layer, and the positions
/// of its children (in the layer below) and of its parent (in the layer above).
#[derive(Clone, Copy, Debug)]
pub struct Node {
    pub hash: [u8; 28],
    pub index: usize,
    pub left_child_index: usize,
    pub right_child_index: Option<usize>,
    pub parent_index: Option<usize>,
}

/// One layer of the tree.
#[derive(Clone, Debug)]
pub struct TreeLayer(pub Vec<Node>);

impl TreeLayer {
    pub open spec fn hashes(&self) -> Seq<Seq<u8>> {
        self.0@.map_values(|n: Node| n.hash@)
    }
}

/// A Merkle tree: its root and its layers, the leaf digests first.
#[derive(Clone, Debug)]
pub struct MerkleTree {
    pub root: [u8; 28],
    pub layers: Vec<TreeLayer>,
}

impl View for MerkleTree {
    type V = Seq<Seq<Seq<u8>>>;

    open spec fn view(&self) -> Seq<Seq<Seq<u8>>> {
        self.layers@.map_values(|l: TreeLayer| l.hashes())
    }
}

/// Node `i` of layer `k` records its own position and, above the leaves, its children.
pub open spec fn node_links_ok(layers: Seq<TreeLayer>, k: int, i: int) -> bool {
    let n = layers[k].0@[i];
    &&& n.index == i
    &&& k > 0 ==> n.left_child_index == 2 * i
    &&& k > 0 ==> n.right_child_index == if 2 * i + 1 < layers[k - 1].0@.len() {
        Some((2 * i + 1) as usize)
    } else {
        None::<usize>
    }
    &&& k < layers.len() - 1 ==> n.parent_index == Some((i / 2) as usize)
}

impl TreeLayer {
    /// The leaf layer: node `i` holds the digest of leaf `i`.
    fn from_leafs(leafs: &[Vec<u8>]) -> (r: Self)
        ensures
            r.hashes() == leaf_layer(leafs@.map_values(|l: Vec<u8>| l@)),
            forall|i: int| 0 <= i < r.0@.len() ==> (#[trigger] r.0@[i]).index == i,
    {
        let ghost leaves = leafs@.map_values(|l: Vec<u8>| l@);
        let mut nodes: Vec<Node> = Vec::new();
        let mut i: usize = 0;
        while i < leafs.len()
            invariant
                i <= leafs@.len(),
                nodes@.len() == i,
                forall|k: int| 0 <= k < i ==> (#[trigger] nodes@[k]).hash@ == merkle_digest(leafs@[k]@),
                forall|k: int| 0 <= k < i ==> (#[trigger] nodes@[k]).index == k,
            decreases leafs@.len() - i,
        {
            let h = hash(leafs[i].as_slice());
            nodes.push(Node { hash: h, index: i, left_child_index: i, right_child_index: None, parent_index: None });
            i = i + 1;
        }
        let r = TreeLayer(nodes);
        assert(r.hashes() =~= leaf_layer(leaves));
        r
    }

    /// The layer above `layer`; each node of `layer` learns its parent's position.
    fn from_layer(layer: &mut TreeLayer) -> (r: Self)
        requires
            old(layer).0@.len() > 1,
        ensures
            r.hashes() == next_layer(old(layer).hashes()),
            final(layer).0@.len() == old(layer).0@.len(),
            forall|i: int| 0 <= i < final(layer).0@.len() ==> (#[trigger] final(layer).0@[i]) == (Node {
                parent_index: Some((i / 2) as usize),
                ..old(layer).0@[i]
            }),
            forall|i: int| 0 <= i < r.0@.len() ==> {
                &&& (#[trigger] r.0@[i]).index == i
                &&& r.0@[i].left_child_index == 2 * i
                &&& r.0@[i].right_child_index == if 2 * i + 1 < old(layer).0@.len() {
                    Some((2 * i + 1) as usize)
                } else {
                    None::<usize>
                }
            },
    {
        let ghost below = old(layer).hashes();
        let ghost before = old(layer).0@;
        let n = layer.0.len();
        let mut nodes: Vec<Node> = Vec::new();
        let mut i: usize = 0;
        while i < n
            invariant
                n == layer.0@.len(),
                n == before.len(),
                below == before.map_values(|x: Node| x.hash@),
                i <= n,
                i < n ==> i % 2 == 0,
                i % 2 == 1 ==> i == n,
                nodes@.len() == (i + 1) / 2,
                forall|j: int| 0 <= j < n ==> (#[trigger] layer.0@[j]) == (if j < i {
                    Node { parent_index: Some((j / 2) as usize), ..before[j] }
                } else {
                    before[j]
                }),
                forall|k: int| 0 <= k < nodes@.len() ==> (#[trigger] nodes@[k]).hash@ == next_layer(below)[k],
                forall|k: int| 0 <= k < nodes@.len() ==> {
                    &&& (#[trigger] nodes@[k]).index == k
                    &&& nodes@[k].left_child_index == 2 * k
                    &&& nodes@[k].right_child_index == if 2 * k + 1 < n {
                        Some((2 * k + 1) as usize)
                    } else {
                        None::<usize>
                    }
                },
            decreases n - i,
        {
            let pos = nodes.len();
            let left = layer.0[i];
            if i + 1 < n {
                let right = layer.0[i + 1];
                let mut joined: Vec<u8> = Vec::new();
                append_bytes(&mut joined, left.hash.as_slice());
                append_bytes(&mut joined, right.hash.as_slice());
                let h = hash(joined.as_slice());
                nodes.push(Node { hash: h, index: pos, left_child_index: i, right_child_index: Some(i + 1), parent_index: None });
                layer.0[i] = Node { parent_index: Some(pos), ..left };
                layer.0[i + 1] = Node { parent_index: Some(pos), ..right };
                i = i + 2;
            } else {
                nodes.push(Node { hash: left.hash, index: pos, left_child_index: i, right_child_index: None, parent_index: None });
                layer.0[i] = Node { parent_index: Some(pos), ..left };
                i = i + 1;
            }
        }
        let r = TreeLayer(nodes);
        assert(r.hashes() =~= next_layer(below));
        r
    }
}

impl MerkleTree {
    /// The index links between layers agree with the positions of the nodes.
    pub open spec fn wf(&self) -> bool {
        &&& layers_wf(self@)
        &&& self.root@ == self@.last()[0]
        &&& forall|k: int, i: int|
            0 <= k < self.layers@.len() && 0 <= i < self.layers@[k].0@.len() ==> #[trigger] node_links_ok(self.layers@, k, i)
    }

    /// Builds the tree over `leafs`, in order.
    pub fn new(leafs: &[Vec<u8>]) -> (r: Self)
        requires
            leafs@.len() > 0,
        ensures
            r.wf(),
            r@ == merkle_layers(leafs@.map_values(|l: Vec<u8>| l@)),
            r.root@ == merkle_root(leafs@.map_values(|l: Vec<u8>| l@)),
    {
        let ghost leaves = leafs@.map_values(|l: Vec<u8>| l@);
        let ghost full = merkle_layers(leaves);
        let first = TreeLayer::from_leafs(leafs);
        proof {
            lemma_layers_from_wf(leaf_layer(leaves));
        }
        let mut layers: Vec<TreeLayer> = Vec::new();
        layers.push(first);
        while layers[layers.len() - 1].0.len() != 1
            invariant
                1 <= layers@.len() <= full.len(),
                layers_wf(full),
                forall|k: int| 0 <= k < layers@.len() ==> (#[trigger] layers@[k]).hashes() == full[k],
                forall|k: int, i: int|
                    0 <= k < layers@.len() && 0 <= i < layers@[k].0@.len() ==> #[trigger] node_links_ok(layers@, k, i),
            decreases full.len() - layers@.len(),
        {
            let ghost old_layers = layers@;
            let top = layers.len() - 1;
            assert(layers@[top as int].hashes() == full[top as int]);
            assert(top < full.len() - 1);
            let mut last = layers.pop().unwrap();
            assert(last == old_layers[top as int]);
            let next = TreeLayer::from_layer(&mut last);
            layers.push(last);
            layers.push(next);
            assert forall|k: int| 0 <= k < layers@.len() implies (#[trigger] layers@[k]).hashes() == full[k] by {
                if k == top {
                    assert(layers@[k].hashes() =~= old_layers[k].hashes());
                } else if k < top {
                    assert(layers@[k] == old_layers[k]);
                }
            }
            assert forall|k: int, i: int|
                0 <= k < layers@.len() && 0 <= i < layers@[k].0@.len() implies #[trigger] node_links_ok(layers@, k, i) by {
                if k < top {
                    assert(layers@[k] == old_layers[k]);
                    assert(node_links_ok(old_layers, k, i));
                    if k > 0 {
                        assert(layers@[k - 1] == old_layers[k - 1]);
                    }
                } else if k == top {
                    assert(node_links_ok(old_layers, k, i));
                    if k > 0 {
                        assert(layers@[k - 1] == old_layers[k - 1]);
                    }
                }
            }
        }
        let ghost done = layers@;
        assert(done.len() == full.len()) by {
            if done.len() < full.len() {
                assert(full[done.len() - 1].len() > 1);
            }
        }
        let root = layers[layers.len() - 1].0[0].hash;
        let r = MerkleTree { root, layers };
        assert(r@ =~= full);
        r
    }
}


proof fn lemma_path_in_range(ls: Seq<Seq<Seq<u8>>>, q: int, k: nat)
    requires
        layers_wf(ls),
        0 <= q < ls[0].len(),
        k < ls.len(),
    ensures
        0 <= path_index(q, k) < ls[k as int].len(),
    decreases k,
{
    if k > 0 {
        lemma_path_in_range(ls, q, (k - 1) as nat);
        assert(ls[k as int] == next_layer(ls[k - 1]));
    }
}

proof fn lemma_step_climbs(ls: Seq<Seq<Seq<u8>>>, q: int, i: int)
    requires
        layers_wf(ls),
        0 <= q < ls[0].len(),
        0 <= i < ls.len() - 1,
    ensures
        step_hash(proof_step(ls[i], path_index(q, i as nat))) == ls[i + 1][path_index(q, (i + 1) as nat)],
        0 <= path_index(q, (i + 1) as nat) < ls[i + 1].len(),
{
    lemma_path_in_range(ls, q, i as nat);
    lemma_path_in_range(ls, q, (i + 1) as nat);
    assert(ls[i + 1] == next_layer(ls[i]));
    let c = path_index(q, i as nat);
    assert(path_index(q, (i + 1) as nat) == c / 2);
}

proof fn lemma_proof_sound_layers(ls: Seq<Seq<Seq<u8>>>, q: int)
    requires
        layers_wf(ls),
        0 <= q < ls[0].len(),
        forall|k: nat| 1 <= k && k + 2 <= ls.len() ==> #[trigger] path_index(q, k) % 2 == 0,
    ensures
        proof_holds(proof_of(ls, q), ls.last()[0]),
{
    let p = proof_of(ls, q);
    if ls.len() > 1 {
        assert forall|i: int| 0 <= i < p.len() - 1 implies step_hash(#[trigger] p[i]) == p[i + 1].0 by {
            lemma_step_climbs(ls, q, i);
            let c = path_index(q, (i + 1) as nat);
            assert(c % 2 == 0);
            assert(2 * (c / 2) == c);
        }
        let i = ls.len() - 2;
        lemma_step_climbs(ls, q, i);
        assert(p.last() == p[i]);
    }
}

/// The proof for a leaf position is accepted against the root, provided the
/// path from that leaf never passes through a right child strictly between the
/// leaf layer and the root layer: each step is checked against the next step's
/// left hash only.
pub proof fn lemma_proof_sound(leaves: Seq<Seq<u8>>, q: int)
    requires
        0 <= q < leaves.len(),
        forall|k: nat| 1 <= k && k + 2 <= merkle_layers(leaves).len() ==> #[trigger] path_index(q, k) % 2 == 0,
    ensures
        proof_holds(proof_of(merkle_layers(leaves), q), merkle_root(leaves)),
{
    lemma_layers_from_wf(leaf_layer(leaves));
    lemma_proof_sound_layers(merkle_layers(leaves), q);
}

/// A single leaf is its own tree: the root is the digest of that leaf.
pub proof fn lemma_single_leaf_root(a: Seq<u8>)
    ensures
        merkle_root(seq![a]) == merkle_digest(a),
        merkle_layers(seq![a]).len() == 1,
{
    assert(leaf_layer(seq![a]) =~= seq![merkle_digest(a)]);
}

/// An odd layer carries its last hash up unchanged, and pairs the rest.
pub proof fn lemma_odd_promotion(layer: Seq<Seq<u8>>)
    requires
        layer.len() % 2 == 1,
    ensures
        next_layer(layer).len() == (layer.len() + 1) / 2,
        next_layer(layer).last() == layer.last(),
        forall|i: int| 0 <= i < next_layer(layer).len() - 1 ==> #[trigger] next_layer(layer)[i] == join(layer[2 * i], layer[2 * i + 1]),
{
}

/// The root of a tree is fixed by the byte strings of its leaves, in order.
pub proof fn lemma_root_determined(a: Seq<Seq<u8>>, b: Seq<Seq<u8>>)
    requires
        a.len() == b.len(),
        forall|i: int| 0 <= i < a.len() ==> #[trigger] a[i] == b[i],
    ensures
        merkle_root(a) == merkle_root(b),
{
    assert(a =~= b);
}

/// Replacing the left hash of any step of an accepted proof with another value
/// makes the proof fail, unless the digest has a collision.
pub proof fn lemma_tampered_left_hash(p: Seq<(Seq<u8>, Option<Seq<u8>>)>, root: Seq<u8>, k: int, x: Seq<u8>)
    requires
        proof_holds(p, root),
        0 <= k < p.len(),
        x != p[k].0,
    ensures
        proof_holds(p.update(k, (x, p[k].1)), root) ==> exists|a: Seq<u8>, b: Seq<u8>|
            a != b && merkle_digest(a) == merkle_digest(b),
{
    let t = p.update(k, (x, p[k].1));
    if proof_holds(t, root) {
        let target = if k < p.len() - 1 { p[k + 1].0 } else { root };
        assert(step_hash(p[k]) == target);
        if k < p.len() - 1 {
            assert(step_hash(t[k]) == t[k + 1].0);
        } else {
            assert(t.last() == t[k]);
        }
        assert(step_hash(t[k]) == target);
        match p[k].1 {
            Some(r) => {
                let a = x + r;
                let b = p[k].0 + r;
                if a == b {
                    if x.len() == p[k].0.len() {
                        assert(x =~= p[k].0) by {
                            assert forall|i: int| 0 <= i < x.len() implies x[i] == p[k].0[i] by {
                                assert(a[i] == b[i]);
                            }
                        }
                    } else {
                        assert(a.len() != b.len());
                    }
                }
                assert(a != b && merkle_digest(a) == merkle_digest(b));
            },
            None => {},
        }
    }
}

/// One step of a proof: the left hash, and the right hash unless the left
/// node was promoted.
#[derive(Clone, Copy, Debug)]
pub struct Layer {
    pub left_hash: [u8; 28],
    pub right_hash: Option<[u8; 28]>,
}

impl View for Layer {
    type V = (Seq<u8>, Option<Seq<u8>>);

    open spec fn view(&self) -> (Seq<u8>, Option<Seq<u8>>) {
        (self.left_hash@, match self.right_hash {
            Some(r) => Some(r@),
            None => None,
        })
    }
}

impl Layer {
    /// The hash this step stands for: the join of both hashes, or the left
    /// hash alone when there is no right one.
    pub fn hash(&self) -> (r: [u8; 28])
        ensures
            r@ == step_hash(self@),
    {
        match self.right_hash {
            Some(right) => {
                let mut joined: Vec<u8> = Vec::new();
                append_bytes(&mut joined, self.left_hash.as_slice());
                append_bytes(&mut joined, right.as_slice());
                hash(joined.as_slice())
            },
            None => self.left_hash,
        }
    }
}

/// The proof that a hash is a leaf of a Merkle tree: one step per layer
/// below the root.
#[derive(Clone, Debug)]
pub struct MerkleProof(pub Vec<Layer>);

impl View for MerkleProof {
    type V = Seq<(Seq<u8>, Option<Seq<u8>>)>;

    open spec fn view(&self) -> Seq<(Seq<u8>, Option<Seq<u8>>)> {
        self.0@.map_values(|l: Layer| l@)
    }
}

fn find_first(layer: &TreeLayer, h: &[u8; 28]) -> (r: Option<usize>)
    ensures
        match r {
            Some(q) => is_first_index(layer.hashes(), h@, q as int),
            None => forall|q: int| 0 <= q < layer.hashes().len() ==> layer.hashes()[q] != h@,
        },
{
    let mut q: usize = 0;
    while q < layer.0.len()
        invariant
            q <= layer.0@.len(),
            forall|j: int| 0 <= j < q ==> layer.hashes()[j] != h@,
        decreases layer.0@.len() - q,
    {
        if bytes_eq(layer.0[q].hash.as_slice(), h.as_slice()) {
            return Some(q);
        }
        q = q + 1;
    }
    None
}

/// The proof step for node `idx` of layer `k`, and the position of its parent.
fn step_above(merkle_tree: &MerkleTree, k: usize, idx: usize) -> (r: (Layer, usize))
    requires
        merkle_tree.wf(),
        k + 1 < merkle_tree@.len(),
        idx < merkle_tree@[k as int].len(),
    ensures
        r.0@ == proof_step(merkle_tree@[k as int], idx as int),
        r.1 == idx / 2,
{
    let ghost ls = merkle_tree@;
    let n_layers = merkle_tree.layers.len();
    assert(n_layers == ls.len());
    assert(ls[k + 1] == next_layer(ls[k as int]));
    assert(node_links_ok(merkle_tree.layers@, k as int, idx as int));
    let node = merkle_tree.layers[k].0[idx];
    let p = node.parent_index.unwrap();
    assert(node_links_ok(merkle_tree.layers@, k + 1, p as int));
    let parent = merkle_tree.layers[k + 1].0[p];
    let left = merkle_tree.layers[k].0[parent.left_child_index].hash;
    let right = match parent.right_child_index {
        Some(ri) => Some(merkle_tree.layers[k].0[ri].hash),
        None => None,
    };
    (Layer { left_hash: left, right_hash: right }, p)
}

impl MerkleProof {
    /// The proof for the first leaf whose digest is `hash`, if there is one.
    pub fn new(hash: [u8; 28], merkle_tree: &MerkleTree) -> (r: Option<Self>)
        requires
            merkle_tree.wf(),
        ensures
            match r {
                Some(p) => exists|q: int| is_first_index(merkle_tree@[0], hash@, q) && p@ == proof_of(merkle_tree@, q),
                None => forall|q: int| 0 <= q < merkle_tree@[0].len() ==> merkle_tree@[0][q] != hash@,
            },
    {
        let ghost ls = merkle_tree@;
        assert(ls[0] == merkle_tree.layers@[0].hashes());
        let q = match find_first(&merkle_tree.layers[0], &hash) {
            Some(q) => q,
            None => return None,
        };
        let n_layers = merkle_tree.layers.len();
        if n_layers == 1 {
            let only = Layer { left_hash: merkle_tree.layers[0].0[0].hash, right_hash: None };
            let p = MerkleProof(vec![only]);
            assert(p@ =~= proof_of(ls, q as int));
            return Some(p);
        }
        let mut steps: Vec<Layer> = Vec::new();
        let mut idx: usize = q;
        let mut k: usize = 0;
        while k + 1 < n_layers
            invariant
                merkle_tree.wf(),
                ls == merkle_tree@,
                n_layers == ls.len(),
                n_layers > 1,
                0 <= q < ls[0].len(),
                k + 1 <= n_layers,
                idx == path_index(q as int, k as nat),
                steps@.len() == k,
                forall|j: int| 0 <= j < k ==> (#[trigger] steps@[j])@ == proof_step(ls[j], path_index(q as int, j as nat)),
            decreases n_layers - k,
        {
            proof {
                lemma_path_in_range(ls, q as int, k as nat);
            }
            let (step, p) = step_above(merkle_tree, k, idx);
            steps.push(step);
            idx = p;
            k = k + 1;
        }
        let p = MerkleProof(steps);
        assert(p@ =~= proof_of(ls, q as int));
        Some(p)
    }

    /// Whether each step hashes to the next step's left hash and the last
    /// step hashes to `merkle_root`.
    pub fn is_proof(&self, merkle_root: &[u8; 28]) -> (r: bool)
        ensures
            r == proof_holds(self@, merkle_root@),
    {
        let n = self.0.len();
        if n == 0 {
            return false;
        }
        let mut i: usize = 0;
        while i + 1 < n
            invariant
                n == self@.len(),
                n > 0,
                i + 1 <= n,
                forall|j: int| 0 <= j < i ==> step_hash(#[trigger] self@[j]) == self@[j + 1].0,
            decreases n - i,
        {
            let h = self.0[i].hash();
            if !bytes_eq(h.as_slice(), self.0[i + 1].left_hash.as_slice()) {
                assert(step_hash(self@[i as int]) != self@[i + 1].0);
                return false;
            }
            i = i + 1;
        }
        let last = self.0[n - 1].hash();
        assert(self@.last() == self@[n - 1]);
        bytes_eq(last.as_slice(), merkle_root.as_slice())
    }
}

impl MerkleTree {
    /// The proof for the first leaf whose digest is `hash`, if there is one.
    pub fn get_proof(&self, hash: [u8; 28]) -> (r: Option<MerkleProof>)
        requires
            self.wf(),
        ensures
            match r {
                Some(p) => exists|q: int| is_first_index(self@[0], hash@, q) && p@ == proof_of(self@, q),
                None => forall|q: int| 0 <= q < self@[0].len() ==> self@[0][q] != hash@,
            },
    {
        MerkleProof::new(hash, self)
    }
}

} // verus!
