use vstd::prelude::*;

verus! {

/// The largest triangle count a hierarchy may be built over: every node
/// index (at most `2 * n - 1` of them) must fit in a `u32` lane.
pub const MAX_TRIANGLES: usize = 0x8000_0000;

/// The two integer lanes of a hierarchy node. Its bounding box is kept
/// beside it, in a parallel array, by the floating-point side.
///
/// `triangle_count == 0` marks an interior node, whose left child sits at
/// `payload` and right child at `payload + 1`; otherwise the node is a leaf
/// over the triangles `payload .. payload + triangle_count` of the
/// reordered triangle array.
#[derive(Clone, Copy, Debug, PartialEq, Eq, Structural)]
pub struct BVHNode {
    pub triangle_count: u32,
    pub payload: u32,
}

impl BVHNode {
    pub fn triangle_count(&self) -> (r: u32)
        ensures
            r == self.triangle_count,
    {
        self.triangle_count
    }

    pub fn left_node_index(&self) -> (r: u32)
        ensures
            r == self.payload,
    {
        self.payload
    }

    pub fn right_node_index(&self) -> (r: u32)
        requires
            self.payload < u32::MAX,
        ensures
            r == self.payload + 1,
    {
        self.payload + 1
    }

    pub fn first_triangle_index(&self) -> (r: u32)
        ensures
            r == self.payload,
    {
        self.payload
    }

    pub fn is_leaf(&self) -> (r: bool)
        ensures
            r == (self.triangle_count > 0),
    {
        self.triangle_count > 0
    }

    pub fn set_triangle_count(&mut self, triangle_count: u32)
        ensures
            *final(self) == (BVHNode { triangle_count, payload: old(self).payload }),
    {
        self.triangle_count = triangle_count;
    }

    pub fn set_left_node_index(&mut self, left_node_index: u32)
        ensures
            *final(self) == (BVHNode { triangle_count: old(self).triangle_count, payload: left_node_index }),
    {
        self.payload = left_node_index;
    }

    pub fn set_first_triangle_index(&mut self, first_triangle_index: u32)
        ensures
            *final(self) == (BVHNode { triangle_count: old(self).triangle_count, payload: first_triangle_index }),
    {
        self.payload = first_triangle_index;
    }
}

/// Sum of the triangle counts of `nodes`: interior nodes add nothing.
pub open spec fn total_triangles(nodes: Seq<BVHNode>) -> int
    decreases nodes.len(),
{
    if nodes.len() == 0 {
        0
    } else {
        total_triangles(nodes.drop_last()) + nodes.last().triangle_count
    }
}

/// Number of leaves among `nodes`.
pub open spec fn leaf_count(nodes: Seq<BVHNode>) -> int
    decreases nodes.len(),
{
    if nodes.len() == 0 {
        0
    } else {
        leaf_count(nodes.drop_last()) + if nodes.last().triangle_count > 0 { 1int } else { 0int }
    }
}

/// Node `i` is consistent with the triangle range `spans[i]` (first, count)
/// that it stands for: a leaf stores that range, an interior node has two
/// later, contiguous children whose ranges tile it.
pub open spec fn span_ok(nodes: Seq<BVHNode>, spans: Seq<(int, int)>, n: int, i: int) -> bool {
    let first = spans[i].0;
    let count = spans[i].1;
    &&& 0 <= first
    &&& 1 <= count
    &&& first + count <= n
    &&& if nodes[i].triangle_count > 0 {
        nodes[i].triangle_count == count && nodes[i].payload == first
    } else {
        let l = nodes[i].payload as int;
        &&& i < l
        &&& l + 1 < nodes.len()
        &&& spans[l].0 == first
        &&& spans[l + 1].0 == first + spans[l].1
        &&& count == spans[l].1 + spans[l + 1].1
    }
}

/// `nodes` is a hierarchy over `n` triangles whose node `i` covers the
/// range `spans[i]`; the root is node 0 and covers all of them.
pub open spec fn layout_ok(nodes: Seq<BVHNode>, spans: Seq<(int, int)>, n: int) -> bool {
    &&& nodes.len() >= 1
    &&& spans.len() == nodes.len()
    &&& spans[0] == (0int, n)
    &&& forall|i: int| 0 <= i < nodes.len() ==> #[trigger] span_ok(nodes, spans, n, i)
}

/// `nodes` is a well-formed hierarchy over `n` triangles.
pub open spec fn is_layout(nodes: Seq<BVHNode>, n: int) -> bool {
    exists|spans: Seq<(int, int)>| layout_ok(nodes, spans, n)
}

/// `order` lists each of the triangles `0 .. n` exactly once.
pub open spec fn is_permutation(order: Seq<u32>, n: int) -> bool {
    &&& order.len() == n
    &&& forall|i: int| 0 <= i < n ==> #[trigger] order[i] < n
    &&& forall|i: int, j: int| 0 <= i < n && 0 <= j < n && i != j ==> order[i] != order[j]
}

proof fn lemma_counts_update(nodes: Seq<BVHNode>, i: int, v: BVHNode)
    requires
        0 <= i < nodes.len(),
    ensures
        total_triangles(nodes.update(i, v)) == total_triangles(nodes) - nodes[i].triangle_count
            + v.triangle_count,
        leaf_count(nodes.update(i, v)) == leaf_count(nodes) - (if nodes[i].triangle_count > 0 {
            1int
        } else {
            0int
        }) + (if v.triangle_count > 0 {
            1int
        } else {
            0int
        }),
    decreases nodes.len(),
{
    let u = nodes.update(i, v);
    if i == nodes.len() - 1 {
        assert(u.drop_last() =~= nodes.drop_last());
    } else {
        assert(u.drop_last() =~= nodes.drop_last().update(i, v));
        lemma_counts_update(nodes.drop_last(), i, v);
    }
}

proof fn lemma_counts_push(nodes: Seq<BVHNode>, v: BVHNode)
    ensures
        total_triangles(nodes.push(v)) == total_triangles(nodes) + v.triangle_count,
        leaf_count(nodes.push(v)) == leaf_count(nodes) + if v.triangle_count > 0 {
            1int
        } else {
            0int
        },
{
    assert(nodes.push(v).drop_last() =~= nodes);
}

proof fn lemma_leaves_bounded(nodes: Seq<BVHNode>)
    ensures
        0 <= leaf_count(nodes) <= total_triangles(nodes),
    decreases nodes.len(),
{
    if nodes.len() > 0 {
        lemma_leaves_bounded(nodes.drop_last());
    }
}

/// Number of set flags in `flags`.
pub open spec fn count_set(flags: Seq<bool>) -> int
    decreases flags.len(),
{
    if flags.len() == 0 {
        0
    } else {
        count_set(flags.drop_last()) + if flags.last() { 1int } else { 0int }
    }
}

proof fn lemma_count_set_update(flags: Seq<bool>, i: int, v: bool)
    requires
        0 <= i < flags.len(),
    ensures
        count_set(flags.update(i, v)) == count_set(flags) - (if flags[i] { 1int } else { 0int }) + (
        if v {
            1int
        } else {
            0int
        }),
    decreases flags.len(),
{
    let u = flags.update(i, v);
    if i == flags.len() - 1 {
        assert(u.drop_last() =~= flags.drop_last());
    } else {
        assert(u.drop_last() =~= flags.drop_last().update(i, v));
        lemma_count_set_update(flags.drop_last(), i, v);
    }
}

proof fn lemma_count_set_split(flags: Seq<bool>, left: int)
    requires
        0 <= left <= flags.len(),
        forall|k: int| 0 <= k < flags.len() ==> flags[k] == (k < left),
    ensures
        count_set(flags) == left,
    decreases flags.len(),
{
    if flags.len() > 0 {
        let rest = flags.drop_last();
        if left == flags.len() {
            lemma_count_set_split(rest, left - 1);
        } else {
            lemma_count_set_split(rest, left);
        }
    }
}

/// The range `first .. first + count` of `new_order` holds the triangles of
/// the same range of `old_order`, rearranged: place `k` of it holds what
/// stood at place `moved[k]`. Those flagged in `goes_left` (by their old
/// place) fill its first `left` places, the others the rest; `left` is the
/// number of flagged triangles.
pub open spec fn partitioned(
    old_order: Seq<u32>,
    new_order: Seq<u32>,
    first: int,
    count: int,
    goes_left: Seq<bool>,
    left: int,
    moved: Seq<int>,
) -> bool {
    &&& 0 <= left <= count
    &&& left == count_set(goes_left)
    &&& moved.len() == count
    &&& forall|k: int|
        0 <= k < count ==> 0 <= #[trigger] moved[k] < count && new_order[first + k]
            == old_order[first + moved[k]] && goes_left[moved[k]] == (k < left)
}

proof fn lemma_descend(nodes: Seq<BVHNode>, spans: Seq<(int, int)>, n: int, i: int, p: int) -> (leaf:
    int)
    requires
        layout_ok(nodes, spans, n),
        0 <= i < nodes.len(),
        spans[i].0 <= p < spans[i].0 + spans[i].1,
    ensures
        0 <= leaf < nodes.len(),
        nodes[leaf].triangle_count > 0,
        nodes[leaf].payload <= p < nodes[leaf].payload + nodes[leaf].triangle_count,
    decreases nodes.len() - i,
{
    assert(span_ok(nodes, spans, n, i));
    if nodes[i].triangle_count > 0 {
        i
    } else {
        let l = nodes[i].payload as int;
        if p < spans[l].0 + spans[l].1 {
            lemma_descend(nodes, spans, n, l, p)
        } else {
            lemma_descend(nodes, spans, n, l + 1, p)
        }
    }
}

/// No triangle is lost by the build: in a well-formed hierarchy over `n`
/// triangles, each position of the reordered triangle array lies in the
/// range of some leaf.
pub proof fn lemma_every_triangle_in_a_leaf(nodes: Seq<BVHNode>, n: int, p: int)
    requires
        is_layout(nodes, n),
        0 <= p < n,
    ensures
        exists|leaf: int|
            0 <= leaf < nodes.len() && nodes[leaf].triangle_count > 0 && #[trigger] nodes[leaf].payload
                <= p < nodes[leaf].payload + nodes[leaf].triangle_count,
{
    let spans = choose|spans: Seq<(int, int)>| layout_ok(nodes, spans, n);
    let leaf = lemma_descend(nodes, spans, n, 0, p);
    assert(nodes[leaf].payload <= p);
}

/// Node `i` is interior and `j` is one of its two children.
pub open spec fn parent_of(nodes: Seq<BVHNode>, i: int, j: int) -> bool {
    &&& 0 <= i < nodes.len()
    &&& nodes[i].triangle_count == 0
    &&& (nodes[i].payload == j || nodes[i].payload + 1 == j)
}

/// Some interior node has `j` as a child.
pub open spec fn has_parent(nodes: Seq<BVHNode>, j: int) -> bool {
    exists|i: int| #[trigger] parent_of(nodes, i, j)
}

/// The nodes form one tree: the root is no node's child, and every other
/// node is the child of exactly one interior node.
pub open spec fn one_parent(nodes: Seq<BVHNode>) -> bool {
    &&& forall|i: int| !#[trigger] parent_of(nodes, i, 0)
    &&& forall|j: int| 1 <= j < nodes.len() ==> #[trigger] has_parent(nodes, j)
    &&& forall|i: int, k: int, j: int|
        #[trigger] parent_of(nodes, i, j) && #[trigger] parent_of(nodes, k, j) ==> i == k
}

/// A finished hierarchy: its nodes, root first.
pub struct BVH {
    pub nodes: Vec<BVHNode>,
}

/// Builds the node layout of a hierarchy top-down with an explicit stack.
///
/// Where to split a node is decided outside, from the triangles' geometry:
/// the caller pops a node with `next_node`, and either leaves it as a leaf
/// or hands `split` one flag per triangle of the node saying whether it
/// goes to the left child. The builder partitions the triangle order in
/// place and emits the two children as contiguous nodes.
pub struct BVHBuilder {
    n: usize,
    nodes: Vec<BVHNode>,
    order: Vec<u32>,
    stack: Vec<usize>,
    spans: Ghost<Seq<(int, int)>>,
}

impl BVHBuilder {
    /// Number of triangles the hierarchy is built over.
    pub closed spec fn triangles(&self) -> int {
        self.n as int
    }

    /// Nodes emitted so far.
    pub closed spec fn nodes_view(&self) -> Seq<BVHNode> {
        self.nodes@
    }

    /// Current triangle order: position to input triangle index.
    pub closed spec fn order_view(&self) -> Seq<u32> {
        self.order@
    }

    /// Nodes still waiting to be examined, the next one last.
    pub closed spec fn pending(&self) -> Seq<usize> {
        self.stack@
    }

    pub closed spec fn wf(&self) -> bool {
        &&& 1 <= self.n <= MAX_TRIANGLES
        &&& layout_ok(self.nodes@, self.spans@, self.n as int)
        &&& 2 * leaf_count(self.nodes@) == self.nodes@.len() + 1
        &&& total_triangles(self.nodes@) == self.n
        &&& one_parent(self.nodes@)
        &&& is_permutation(self.order@, self.n as int)
        &&& forall|k: int| 0 <= k < self.stack@.len() ==> #[trigger] self.stack@[k] < self.nodes@.len()
    }

    /// Starts a hierarchy over `triangle_count` triangles in their input
    /// order: a single root leaf over all of them, waiting to be examined.
    pub fn new(triangle_count: usize) -> (r: Self)
        requires
            1 <= triangle_count <= MAX_TRIANGLES,
        ensures
            r.wf(),
            r.triangles() == triangle_count,
            r.nodes_view() == seq![BVHNode { triangle_count: triangle_count as u32, payload: 0 }],
            forall|i: int| 0 <= i < triangle_count ==> #[trigger] r.order_view()[i] == i,
            r.pending() == seq![0usize],
    {
        let mut order: Vec<u32> = Vec::new();
        let mut i: usize = 0;
        while i < triangle_count
            invariant
                i <= triangle_count <= MAX_TRIANGLES,
                order@.len() == i,
                forall|j: int| 0 <= j < i ==> #[trigger] order@[j] == j,
            decreases triangle_count - i,
        {
            order.push(i as u32);
            i = i + 1;
        }
        let root = BVHNode { triangle_count: triangle_count as u32, payload: 0 };
        let mut nodes: Vec<BVHNode> = Vec::new();
        nodes.push(root);
        let mut stack: Vec<usize> = Vec::new();
        stack.push(0);
        let ghost root_span = seq![(0int, triangle_count as int)];
        let r = BVHBuilder {
            n: triangle_count,
            nodes,
            order,
            stack,
            spans: Ghost(root_span),
        };
        proof {
            assert(r.nodes@ =~= seq![root]);
            assert(r.nodes@.drop_last() =~= Seq::<BVHNode>::empty());
            assert(total_triangles(Seq::<BVHNode>::empty()) == 0);
            assert(leaf_count(Seq::<BVHNode>::empty()) == 0);
            assert(span_ok(r.nodes@, r.spans@, triangle_count as int, 0));
            assert forall|i: int| !#[trigger] parent_of(r.nodes@, i, 0) by {}
        }
        r
    }

    /// Number of nodes emitted so far.
    pub fn node_count(&self) -> (r: usize)
        ensures
            r == self.nodes_view().len(),
    {
        self.nodes.len()
    }

    /// The node at `index`.
    pub fn node(&self, index: usize) -> (r: BVHNode)
        requires
            index < self.nodes_view().len(),
        ensures
            r == self.nodes_view()[index as int],
    {
        self.nodes[index]
    }

    /// The current triangle order.
    pub fn order(&self) -> (r: &Vec<u32>)
        ensures
            r@ == self.order_view(),
    {
        &self.order
    }

    /// Takes the next node to examine, if any is left.
    pub fn next_node(&mut self) -> (r: Option<usize>)
        requires
            old(self).wf(),
        ensures
            final(self).wf(),
            final(self).triangles() == old(self).triangles(),
            final(self).nodes_view() == old(self).nodes_view(),
            final(self).order_view() == old(self).order_view(),
            old(self).pending().len() == 0 ==> r is None && final(self).pending() == old(self).pending(),
            old(self).pending().len() > 0 ==> r == Some(old(self).pending().last())
                && final(self).pending() == old(self).pending().drop_last(),
            r matches Some(i) ==> i < final(self).nodes_view().len(),
    {
        self.stack.pop()
    }

    /// Splits the leaf `node` in two: its triangles flagged in `goes_left`
    /// (one flag per triangle, in the node's current order) are moved to the
    /// front of its range and the others to the back, swapping the two ends
    /// inward. If both sides are non-empty the node becomes interior, its
    /// two children are appended as leaves over the two sides, and they are
    /// queued, the left one to be examined first; the result is the index
    /// of the left child. If one side is empty the node stays a leaf and the
    /// result is `None`.
    pub fn split(&mut self, node: usize, goes_left: Vec<bool>) -> (r: Option<usize>)
        requires
            old(self).wf(),
            node < old(self).nodes_view().len(),
            old(self).nodes_view()[node as int].triangle_count > 0,
            goes_left@.len() == old(self).nodes_view()[node as int].triangle_count,
        ensures
            final(self).wf(),
            final(self).triangles() == old(self).triangles(),
            ({
                let first = old(self).nodes_view()[node as int].payload as int;
                let count = old(self).nodes_view()[node as int].triangle_count as int;
                let old_order = old(self).order_view();
                let new_order = final(self).order_view();
                &&& forall|p: int|
                    0 <= p < new_order.len() && !(first <= p < first + count) ==> new_order[p]
                        == old_order[p]
                &&& exists|left: int, moved: Seq<int>|
                    #[trigger] partitioned(old_order, new_order, first, count, goes_left@, left, moved) && (
                    r is None <==> (left == 0 || left == count)) && (r matches Some(l) ==> {
                        &&& l == old(self).nodes_view().len()
                        &&& final(self).nodes_view() == old(self).nodes_view().update(
                            node as int,
                            BVHNode { triangle_count: 0, payload: l as u32 },
                        ).push(BVHNode { triangle_count: left as u32, payload: first as u32 }).push(
                            BVHNode {
                                triangle_count: (count - left) as u32,
                                payload: (first + left) as u32,
                            },
                        )
                        &&& final(self).pending() == old(self).pending().push((l + 1) as usize).push(l)
                    })
            }),
            r is None ==> final(self).nodes_view() == old(self).nodes_view() && final(self).pending()
                == old(self).pending(),
    {
        let leaf = self.nodes[node];
        let first = leaf.payload as usize;
        let count = leaf.triangle_count as usize;
        proof {
            assert(span_ok(self.nodes@, self.spans@, self.n as int, node as int));
        }
        let ghost old_order = self.order@;
        let ghost old_flags = goes_left@;
        let ghost n = self.n as int;
        let mut flags = goes_left;
        let ghost mut src: Seq<int> = Seq::new(count as nat, |k: int| k);
        let mut a: usize = first;
        let mut hi: usize = first + count;
        while a < hi
            invariant
                first <= a <= hi <= first + count <= n,
                n == self.n,
                self.n == old(self).n,
                self.nodes@ == old(self).nodes@,
                self.spans == old(self).spans,
                self.stack@ == old(self).stack@,
                flags@.len() == count,
                src.len() == count,
                self.order@.len() == n,
                is_permutation(self.order@, n),
                forall|p: int|
                    0 <= p < n && !(first <= p < first + count) ==> self.order@[p] == old_order[p],
                forall|k: int|
                    0 <= k < count ==> 0 <= #[trigger] src[k] < count && self.order@[first + k]
                        == old_order[first + src[k]] && flags@[k] == old_flags[src[k]],
                count_set(flags@) == count_set(old_flags),
                forall|p: int| first <= p < a ==> #[trigger] flags@[p - first],
                forall|p: int| hi <= p < first + count ==> !#[trigger] flags@[p - first],
            decreases hi - a,
        {
            if flags[a - first] {
                a = a + 1;
            } else {
                let b = hi - 1;
                let ghost before = self.order@;
                let ta = self.order[a];
                let tb = self.order[b];
                self.order.set(a, tb);
                self.order.set(b, ta);
                let fa = flags[a - first];
                let fb = flags[b - first];
                let ghost flags_before = flags@;
                flags.set(a - first, fb);
                proof {
                    lemma_count_set_update(flags_before, a - first, fb);
                }
                let ghost flags_mid = flags@;
                flags.set(b - first, fa);
                proof {
                    lemma_count_set_update(flags_mid, b - first, fa);
                }
                proof {
                    let sa = src[a - first];
                    let sb = src[b - first];
                    src = src.update(a - first, sb).update(b - first, sa);
                    assert forall|i: int, j: int|
                        0 <= i < n && 0 <= j < n && i != j implies self.order@[i]
                        != self.order@[j] by {
                        let oi = if i == a { b as int } else if i == b { a as int } else { i };
                        let oj = if j == a { b as int } else if j == b { a as int } else { j };
                        assert(self.order@[i] == before[oi]);
                        assert(self.order@[j] == before[oj]);
                    }
                    assert forall|k: int| 0 <= k < count implies 0 <= #[trigger] src[k] < count
                        && self.order@[first + k] == old_order[first + src[k]] && flags@[k]
                        == old_flags[src[k]] by {
                        if k != a - first && k != b - first {
                            assert(self.order@[first + k] == before[first + k]);
                        }
                    }
                }
                hi = b;
            }
        }
        let left = a - first;
        proof {
            assert forall|k: int| 0 <= k < count implies flags@[k] == (k < left) by {
                if k < left {
                    assert(flags@[(first + k) - first]);
                } else {
                    assert(!flags@[(first + k) - first]);
                }
            }
            lemma_count_set_split(flags@, left as int);
            assert(partitioned(old_order, self.order@, first as int, count as int, old_flags, left as int, src));
        }
        if left == 0 || left == count {
            proof {
                let ghost f = old(self).nodes_view()[node as int].payload as int;
                let ghost c = old(self).nodes_view()[node as int].triangle_count as int;
                assert(f == first && c == count);
                assert(old(self).order_view() == old_order);
                assert(self.order_view() == self.order@);
                assert(goes_left@ == old_flags);
                assert(partitioned(old(self).order_view(), self.order_view(), f, c, goes_left@, left as int, src));
            }
            return None;
        }
        let ghost old_nodes = self.nodes@;
        let ghost old_spans = self.spans@;
        let l = self.nodes.len();
        proof {
            let probe = old_nodes.update(node as int, BVHNode { triangle_count: 1, payload: 0 });
            lemma_counts_update(old_nodes, node as int, BVHNode { triangle_count: 1, payload: 0 });
            lemma_leaves_bounded(probe);
        }
        let interior = BVHNode { triangle_count: 0, payload: l as u32 };
        let left_leaf = BVHNode { triangle_count: left as u32, payload: first as u32 };
        let right_leaf = BVHNode { triangle_count: (count - left) as u32, payload: a as u32 };
        self.nodes.set(node, interior);
        self.nodes.push(left_leaf);
        self.nodes.push(right_leaf);
        self.stack.push(l + 1);
        self.stack.push(l);
        proof {
            let mid = old_nodes.update(node as int, interior);
            lemma_counts_update(old_nodes, node as int, interior);
            lemma_counts_push(mid, left_leaf);
            lemma_counts_push(mid.push(left_leaf), right_leaf);
            assert(self.nodes@ =~= mid.push(left_leaf).push(right_leaf));
            self.spans@ = old_spans.push((first as int, left as int)).push(
                (first + left, count - left),
            );
            let nn = self.nodes@;
            let sp = self.spans@;
            assert forall|i: int| 0 <= i < nn.len() implies #[trigger] span_ok(nn, sp, n, i) by {
                if i < l && i != node {
                    assert(span_ok(old_nodes, old_spans, n, i));
                    assert(nn[i] == old_nodes[i]);
                }
            }
            assert forall|i: int| !#[trigger] parent_of(nn, i, 0) by {
                if 0 <= i < nn.len() && nn[i].triangle_count == 0 {
                    assert(span_ok(nn, sp, n, i));
                }
            }
            assert forall|j: int| 1 <= j < nn.len() implies #[trigger] has_parent(nn, j) by {
                if j >= l {
                    assert(parent_of(nn, node as int, j));
                } else {
                    assert(has_parent(old_nodes, j));
                    let i = choose|i: int| #[trigger] parent_of(old_nodes, i, j);
                    assert(nn[i] == old_nodes[i]);
                    assert(parent_of(nn, i, j));
                }
            }
            assert forall|i: int, k: int, j: int|
                #[trigger] parent_of(nn, i, j) && #[trigger] parent_of(nn, k, j) implies i == k by {
                if i != node && k != node {
                    assert(nn[i] == old_nodes[i]);
                    assert(nn[k] == old_nodes[k]);
                    assert(parent_of(old_nodes, i, j));
                    assert(parent_of(old_nodes, k, j));
                } else if i == node && k != node {
                    assert(span_ok(old_nodes, old_spans, n, k));
                    assert(nn[k] == old_nodes[k]);
                } else if k == node && i != node {
                    assert(span_ok(old_nodes, old_spans, n, i));
                    assert(nn[i] == old_nodes[i]);
                }
            }
            assert forall|k: int| 0 <= k < self.stack@.len() implies #[trigger] self.stack@[k]
                < self.nodes@.len() by {
                if k < self.stack@.len() - 2 {
                    assert(self.stack@[k] == old(self).stack@[k]);
                }
            }
        }
        proof {
            let ghost f = old(self).nodes_view()[node as int].payload as int;
            let ghost c = old(self).nodes_view()[node as int].triangle_count as int;
            assert(f == first && c == count);
            assert(old(self).order_view() == old_order);
            assert(goes_left@ == old_flags);
            assert(partitioned(old(self).order_view(), self.order_view(), f, c, goes_left@, left as int, src));
        }
        Some(l)
    }

    /// Ends the build. The nodes form a well-formed hierarchy over all the
    /// triangles: a single tree in which every node but the root is the
    /// child of exactly one interior node, with one more leaf than interior
    /// nodes and at most `2 * n - 1` nodes in all; the order lists each
    /// triangle exactly once and tells, for each position of the reordered
    /// triangle array, which input triangle stands there.
    pub fn finish(self) -> (r: (BVH, Vec<u32>))
        requires
            self.wf(),
        ensures
            r.0.nodes@ == self.nodes_view(),
            r.1@ == self.order_view(),
            is_layout(r.0.nodes@, self.triangles()),
            r.0.nodes@.len() <= 2 * self.triangles() - 1,
            total_triangles(r.0.nodes@) == self.triangles(),
            one_parent(r.0.nodes@),
            2 * leaf_count(r.0.nodes@) == r.0.nodes@.len() + 1,
            is_permutation(r.1@, self.triangles()),
    {
        proof {
            lemma_leaves_bounded(self.nodes@);
        }
        (BVH { nodes: self.nodes }, self.order)
    }
}

} // verus!
