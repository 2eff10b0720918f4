use vstd::prelude::*;
use crate::mutable_graphs::node_factory::{Graph, Node, NodeRef};

verus! {

/// A value token carried from node to node; compared by value.
#[derive(Clone, Copy, PartialEq, Eq, Structural, Debug)]
pub struct TransferItem {
    pub data: u64,
}

impl TransferItem {
    /// The item carrying `data`.
    pub fn new(data: u64) -> (r: TransferItem)
        ensures
            r.data == data,
    {
        TransferItem { data }
    }
}

impl From<u64> for TransferItem {
    fn from(data: u64) -> (r: TransferItem) {
        TransferItem { data }
    }
}

impl vstd::std_specs::convert::FromSpecImpl<u64> for TransferItem {
    open spec fn obeys_from_spec() -> bool {
        true
    }

    open spec fn from_spec(data: u64) -> TransferItem {
        TransferItem { data }
    }
}

/// Number of edges in `edges` that point at node `j`.
pub open spec fn multiplicity(edges: Seq<NodeRef>, j: int) -> nat
    decreases edges.len(),
{
    if edges.len() == 0 {
        0
    } else {
        multiplicity(edges.drop_last(), j) + if edges.last().index == j { 1nat } else { 0nat }
    }
}

/// `k` copies of `x`.
pub open spec fn copies(x: TransferItem, k: nat) -> Seq<TransferItem> {
    Seq::new(k, |_i: int| x)
}

/// What a successor reached by `k` edges receives when `items` are broadcast:
/// each item in order, once per edge.
pub open spec fn fan_out(items: Seq<TransferItem>, k: nat) -> Seq<TransferItem>
    decreases items.len(),
{
    if items.len() == 0 {
        Seq::empty()
    } else {
        fan_out(items.drop_last(), k) + copies(items.last(), k)
    }
}

/// Queue of node `j` of `nodes` after `items` have been broadcast along `edges`.
pub open spec fn delivered<P>(before: Seq<Node<P>>, items: Seq<TransferItem>, edges: Seq<NodeRef>, j: int) -> Seq<TransferItem> {
    before[j].items@ + fan_out(items, multiplicity(edges, j))
}

/// Broadcasting along no edge delivers nothing.
pub proof fn lemma_fan_out_none(items: Seq<TransferItem>)
    ensures
        fan_out(items, 0) == Seq::<TransferItem>::empty(),
    decreases items.len(),
{
    if items.len() > 0 {
        lemma_fan_out_none(items.drop_last());
        assert(copies(items.last(), 0) =~= Seq::<TransferItem>::empty());
        assert(fan_out(items, 0) =~= Seq::<TransferItem>::empty());
    }
}

/// Broadcasting along one edge delivers the items themselves.
pub proof fn lemma_fan_out_once(items: Seq<TransferItem>)
    ensures
        fan_out(items, 1) == items,
    decreases items.len(),
{
    if items.len() > 0 {
        lemma_fan_out_once(items.drop_last());
        assert(copies(items.last(), 1) =~= seq![items.last()]);
        assert(fan_out(items, 1) =~= items);
    }
}

/// Broadcasting along `k` edges delivers `k` items per item.
pub proof fn lemma_fan_out_len(items: Seq<TransferItem>, k: nat)
    ensures
        fan_out(items, k).len() == items.len() * k,
    decreases items.len(),
{
    if items.len() > 0 {
        lemma_fan_out_len(items.drop_last(), k);
        assert(items.len() * k == (items.len() - 1) * k + k) by (nonlinear_arith);
    }
}

/// A successor reached by exactly one edge receives exactly the drained
/// items, in the order they were queued, after what it already held.
pub proof fn law_drain_completeness<P>(before: Seq<Node<P>>, items: Seq<TransferItem>, edges: Seq<NodeRef>, j: int)
    requires
        multiplicity(edges, j) == 1,
    ensures
        delivered(before, items, edges, j) == before[j].items@ + items,
{
    lemma_fan_out_once(items);
}

/// A successor reached by `k` edges receives `k` copies of each drained item.
pub proof fn law_delivery_count<P>(before: Seq<Node<P>>, items: Seq<TransferItem>, edges: Seq<NodeRef>, j: int)
    ensures
        delivered(before, items, edges, j).len() == before[j].items@.len() + items.len() * multiplicity(edges, j),
{
    lemma_fan_out_len(items, multiplicity(edges, j));
}

/// With no successors, draining a node changes no other queue: its items are discarded.
pub proof fn law_sinkless_discard<P>(before: Seq<Node<P>>, items: Seq<TransferItem>, edges: Seq<NodeRef>, j: int)
    requires
        edges.len() == 0,
    ensures
        delivered(before, items, edges, j) == before[j].items@,
{
    lemma_fan_out_none(items);
    assert(before[j].items@ + Seq::<TransferItem>::empty() =~= before[j].items@);
}

/// Number of items queued in the first `m` nodes of `nodes`.
pub open spec fn queued<P>(nodes: Seq<Node<P>>, m: nat) -> nat
    decreases m,
{
    if m == 0 {
        0
    } else {
        queued(nodes, (m - 1) as nat) + nodes[m - 1].items@.len()
    }
}

/// Number of edges of `edges` that point at one of the first `m` nodes.
pub open spec fn edges_into(edges: Seq<NodeRef>, m: nat) -> nat
    decreases edges.len(),
{
    if edges.len() == 0 {
        0
    } else {
        edges_into(edges.drop_last(), m) + if edges.last().index < m { 1nat } else { 0nat }
    }
}

/// Sum of the multiplicities of the first `m` nodes.
pub open spec fn reached(edges: Seq<NodeRef>, m: nat) -> nat
    decreases m,
{
    if m == 0 {
        0
    } else {
        reached(edges, (m - 1) as nat) + multiplicity(edges, m - 1)
    }
}

proof fn lemma_reached_drop_last(edges: Seq<NodeRef>, m: nat)
    requires
        edges.len() > 0,
    ensures
        reached(edges, m) == reached(edges.drop_last(), m) + if edges.last().index < m { 1nat } else { 0nat },
    decreases m,
{
    if m > 0 {
        lemma_reached_drop_last(edges, (m - 1) as nat);
    }
}

proof fn lemma_reached_is_edges_into(edges: Seq<NodeRef>, m: nat)
    ensures
        reached(edges, m) == edges_into(edges, m),
    decreases edges.len(),
{
    if edges.len() == 0 {
        lemma_reached_empty(edges, m);
    } else {
        lemma_reached_drop_last(edges, m);
        lemma_reached_is_edges_into(edges.drop_last(), m);
    }
}

proof fn lemma_reached_empty(edges: Seq<NodeRef>, m: nat)
    requires
        edges.len() == 0,
    ensures
        reached(edges, m) == 0,
    decreases m,
{
    if m > 0 {
        lemma_reached_empty(edges, (m - 1) as nat);
    }
}

/// Item count after draining node `n` into its successors: in the first `m`
/// nodes, `n`'s items leave and every edge into them brings one copy of each.
proof fn lemma_queued_after_broadcast<P>(before: Seq<Node<P>>, after: Seq<Node<P>>, n: int, edges: Seq<NodeRef>, m: nat)
    requires
        m <= before.len(),
        after.len() == before.len(),
        0 <= n < before.len(),
        multiplicity(edges, n) == 0,
        after[n].items@.len() == 0,
        forall|j: int| 0 <= j < before.len() && j != n ==>
            (#[trigger] after[j]).items@ == delivered(before, before[n].items@, edges, j),
    ensures
        queued(after, m) + if n < m { before[n].items@.len() } else { 0 } == queued(before, m) + before[n].items@.len() * reached(edges, m),
    decreases m,
{
    let k = before[n].items@.len();
    if m > 0 {
        let j = m - 1;
        lemma_queued_after_broadcast(before, after, n, edges, (m - 1) as nat);
        let mj = multiplicity(edges, j);
        let r = reached(edges, (m - 1) as nat);
        assert(k * (r + mj) == k * r + k * mj) by (nonlinear_arith);
        if j != n {
            law_delivery_count(before, before[n].items@, edges, j);
            assert(after[j].items@.len() == before[j].items@.len() + k * mj);
        } else {
            assert(k * mj == 0) by (nonlinear_arith)
                requires
                    mj == 0,
            ;
        }
        assert(queued(after, m) == queued(after, (m - 1) as nat) + after[j].items@.len());
        assert(queued(before, m) == queued(before, (m - 1) as nat) + before[j].items@.len());
        assert(reached(edges, m) == r + mj);
        if j == n {
            assert(queued(after, (m - 1) as nat) == queued(before, (m - 1) as nat) + k * r);
        } else {
            assert(queued(after, (m - 1) as nat) + (if n < m - 1 { k } else { 0 }) == queued(before, (m - 1) as nat) + k * r);
        }
    } else {
        assert(reached(edges, 0) == 0);
        assert(k * 0 == 0);
    }
}

/// Appends a copy of every item of `items`, in order, to the queue of every
/// registered node that an edge of `edges` points at, once per edge; edges
/// to nodes not in `nodes` are skipped.
fn broadcast<P>(nodes: &mut Vec<Node<P>>, items: &Vec<TransferItem>, edges: &Vec<NodeRef>)
    ensures
        final(nodes)@.len() == old(nodes)@.len(),
        forall|j: int| 0 <= j < old(nodes)@.len() ==> {
            &&& (#[trigger] final(nodes)@[j]).items@ == delivered(old(nodes)@, items@, edges@, j)
            &&& final(nodes)@[j].successors@ == old(nodes)@[j].successors@
            &&& final(nodes)@[j].data == old(nodes)@[j].data
        },
{
    let ghost before = nodes@;
    let mut i: usize = 0;
    while i < items.len()
        invariant
            0 <= i <= items@.len(),
            nodes@.len() == before.len(),
            forall|j: int| 0 <= j < before.len() ==> {
                &&& (#[trigger] nodes@[j]).items@ == before[j].items@ + fan_out(items@.take(i as int), multiplicity(edges@, j))
                &&& nodes@[j].successors@ == before[j].successors@
                &&& nodes@[j].data == before[j].data
            },
        decreases items@.len() - i,
    {
        let item = items[i];
        let ghost mid = nodes@;
        let mut s: usize = 0;
        while s < edges.len()
            invariant
                0 <= i < items@.len(),
                item == items@[i as int],
                0 <= s <= edges@.len(),
                nodes@.len() == before.len(),
                mid.len() == before.len(),
                forall|j: int| 0 <= j < before.len() ==> {
                    &&& (#[trigger] nodes@[j]).items@ == mid[j].items@ + copies(item, multiplicity(edges@.take(s as int), j))
                    &&& nodes@[j].successors@ == before[j].successors@
                    &&& nodes@[j].data == before[j].data
                },
            decreases edges@.len() - s,
        {
            let target = edges[s].index;
            let ghost prev = nodes@;
            if target < nodes.len() {
                nodes[target].items.push(item);
            }
            assert(edges@.take(s + 1).drop_last() =~= edges@.take(s as int));
            assert forall|j: int| 0 <= j < before.len() implies {
                &&& (#[trigger] nodes@[j]).items@ == mid[j].items@ + copies(item, multiplicity(edges@.take(s + 1), j))
                &&& nodes@[j].successors@ == before[j].successors@
                &&& nodes@[j].data == before[j].data
            } by {
                let k = multiplicity(edges@.take(s as int), j);
                assert(edges@.take(s + 1).last() == edges@[s as int]);
                assert(multiplicity(edges@.take(s + 1), j) == k + if target == j { 1nat } else { 0nat });
                if target == j {
                    assert(copies(item, k + 1) =~= copies(item, k).push(item));
                    assert(nodes@[j].items@ =~= mid[j].items@ + copies(item, k + 1));
                } else {
                    assert(nodes@[j] == prev[j]);
                }
            }
            s = s + 1;
        }
        proof {
            assert(edges@.take(s as int) =~= edges@);
            assert(items@.take(i + 1).drop_last() =~= items@.take(i as int));
            assert forall|j: int| 0 <= j < before.len() implies
                #[trigger] nodes@[j].items@ == before[j].items@ + fan_out(items@.take(i + 1), multiplicity(edges@, j)) by {
                let k = multiplicity(edges@, j);
                assert(fan_out(items@.take(i + 1), k) == fan_out(items@.take(i as int), k) + copies(item, k));
                assert(nodes@[j].items@ =~= before[j].items@ + fan_out(items@.take(i + 1), k));
            }
        }
        i = i + 1;
    }
    assert(items@.take(i as int) =~= items@);
}

impl<P> Node<P> {
    /// Drains the queue: every item, front first, is appended to the queue of
    /// each successor held by `shared`, once per edge. Successors are not
    /// triggered in turn. Edges to nodes that `shared` does not hold are
    /// skipped; with no successors the items are discarded.
    pub fn trigger(&mut self, shared: &mut Graph<P>)
        ensures
            final(self).items@ == Seq::<TransferItem>::empty(),
            final(self).successors@ == old(self).successors@,
            final(self).data == old(self).data,
            final(shared).nodes@.len() == old(shared).nodes@.len(),
            forall|j: int| 0 <= j < old(shared).nodes@.len() ==> {
                &&& (#[trigger] final(shared).nodes@[j]).items@ == delivered(old(shared).nodes@, old(self).items@, old(self).successors@, j)
                &&& final(shared).nodes@[j].successors@ == old(shared).nodes@[j].successors@
                &&& final(shared).nodes@[j].data == old(shared).nodes@[j].data
            },
    {
        let mut items: Vec<TransferItem> = Vec::new();
        std::mem::swap(&mut self.items, &mut items);
        broadcast(&mut shared.nodes, &items, &self.successors);
    }
}

impl<P> Graph<P> {
    /// Triggers the registered node `n`: its queue is drained and every item,
    /// front first, is appended to the queue of each of its successors, once
    /// per edge. A node may not be its own successor: it is being drained
    /// while the items are delivered.
    pub fn trigger(&mut self, n: NodeRef)
        requires
            old(self).contains(n),
            multiplicity(old(self).nodes@[n.index as int].successors@, n.index as int) == 0,
        ensures
            final(self).nodes@.len() == old(self).nodes@.len(),
            final(self).nodes@[n.index as int].items@ == Seq::<TransferItem>::empty(),
            forall|j: int| 0 <= j < old(self).nodes@.len() && j != n.index ==> {
                (#[trigger] final(self).nodes@[j]).items@ == delivered(
                    old(self).nodes@,
                    old(self).nodes@[n.index as int].items@,
                    old(self).nodes@[n.index as int].successors@,
                    j,
                )
            },
            forall|j: int| 0 <= j < old(self).nodes@.len() ==> {
                &&& (#[trigger] final(self).nodes@[j]).successors@ == old(self).nodes@[j].successors@
                &&& final(self).nodes@[j].data == old(self).nodes@[j].data
            },
            // the drained items leave; every edge into the graph brings a copy of each
            queued(final(self).nodes@, old(self).nodes@.len()) + old(self).nodes@[n.index as int].items@.len()
                == queued(old(self).nodes@, old(self).nodes@.len())
                + old(self).nodes@[n.index as int].items@.len() * edges_into(
                old(self).nodes@[n.index as int].successors@,
                old(self).nodes@.len(),
            ),
    {
        let ghost before = self.nodes@;
        let mut items: Vec<TransferItem> = Vec::new();
        let mut edges: Vec<NodeRef> = Vec::new();
        std::mem::swap(&mut self.nodes[n.index].items, &mut items);
        std::mem::swap(&mut self.nodes[n.index].successors, &mut edges);
        let ghost drained = self.nodes@;
        let ghost out_edges = edges@;
        assert(items@ == before[n.index as int].items@);
        assert(out_edges == before[n.index as int].successors@);
        assert(forall|j: int| 0 <= j < before.len() && j != n.index ==> drained[j] == before[j]);
        assert(drained[n.index as int].data == before[n.index as int].data);
        broadcast(&mut self.nodes, &items, &edges);
        let ghost delivered_to = self.nodes@;
        std::mem::swap(&mut self.nodes[n.index].successors, &mut edges);
        proof {
            assert forall|j: int| 0 <= j < before.len() implies {
                &&& (#[trigger] self.nodes@[j]).successors@ == before[j].successors@
                &&& self.nodes@[j].data == before[j].data
            } by {
                if j != n.index {
                    assert(self.nodes@[j] == delivered_to[j]);
                }
            }
            assert(self.nodes@[n.index as int].successors@ == before[n.index as int].successors@);
            lemma_fan_out_none(items@);
            assert(self.nodes@[n.index as int].items@ =~= Seq::<TransferItem>::empty());
            assert forall|j: int| 0 <= j < before.len() && j != n.index implies
                (#[trigger] self.nodes@[j]).items@ == delivered(before, before[n.index as int].items@, out_edges, j) by {
                assert(self.nodes@[j] == delivered_to[j]);
                assert(drained[j] == before[j]);
            }
            lemma_queued_after_broadcast(before, self.nodes@, n.index as int, out_edges, before.len());
            lemma_reached_is_edges_into(out_edges, before.len());
        }
    }
}

} // verus!
