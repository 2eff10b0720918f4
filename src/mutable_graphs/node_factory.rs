use vstd::prelude::*;
use crate::move_items_in_graph::TransferItem;

verus! {

/// Handle of a node held by a `Graph`: its position in the registry.
///
/// A handle does not own the node; copying it or storing it as a successor
/// edge never keeps anything alive, so cycles of edges cannot leak.
#[derive(Clone, Copy, PartialEq, Eq, Structural, Debug)]
pub struct NodeRef {
    pub index: usize,
}

/// A vertex: a FIFO queue of pending items, the successors that receive a
/// copy of each of them on `trigger`, and a payload for the caller.
pub struct Node<P> {
    pub successors: Vec<NodeRef>,
    pub items: Vec<TransferItem>,
    pub data: P,
}

/// Something that successor edges can be added to.
pub trait Connected<T>: Sized {
    /// `after` is `before` with one more edge, towards `target`, and nothing else changed.
    spec fn linked(before: Self, after: Self, target: T) -> bool;

    fn add_edge(&mut self, node: &T)
        ensures
            Self::linked(*old(self), *final(self), *node),
    ;
}

impl<P> Node<P> {
    /// A node with an empty queue and no successors.
    pub fn new(data: P) -> (r: Node<P>)
        ensures
            r.successors@ == Seq::<NodeRef>::empty(),
            r.items@ == Seq::<TransferItem>::empty(),
            r.data == data,
    {
        Node { successors: Vec::new(), items: Vec::new(), data }
    }

    /// Appends `item` to the back of the queue.
    pub fn enqueue(&mut self, item: TransferItem)
        ensures
            final(self).items@ == old(self).items@.push(item),
            final(self).successors@ == old(self).successors@,
            final(self).data == old(self).data,
    {
        self.items.push(item);
    }

    pub fn is_empty(&self) -> (r: bool)
        ensures
            r == (self.items@.len() == 0),
    {
        self.items.len() == 0
    }
}

impl<P> Connected<NodeRef> for Node<P> {
    open spec fn linked(before: Self, after: Self, target: NodeRef) -> bool {
        &&& after.successors@ == before.successors@.push(target)
        &&& after.items@ == before.items@
        &&& after.data == before.data
    }

    fn add_edge(&mut self, node: &NodeRef) {
        self.successors.push(*node);
    }
}

/// The registry that owns every node it creates; nodes are reached by `NodeRef`.
pub struct Graph<P> {
    pub nodes: Vec<Node<P>>,
}

impl<P> Graph<P> {
    pub open spec fn contains(&self, n: NodeRef) -> bool {
        n.index < self.nodes@.len()
    }

    /// A graph with no nodes.
    pub fn new() -> (r: Graph<P>)
        ensures
            r.nodes@.len() == 0,
    {
        Graph { nodes: Vec::new() }
    }

    /// Registers a new node with an empty queue, no successors and payload
    /// `data`, and returns its handle.
    pub fn node(&mut self, data: P) -> (r: NodeRef)
        requires
            old(self).nodes@.len() < usize::MAX,
        ensures
            r.index == old(self).nodes@.len(),
            final(self).nodes@.len() == old(self).nodes@.len() + 1,
            forall|j: int| 0 <= j < old(self).nodes@.len() ==> final(self).nodes@[j] == old(self).nodes@[j],
            final(self).nodes@[r.index as int].successors@ == Seq::<NodeRef>::empty(),
            final(self).nodes@[r.index as int].items@ == Seq::<TransferItem>::empty(),
            final(self).nodes@[r.index as int].data == data,
    {
        let r = NodeRef { index: self.nodes.len() };
        self.nodes.push(Node::new(data));
        r
    }

    /// Adds an edge from the registered node `from` to `to`.
    pub fn add_edge(&mut self, from: NodeRef, to: &NodeRef)
        requires
            old(self).contains(from),
        ensures
            final(self).nodes@.len() == old(self).nodes@.len(),
            forall|j: int| 0 <= j < old(self).nodes@.len() && j != from.index ==> final(self).nodes@[j] == old(self).nodes@[j],
            Node::linked(old(self).nodes@[from.index as int], final(self).nodes@[from.index as int], *to),
    {
        self.nodes[from.index].add_edge(to);
    }

    /// Appends `item` to the queue of the registered node `n`.
    pub fn enqueue(&mut self, n: NodeRef, item: TransferItem)
        requires
            old(self).contains(n),
        ensures
            final(self).nodes@.len() == old(self).nodes@.len(),
            forall|j: int| 0 <= j < old(self).nodes@.len() && j != n.index ==> final(self).nodes@[j] == old(self).nodes@[j],
            final(self).nodes@[n.index as int].items@ == old(self).nodes@[n.index as int].items@.push(item),
            final(self).nodes@[n.index as int].successors@ == old(self).nodes@[n.index as int].successors@,
            final(self).nodes@[n.index as int].data == old(self).nodes@[n.index as int].data,
    {
        self.nodes[n.index].enqueue(item);
    }
}

} // verus!
