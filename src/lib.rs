//! Directed graphs of nodes that pass items along their edges.
//!
//! `mutable_graphs::node_factory` holds the registry that owns every node,
//! `move_items_in_graph` the item type and the trigger that drains a node
//! into its successors, and `transfer_items` a cursor that moves the
//! admitted prefix of one queue onto another.

pub mod move_items_in_graph;
pub mod mutable_graphs;
pub mod transfer_items;
