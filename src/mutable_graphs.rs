pub mod node_factory;
