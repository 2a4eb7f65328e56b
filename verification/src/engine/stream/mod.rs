pub mod dependency_graph;
pub mod handler;
pub mod input;
pub mod junction_factory;
pub mod mapper;
pub mod output;
pub mod stream_initializer;
pub mod topo_order;
