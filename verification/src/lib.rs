pub mod error;
pub mod graph;
pub mod graph_generator;
pub mod history;
pub mod log;
pub mod model;
pub mod settings;
pub mod window_events;
