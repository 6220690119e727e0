//! A network of machines, drawn as a graph: the graph's model, its GraphML
//! and GEXF files, and the rules by which it is edited and updated.
pub mod model;
pub mod text;
pub mod coordinate;
pub mod xml_source;
pub mod graphml_parser;
pub mod saver;
pub mod files;
pub mod api;
pub mod editing;
pub mod connection;
pub mod graphml_round_trip;
pub mod saved_text;
