//! RVM (PDMS/E3D plant model) to GLB conversion: the verified core.
pub mod io;
pub mod geometry;
pub mod color_store;
pub mod rvm_format;
pub mod text;
pub mod hashing;
pub mod reader;
pub mod model;
pub mod rvm_body;
pub mod node_store;
pub mod rvm_parser;
pub mod glb;
pub mod mesh_index;
pub mod node_tree;
pub mod structure;
pub mod tess;
