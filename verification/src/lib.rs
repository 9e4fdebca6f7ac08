pub mod text;
pub mod ids;
pub mod hierarchy;
pub mod scene_tree;
pub mod tree_laws;
pub mod history;
pub mod project;
pub mod morph;
pub mod geometry;
pub mod agent;
pub mod export;
pub mod glb;
pub mod command;
pub mod node_commands;
pub mod scene_edits;
pub mod edit_laws;
pub mod project_edits;
pub mod project_checks;
pub mod project_repairs;
pub mod mesh_topology;
pub mod order_laws;
pub mod project_documents;
