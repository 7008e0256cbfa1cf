//! Logic of a STEP model viewer.

pub mod assembly;
pub mod assembly_chain;
pub mod browser;
pub mod browser_laws;
pub mod chains;
pub mod colors;
pub mod display;
pub mod drawn;
pub mod entities;
pub mod entity_laws;
pub mod exchange;
pub mod graph;
pub mod input;
pub mod lines;
pub mod load_laws;
pub mod load_state;
pub mod loader;
pub mod mesh;
pub mod model;
pub mod net_laws;
pub mod nsi_export;
pub mod nsi_laws;
pub mod nsi_overlay;
pub mod nsi_reader;
pub mod nsi_scene;
pub mod numbers;
pub mod optimize;
pub mod order;
pub mod panel;
pub mod parameter;
pub mod parameter_laws;
pub mod parsing;
pub mod pick_laws;
pub mod piece_laws;
pub mod prepare;
pub mod previews;
pub mod recolor;
pub mod record_laws;
pub mod records;
pub mod scan_laws;
pub mod scene_laws;
pub mod schema;
pub mod screenshot;
pub mod selection;
pub mod settings;
pub mod shape_laws;
pub mod shell_mesh;
pub mod slot_laws;
pub mod style_chain;
pub mod surface_net;
pub mod table_laws;
pub mod text;
pub mod trim_loops;
pub mod trim_pieces;
pub mod view_laws;
pub mod word_laws;
pub mod written;
