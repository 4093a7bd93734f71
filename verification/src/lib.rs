//! Verified core of the LatentSlate editor: the data model, names and
//! orderings, the asset library's rules, timeline clip moves and deletions,
//! the checks automation commands make, the asset lab's version history and
//! graph, and small parsers.

// Text and ordering foundations.
pub mod text;
pub mod counting;
pub mod sorting;
pub mod natural_spec;
pub mod natural;
pub mod uuid_text;
pub mod ids;

// The data model.
pub mod model;
pub mod lab_model;

// Assets, names and the asset library.
pub mod library;
pub mod library_view;
pub mod naming;
pub mod assets;
pub mod import;
pub mod selection;
pub mod hex_color;
pub mod project_list;
pub mod editor;

// The timeline.
pub mod moves;
pub mod audio;
pub mod deletion;
pub mod editor_selection;
pub mod duplication;

// Checks made by automation commands.
pub mod commands;
pub mod config_check;
pub mod credentials;

// The asset lab.
pub mod version;
pub mod records;
pub mod lab;
pub mod labels;
pub mod lineage;
pub mod lineage_order;
pub mod graph_layout;
pub mod media_refs;
pub mod lab_edit;
pub mod lab_sync;
pub mod version_delete;
pub mod version_guard;
pub mod version_edit;
pub mod session;
pub mod lab_jobs;
