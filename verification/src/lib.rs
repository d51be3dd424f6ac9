//! The decisions of a keyboard-first file browser with Miller columns.
pub mod browser;
pub mod change_laws;
pub mod choice_laws;
pub mod command_laws;
pub mod content_laws;
pub mod copy_walk;
pub mod delete_walk;
pub mod dialogs;
pub mod entry;
pub mod event;
pub mod files;
pub mod gestures;
pub mod labels;
pub mod laws;
pub mod location_bar;
pub mod model;
pub mod names;
pub mod observers;
pub mod operation_laws;
pub mod operations;
pub mod order;
pub mod order_laws;
pub mod place_laws;
pub mod pointing;
pub mod presentation;
pub mod rows;
pub mod screen;
pub mod selection_laws;
pub mod sort_menu;
pub mod sorting;
pub mod state;
pub mod task_laws;
pub mod text;
pub mod view;
pub mod view_laws;
pub mod walk_laws;
pub mod wording_laws;
