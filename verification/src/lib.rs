//! Porpoise: the decisions of a PDF viewer that reorders, deletes and merges pages.

pub mod order;
pub mod order_laws;
pub mod text;
pub mod text_laws;
pub mod pdf;
pub mod prune;
pub mod renumber;
pub mod inherit;
pub mod inherit_laws;
pub mod save;
pub mod save_laws;
pub mod view;
pub mod label;
pub mod stage;
pub mod grid;
pub mod selection;
pub mod selection_laws;
pub mod search;
pub mod search_laws;
pub mod retain;
pub mod failure;
pub mod button;
pub mod confirm;
pub mod command;
pub mod edits;
pub mod navigation;
pub mod tiles;
pub mod mail;
pub mod picker;
pub mod saver;
pub mod queue;
pub mod input;
pub mod input_laws;
pub mod devtools;
pub mod json;
pub mod protocol;
pub mod protocol_laws;
pub mod wire_laws;
pub mod control;
pub mod document;
pub mod session;
pub mod snapshot;
pub mod reply;
pub mod gesture;
pub mod session_laws;
pub mod command_laws;
pub mod chrome;
pub mod report;
pub mod atomic;
pub mod place_laws;
pub mod channel_laws;
pub mod grid_laws;
pub mod shell_laws;
pub mod snapshot_laws;
