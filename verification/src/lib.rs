//! The logic of a development-stack supervisor: unit states and their spellings, the readable
//! filter that turns program output into lines, the rows and the view a popup draws, and the
//! decisions the daemon makes about what it owns.

pub mod agent;
pub mod cli;
pub mod client;
pub mod daemon;
pub mod docker;
pub mod env;
pub mod errand;
pub mod form;
pub mod herdr;
pub mod json;
pub mod layout;
pub mod local;
pub mod manifest;
pub mod mode;
pub mod paths;
pub mod popup;
pub mod project;
pub mod peek;
pub mod ports;
pub mod readable;
pub mod state;
pub mod store;
pub mod supervisor;
pub mod rows;
pub mod text;
pub mod tail;
pub mod terminal;
pub mod tree;
pub mod tui;
pub mod unit;
pub mod view;
