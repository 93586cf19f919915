//! The logic of the terminal interface: the text box, the results table,
//! the key bindings and status texts, and what is sent to the terminal.

pub mod style;
pub mod text_box;
pub mod table;
pub mod backend;
pub mod app;
