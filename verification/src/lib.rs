//! A shared language-intelligence bridge: the decisions, documents, edits and
//! messages behind one local core that many agents and an editor talk to.
//!
//! Every function here works on plain values. Reading files, running language
//! servers and serving requests is done by the program around this library.

pub mod text;
pub mod table;
pub mod json;
pub mod wire;
pub mod fault;
pub mod protocol;
pub mod symbols;
pub mod output;
pub mod escape;
pub mod path;
pub mod order;
pub mod workspace;
pub mod language;
pub mod refactor;
pub mod uri;
pub mod lsp;
pub mod companion;
pub mod documents;
pub mod checks;
pub mod status;
pub mod registry;
pub mod application;
pub mod selection;
pub mod plans;
pub mod server;
pub mod cli;
pub mod rename;
