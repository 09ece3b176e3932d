//! Connectors that read the sessions of coding agents and give them one shape.
//!
//! Each connector decides where its agent keeps sessions, which files there are
//! its own, and which conversations they hold. A look at the disk is a plain
//! value (`disk`), so that all of this is decided by functions of their
//! arguments: GitHub Copilot (`copilot`), miniharness (`miniharness`) and Muse
//! (`muse`). Operation logs of VS Code chat sessions are replayed by
//! `vscode_chat`, and what holds of every replay stands in `replay_laws`; what
//! holds of a module as a whole stands in the `laws` below it, and what holds of
//! the models of its values in `model_laws`.
pub mod text;
pub mod json;
pub mod document;
pub mod timeline;
pub mod paths;
pub mod order;
pub mod disk;
pub mod scan;
pub mod types;
pub mod content;
pub mod vscode_chat;
pub mod replay_laws;
pub mod model_laws;
pub mod copilot;
pub mod miniharness;
pub mod muse;
