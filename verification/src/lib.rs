//! Project scaffolding from blueprints: the order in which a blueprint's
//! questions are asked, the staging of the rendered tree in memory, and the
//! bookkeeping that lets a half-applied tree be undone.

pub mod api;
pub mod apply;
pub mod collect;
pub mod engine;
pub mod errors;
pub mod graph;
pub mod kahn;
pub mod paths;
pub mod preview;
pub mod prompt;
pub mod report;
pub mod source;
pub mod stabilize;
pub mod template;
pub mod text;
pub mod transactions;
pub mod utils;
pub mod vfs;
