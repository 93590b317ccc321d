//! Rules for keeping a game's load-path configuration and its addon folders
//! consistent: a line-level patcher for the load-path block and the decisions
//! of the addon deployment life cycle.
pub mod addons;
pub mod block_laws;
pub mod deploy_laws;
pub mod error;
pub mod game;
pub mod inventory;
pub mod manager;
pub mod paths;
pub mod search_paths;
pub mod text;
pub mod text_laws;
