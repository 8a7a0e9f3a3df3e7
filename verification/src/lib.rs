//! The desktop shell's logic, verified: what it asks about, what it remembers, what it shows.
pub mod agents;
pub mod app_context;
pub mod approvals;
pub mod apps;
pub mod calendar;
pub mod caller_identity;
pub mod clock;
pub mod config_store;
pub mod control;
pub mod control_agent_terminal;
pub mod control_agents;
pub mod control_approvals;
pub mod control_editor;
pub mod control_files;
pub mod control_installer;
pub mod control_recipes;
pub mod control_update;
pub mod fileops;
pub mod harness_install;
pub mod json;
pub mod lens_history;
pub mod lock;
pub mod markdown;
pub mod mind_mode;
pub mod models;
pub mod notifications;
pub mod paths;
pub mod running;
pub mod seqs;
pub mod surface;
pub mod text;
pub mod trail;
