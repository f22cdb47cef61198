//! Reminder appliance core: configuration validation, the audio coordinator's
//! state, the per-user reminder plans and the daily holiday decision.
pub mod bindings;
pub mod conf;
pub mod day;
pub mod howler;
pub mod lemmas;
pub mod scheduler;
