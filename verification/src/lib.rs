//! Core logic of the novel-writing workspace: domain types, the writing
//! protocol that turns block sequences into training examples, text
//! utilities, and the small decision functions around providers and queues.
use vstd::prelude::*;

pub mod ids;
pub mod text;
pub mod content;
pub mod protocol;
pub mod events;
pub mod domain;
pub mod diff;
pub mod providers;
pub mod tool;
pub mod blocks;
pub mod tools;
pub mod commands;
pub mod hints;
pub mod context;
pub mod feedback;
pub mod secrets;
pub mod automation;
pub mod agent;
pub mod settings;
pub mod library;
