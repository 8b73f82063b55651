use vstd::prelude::*;

pub mod abilities;
pub mod admin;
pub mod arena;
pub mod arena_stats;
pub mod chat;
pub mod chat_status;
pub mod combat_wisdom;
pub mod crafting;
pub mod csv_import;
pub mod drop_search;
pub mod food_sources;
pub mod kill_tracking;
pub mod replay;
pub mod roulette;
pub mod sort;
pub mod text;
pub mod word_catalog;
pub mod words_import;

verus! {
} // verus!
