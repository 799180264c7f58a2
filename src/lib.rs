//! Game session engine for a turn-based team vocabulary game: scoring,
//! validation, game creation and round completion, and the scored view of a
//! game rebuilt from the rows of its join; with the word catalog's domain
//! rules and the text cleanup of imported definitions.
//!
//! Times of games are microseconds since the Unix epoch (UTC); timestamps of
//! catalog words are seconds since the Unix epoch.

pub mod auth;
pub mod common;
pub mod definition_text;
pub mod enums;
pub mod error;
pub mod game;
pub mod game_service;
pub mod requests;
pub mod sql;
pub mod team;
pub mod team_result;
pub mod team_rows;
pub mod view;
pub mod word;
pub mod word_definition;
pub mod word_result;
pub mod word_search;
