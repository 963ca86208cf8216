//! Tag governance and event search for a public directory of places and events.

pub mod entities;
pub mod error;
pub mod moderation;
pub mod ports;
pub mod presenters;
pub mod query;
pub mod search;
pub mod tags;
pub mod text;
pub mod usecases;
