//! A bridge between the channels of one guild and IRC-style relay networks:
//! every category of the guild is one remote server, every text channel in it
//! one remote channel. This crate holds the routing decisions, proved.

pub mod table;
pub mod topology;
pub mod relay;
pub mod config;
