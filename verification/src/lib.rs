//! The logic of `pc`, a deliberately small remote coding MCP server.

pub mod config;
pub mod escape;
pub mod json;
pub mod oauth;
pub mod outside;
pub mod paths;
pub mod sandbox;
pub mod service;
pub mod startup;
pub mod text;
pub mod time;
pub mod tools;
