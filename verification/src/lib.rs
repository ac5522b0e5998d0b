use vstd::prelude::*;

pub mod text;
pub mod utils;
pub mod errors;
pub mod models;
pub mod passwords;
pub mod store;
pub mod auth;
pub mod app;
pub mod views;
pub mod web;
