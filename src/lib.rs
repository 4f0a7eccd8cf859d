//! Recipe records, ingredient matching and recipe selection.

pub mod client;
pub mod config;
pub mod matcher;
pub mod recipe;
pub mod selector;
pub mod store;
pub mod templates;
pub mod text;
