pub mod auth;
pub mod error;
pub mod id;
pub mod index;
pub mod recipe;
pub mod recipes;
pub mod store;
pub mod text;
pub mod unit;
