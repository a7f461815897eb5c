//! Core logic of a blog backend: a query-filter compiler over posts and
//! tags, the many-to-many association layer that keeps the join table
//! consistent with post and tag lifecycles, entity resolvers, the uniform
//! response envelope, and the session / role guards.

pub mod auth;
pub mod dates;
pub mod db;
pub mod jwt;
pub mod models;
pub mod myjsonapi;
pub mod post;
pub mod post_tags;
pub mod pw;
pub mod role;
pub mod session;
pub mod user;
pub mod tag;
pub mod text;
