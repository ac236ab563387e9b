//! A small bookmark-management library: records with a URL, a title, tags and
//! a read flag, kept in a store sorted by creation time, together with the
//! request validation, identifier checking and error mapping that an HTTP
//! front end needs.

pub mod error;
pub mod models;
pub mod object_id;
pub mod repository;
pub mod service;
pub mod store_model;
pub mod validation;
