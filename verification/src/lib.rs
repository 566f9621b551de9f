//! Core of a content-management backend: multipart form decoding, media
//! naming and normalization, content and user repositories, and offset
//! pagination. Durable storage and HTTP transport are collaborators that a
//! host program wires in; everything here is verified against the models
//! in each module.

#![verifier::loop_isolation(false)]

pub mod errors;
pub mod pagination;
pub mod media;
pub mod multipart;
pub mod messages;
pub mod records;
pub mod repository;
pub mod service;
pub mod slider;
pub mod users;
