//! Core of an artifact cataloging service: an in-memory repository of
//! artifact records (create, list, search, delete) and a deterministic
//! analysis simulator that maps a quality tier and a payload size to a
//! synthetic classification result.

pub mod analysis;
pub mod clock;
pub mod decimal;
pub mod repository;
pub mod text;
