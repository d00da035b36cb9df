//! Reading and validating the on-disk database of a native package manager:
//! a decoder for the `%KEY%` descriptor format, the local package model that
//! checks its file manifest against the filesystem, and the database
//! status/usage vocabulary.
pub mod db;
pub mod desc;
pub mod encode;
pub mod error;
pub mod manifest;
pub mod package;
