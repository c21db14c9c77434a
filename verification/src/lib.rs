//! Logic of a Composer-compatible package manager for PHP.

pub mod archive;
pub mod auth;
pub mod autoload;
pub mod cache;
pub mod classmap;
pub mod collections;
pub mod commands;
pub mod constraint;
pub mod content_hash;
pub mod download;
pub mod error;
pub mod fields;
pub mod hash;
pub mod index;
pub mod installed;
pub mod installer_paths;
pub mod json;
pub mod lock;
pub mod manifest;
pub mod package;
pub mod paths;
pub mod php;
pub mod php_json;
pub mod platform;
pub mod progress;
pub mod ranges;
pub mod reach;
pub mod read_back;
pub mod releases;
pub mod repo;
pub mod repositories;
pub mod resolve;
pub mod solution;
pub mod solver;
pub mod sorter;
pub mod sources;
pub mod text;
pub mod version;
