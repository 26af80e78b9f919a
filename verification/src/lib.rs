//! Verified core of a small package manager for Windows applications that are
//! published as GitHub release assets.

pub mod text;
pub mod sys;
pub mod manifest;
pub mod state;
pub mod commands;
pub mod installer;
pub mod json;
