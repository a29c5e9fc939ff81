//! Core logic of a visual-novel library launcher: the row deserializer and the
//! result-page reader for the ErogameScape SQL form, and the decisions taken
//! while scanning game folders.
use vstd::prelude::*;

pub mod deserializer;
pub mod error;
pub mod html;
pub mod interface;
pub mod scan;
pub mod sql;
pub mod text;
