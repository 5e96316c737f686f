//! Core engine of a device application manager: package-list parsing,
//! change-set computation, installer label resolution, and the command
//! planning that drives mutating actions on a device reached over a
//! debug bridge.

pub mod action;
pub mod apk;
pub mod categories;
pub mod diff;
pub mod listview;
pub mod manifest;
pub mod package;
pub mod pool;
pub mod restable;
pub mod session;
pub mod strutil;
pub mod sync;
