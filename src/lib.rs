//! Resolution, listing and installation logic for standalone Python
//! interpreter builds, with its behaviour stated as Verus contracts.

pub mod directories;
pub mod error;
pub mod install;
pub mod releases;
pub mod retry;
pub mod text;
pub mod version;
