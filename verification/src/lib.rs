//! Sohara: verified core of a single-machine automation framework and its
//! control plane.

pub mod text;
pub mod keyed;
pub mod order;
pub mod json;
pub mod clock;
pub mod plane;
pub mod runtime;
pub mod persistence;
pub mod paths;
pub mod path_order;
pub mod io;
pub mod script;
