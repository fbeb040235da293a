use vstd::prelude::*;

pub mod commands;
pub mod external;
pub mod json;
pub mod lovense;
pub mod server;
pub mod store;
pub mod text;

verus! {
} // verus!
