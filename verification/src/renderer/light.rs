//! A light placed in the world

use vstd::prelude::*;

use std::sync::Arc;

verus! {

/// A light: its type and configuration `T`, and its world transform `M`
#[derive(Debug)]
pub struct Light<T, M> {
    /// The type of light and its configuration
    pub data: Arc<T>,
    /// The world transform of the light
    pub world_transform: M,
}

} // verus!
