//! Verified core of a sample-and-hold decimator audio effect for the Unity
//! native audio plugin interface.

pub mod interface;
pub mod effect_state;
pub mod decimator;
