//! Behaviour that any node of the network can take up.

pub mod flooder;
