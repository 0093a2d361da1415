//! Trees grown by rewriting.

pub mod pine_l_system;
