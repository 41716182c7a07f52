//! Document synchronisation with downstream language servers.

pub mod did_open;
