//! Maps the packages of a dependency graph to the accounts that publish them
//! on a package registry, from a cached registry snapshot and, where the
//! snapshot cannot answer, from the registry's live API.
pub mod account;
pub mod cli;
pub mod freshness;
pub mod index;
pub mod live;
pub mod resolver;
pub mod store;
pub mod table;
