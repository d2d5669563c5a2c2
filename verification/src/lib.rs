//! Core of a local secret vault: hierarchical names, encryption at rest,
//! pluggable storage and a self-describing dump format.

pub mod cipher;
pub mod cli;
pub mod codec;
pub mod config;
pub mod container;
pub mod dump;
pub mod error;
pub mod gitfs;
pub mod password;
pub mod redb;
pub mod storage;
pub mod text;
pub mod vault;
