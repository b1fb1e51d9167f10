//! assembly-line: run one coding-agent job and keep the branch it leaves.

pub mod cli;
pub mod commands;
pub mod config;
pub mod dag;
pub mod delivery;
pub mod depend;
pub mod edges;
pub mod event;
pub mod exec;
pub mod filepath;
pub mod gc;
pub mod git;
pub mod job;
pub mod lines;
pub mod number;
pub mod paths;
pub mod problems;
pub mod provider;
pub mod report;
pub mod review;
pub mod state;
pub mod text;
pub mod time;
pub mod workspace;
