//! A GitLab server for tests: its jobs, and how it answers a runner.
pub mod api;
pub mod job;
pub mod server;
