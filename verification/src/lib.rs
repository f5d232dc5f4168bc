//! Core of a file synchronizer for container workloads: given sync rules
//! that map local source paths to destinations inside pods selected by
//! label selectors, this library decides which rules a filesystem change
//! or a pod-readiness transition matches, how bursts of raw change events
//! coalesce into single triggers, and which copy operations a trigger
//! fans out into. All I/O (filesystem watching, cluster queries, the
//! copies themselves) is left to the surrounding program; the library
//! works on plain values and every function is verified.

pub mod config;
pub mod controller;
pub mod debounce;
pub mod router;
pub mod syncer;
