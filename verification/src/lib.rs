//! Core of a desktop privacy indicator.
//!
//! Three racy event sources — a media-routing daemon's registry, kernel
//! change notifications on `/dev`, and a one-shot scan of already-open
//! camera descriptors — are fused into one consistent activity state:
//! whether the microphone, the screen, or a camera is currently in use.
//! This crate holds the decision logic; the threads, the daemon
//! connection and the filesystem reads live outside it and feed it plain
//! event values.

pub mod text;

pub mod camera;

pub mod watch;

pub mod aggregator;

pub mod monitor;
