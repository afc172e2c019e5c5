//! Mx: build, run, inspect and control iOS apps in the Simulator.
//!
//! This crate holds the decision logic of Mx: parsing of build output and tool
//! replies, simulator selection and admission, the service-profile planner,
//! UI selectors and revisioned UI snapshots, and the byte layouts exchanged
//! with the simulator. Process spawning, sockets and the Objective-C bridge
//! live in the application around it.
pub mod diagnostics;
pub mod engine;
pub mod fleet;
pub mod flow;
pub mod interaction;
pub mod logs;
pub mod mcp;
pub mod metrics;
pub mod native;
pub mod process;
pub mod profile;
pub mod runtime;
pub mod session;
pub mod sim;
pub mod text;
pub mod ui;
pub mod web;
pub mod xcode;
