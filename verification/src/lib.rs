//! Core of an agentic development environment: worktrees, sessions, agents,
//! review and guest machines, as plain data and decisions.
#![allow(unused_imports)]

pub mod agent;
pub mod backend;
pub mod bars;
pub mod ch;
pub mod clock;
pub mod composer;
pub mod config;
pub mod container;
pub mod context;
pub mod costs;
pub mod desk;
pub mod diff_view;
pub mod dispatcher;
pub mod driver;
pub mod events;
pub mod file_view;
pub mod fleet;
pub mod image;
pub mod keys;
pub mod manager;
pub mod microvm;
pub mod order;
pub mod outside;
pub mod palette;
pub mod paths;
pub mod permission;
pub mod provider;
pub mod review;
pub mod runtime;
pub mod sbx;
pub mod scrollback;
pub mod secrets;
pub mod seed;
pub mod session;
pub mod sidebar;
pub mod sorted_map;
pub mod store;
pub mod supervisor;
pub mod sweeper;
pub mod task;
pub mod terminal;
pub mod text;
pub mod theme;
pub mod transcript;
pub mod uds;
pub mod vm_thread;
pub mod worktree;
