//! Verified core of lentil, a fast task-capture front end for Taskwarrior.

pub mod capture;
pub mod command;
pub mod config;
pub mod draft;
pub mod due;
pub mod num;
pub mod order;
pub mod session;
pub mod suggest;
pub mod task;
pub mod text;
