//! The command line: its arguments, what they decide, and how results read.
pub mod app;
pub mod args;
pub mod commands;
pub mod frames;
pub mod markup;
pub mod render;
pub mod report_html;
pub mod schedule;
pub mod tui;
