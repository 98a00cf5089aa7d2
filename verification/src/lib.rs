//! A verified core for a terminal system monitor.

pub mod app;
pub mod banner;
pub mod config;
pub mod cpu;
pub mod desktop;
pub mod figure;
pub mod flat;
pub mod gpu;
pub mod layout;
pub mod lines;
pub mod models;
pub mod number;
pub mod order;
pub mod pairs;
pub mod panels;
pub mod pci;
pub mod plan;
pub mod processes;
pub mod reading;
pub mod split;
pub mod text;
pub mod theme;
pub mod tui;
pub mod ui;
pub mod usage;
pub mod widgets;
