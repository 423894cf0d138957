//! Decision logic of an autoscaler that grows and shrinks a Gunicorn server.

pub mod args;
pub mod config;
pub mod controller;
pub mod durations;
pub mod laws;
pub mod number;
pub mod statsd;
pub mod system;
pub mod text;
pub mod window;
pub mod window_model;
