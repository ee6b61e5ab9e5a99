//! Control surface for a fleet of networked speakers: the state model, the
//! typed command language, play-history ranking and a layout-free projection
//! of the dashboard, each with its contract.

pub mod app;
pub mod command;
pub mod control;
pub mod history;
pub mod model;
pub mod text;
pub mod view;
