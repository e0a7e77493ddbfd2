//! Verified core of a personal schedule manager.
pub mod accounts;
pub mod api_client;
pub mod calendar;
pub mod date;
pub mod desktop;
pub mod editor;
pub mod handlers;
pub mod http;
pub mod instant;
pub mod labels;
pub mod models;
pub mod month;
pub mod order;
pub mod reminders;
pub mod render;
pub mod repository;
pub mod server;
pub mod session;
pub mod settings;
pub mod sync;
pub mod table;
pub mod text;
pub mod tray;
pub mod widget;
pub mod widget_diagnostics;
pub mod window;
