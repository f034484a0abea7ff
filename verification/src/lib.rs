//! The decisions of the Codex2API desktop shell, verified: reading the port
//! from `.env`, generating the default `.env`, the admin URL and the health
//! check, the scripts sent to the start page, the start-up monitor, stopping
//! the backend, and the tray menu.

pub mod text;
pub mod env;
pub mod json;
pub mod endpoint;
pub mod status;
pub mod monitor;
pub mod tray;
