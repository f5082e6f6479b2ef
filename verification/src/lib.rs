//! A verified core for a terminal pizza-ordering client/server pair:
//! a minimal HTTP-over-TCP request/response layer (request construction,
//! response parsing with Content-Length framing, status handling), the
//! catalog text formats, the terminal menu state machine with its
//! custom-pizza composition sub-flow, and the transaction fallback queue.

pub mod state;
pub mod strutil;
pub mod table;
pub mod table_menu;
pub mod backend;
pub mod console;
pub mod custom;
pub mod custom_toppings;
pub mod input;
pub mod laws;
pub mod render;
pub mod request;
pub mod response;
pub mod transactions;
pub mod types;
pub mod update;
pub mod urlenc;
