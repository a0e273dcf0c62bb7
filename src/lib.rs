//! Per-process network traffic observer: windowed statistics over socket
//! message events, a filter language over socket attributes, and the state
//! machines of the terminal view.

pub mod clock;
pub mod filter;
pub mod history;
pub mod interest;
pub mod parser;
pub mod render;
pub mod segment;
pub mod socktable;
pub mod sparkline;
pub mod stat;
pub mod store;
pub mod types;
pub mod view;
