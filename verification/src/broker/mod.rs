//! The message broker: its wire format, its configuration, and the
//! publish/subscribe routing between connected services.

pub mod messages;
pub mod config;
pub mod router;
