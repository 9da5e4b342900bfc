//! The client side of the registry protocol, as states and decisions: what
//! to send next, and what a response means. The transport itself belongs to
//! the caller, who performs each action and hands back what came of it.

pub mod auth;
pub mod pull;
pub mod push;
pub mod retry;
pub mod upload;
pub mod url;
