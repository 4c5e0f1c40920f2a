//! A small multiplexed RPC core: a request-id tagged frame codec, a client-side
//! correlation table that matches responses to waiting callers, and a server-side
//! registry that routes calls to handlers by service id.

pub mod common;
pub mod dispatcher;
pub mod frame;
pub mod message;
pub mod service;
pub mod test_socket;
