//! An ordered, short-circuiting request pipeline: chains of steps, a
//! terminal handler, and a dispatch supervisor that always ends in exactly
//! one response.

pub mod http;
pub mod middleware;
pub mod dispatch;
