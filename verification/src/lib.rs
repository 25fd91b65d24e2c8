//! A multi-resolution OHLC ("candlestick") aggregation library.
//!
//! A stream of price ticks is folded into one rolling candlestick record per
//! configured time window; each update is framed as a bus message (routing
//! key plus byte payload), and a per-subscriber session state machine decides
//! which bus messages are forwarded to that subscriber's transport.

pub mod aggregator;
pub mod bytes;
pub mod codec;
mod clock;
pub mod kline;
pub mod relay;
pub mod session;
pub mod window;
