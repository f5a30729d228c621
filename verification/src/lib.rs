//! Decision logic of a market watcher: price resolution across two quote
//! sources, a watchlist of price alerts, and the polling passes that fire
//! alerts and deliver news in order.
//!
//! Nothing here touches the network or sleeps. Each long-running activity is
//! a state machine: the caller performs the action it is handed, reports
//! what happened as an event, and receives the next action. The one thing
//! read from outside is the clock, once, when the news poller starts.

pub mod alerts;
pub mod binary64;
pub mod market;
pub mod monitor;
pub mod news;
pub mod seq_facts;
pub mod watchlist;
