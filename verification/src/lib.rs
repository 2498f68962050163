//! A small web scraping library: worker pools that fetch pages concurrently, and
//! CSS-selector-based HTML parsing.
//!
//! What a pool decides stands here: which jobs its workers get, where their
//! results go and what readers are handed ([`pool`], [`queue`], [`handle`],
//! [`state`]), which request a fetch sends and how long it may take ([`fetch`]),
//! and what queries find on a page ([`parsers`]). The program around it owns the
//! threads, the locks and the sockets. What holds over several calls is stated
//! and proved in [`laws`], [`runs`] and [`history`], and what each call is for in
//! [`outcomes`].

pub mod errors;
pub mod fetch;
pub mod handle;
pub mod history;
pub mod laws;
pub mod outcomes;
pub mod parsers;
pub mod pool;
pub mod queue;
pub mod quotes;
pub mod runs;
pub mod state;
pub mod structs;

pub use crate::errors::{FetchError, FetchLinkError};
pub use crate::fetch::{default_agent, DEFAULT_TIMEOUT};
pub use crate::handle::FetchHandle;
pub use crate::pool::{fetch_many, fetch_many_with_agent, FetchQueue, WorkerPool};
pub use crate::pool::{init_worker_pool, init_worker_pool_with_agent};
