//! The types of the library in one place.
pub use crate::errors::{FetchError, FetchLinkError};
pub use crate::handle::FetchHandle;
pub use crate::queue::{JobStatus, Queue, ScrapeJob};
