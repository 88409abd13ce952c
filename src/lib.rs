//! Engine of an interactive browser for recently installed command-line tools.
//!
//! - `ansi`: decoder from text with SGR escape sequences to styled lines.
//! - `app`: the browser session: filtering, ordering, selection, key handling
//!   and the bookkeeping of preview fetches, with the laws they obey.
//! - `preview`: assembly of a tool's preview from the commands that describe it.
//! - `collect`: tool records, merging, install dates, and the readers of the
//!   package managers' listings and of the record cache.
//! - `audit`: usage counts from raw audit records.
//! - `text`: string primitives and fixed-width text helpers.

pub mod ansi;
pub mod app;
pub mod audit;
pub mod collect;
pub mod preview;
pub mod text;
