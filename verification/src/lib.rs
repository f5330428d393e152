//! Verified cores of a family of small text utilities.
//!
//! The centrepiece is the tail engine in [`tail`]: a sign-aware count
//! specification, an offset resolver, a single-pass size scanner and a
//! byte-level extractor, each with a full functional contract.  Around it
//! stand the verified cores of the sibling utilities: column-range
//! selection ([`ranges`]), month parsing and calendar layout ([`month`],
//! [`calendar`]), sorted-stream merging ([`comm`]), pattern filtering
//! ([`find`]), stream counting ([`wc`]), adjacent-line grouping
//! ([`uniq`]), fortune collections ([`fortune`]) and permission
//! formatting ([`mode`]).  [`chars`] and [`digits`] hold the shared
//! character and decimal models.
//!
//! Everything here is pure: opening files, reading input and writing
//! output belong to the programs built around the library.

pub mod calendar;
pub mod chars;
pub mod comm;
pub mod digits;
pub mod find;
pub mod fortune;
pub mod mode;
pub mod month;
pub mod ranges;
pub mod tail;
pub mod uniq;
pub mod wc;
