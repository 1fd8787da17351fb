//! Interactive core of a live topic-browsing dashboard: a fuzzy-search picker
//! over a growing topic set, and the translation of feed events into updates.

pub mod fuzzy;
pub mod nt;
pub mod dashboard;
