//! A verified catalog extractor for a seasonal media listing: it resolves
//! detail-page links out of a listing page, extracts one structured entry
//! per detail page with per-item failure isolation, derives and confirms a
//! companion-site cross-reference for each title, and renders the sorted,
//! delimited output artifact.

pub mod anime;
pub mod scrape;
pub mod text;
