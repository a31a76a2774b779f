//! A tournament tracker's domain model: tournaments made of round-robin and
//! bracket stages, their teams, matches and fixtures, the batched notification
//! of changes, and the upgrade of stored data from older formats.
pub mod entries;
pub mod model;
pub mod ui;
