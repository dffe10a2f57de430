//! Tolerant template matching: locating small reference images inside a
//! larger source image.
//!
//! A template matches at a window of the source when at most a budgeted
//! number of its pixels differ from the pixels below them by more than a
//! per-channel tolerance. The search is exhaustive over every window origin
//! that a search zone admits, and every function states its exact result
//! in its contract.

pub mod markers;
pub mod matcher;
pub mod naming;
pub mod pixel;
pub mod raster;
pub mod search;
pub mod window;
pub mod zone;

pub use markers::{has_matches, match_markers, Marker, MARKER_SIZE};
pub use matcher::{get_template_matches, match_template, MatchResult, Template};
pub use naming::{parse_template_name, strip_png, TemplateParams, PERCENTAGE, TOLERANCE};
pub use pixel::{pixels_match_with_tolerance, Pixel};
pub use raster::{Image, Raster};
pub use search::template_match;
pub use window::{evaluate, mismatch_budget_of};
pub use zone::{candidate_origins_of, ConfigError, SearchZone};
