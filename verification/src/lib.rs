//! Template matching on fixed-point images: score grids, extremum and
//! multi-match search, candidate classification, and the bookkeeping of a
//! compute-device session.

pub mod agreement;
pub mod best_matcher;
pub mod coefficient;
pub mod controller;
pub mod deploy;
pub mod error;
pub mod grid;
pub mod identity;
pub mod image;
pub mod local_service;
pub mod matching;
pub mod method;
pub mod quotient;
pub mod rect;
pub mod sample;
pub mod search;
pub mod session;
pub mod template_matching;
pub mod text;
pub mod window;

pub use crate::error::MatchError;
pub use crate::image::Image;
pub use crate::matching::{ccoeff, ccorr, match_template};
pub use crate::method::MatchTemplateMethod;
pub use crate::search::{find_extremes, find_matches, Extremes, Match};
pub use crate::session::TemplateMatcher;
