//! Floorplan initialization: die area, site-grid snapping, and rows.
//!
//! The planner is arithmetic over integers in database units. It takes the die and core
//! rectangles, the sites and the manufacturing grid, and returns a [`Plan`]: where every row goes
//! and what the core area becomes. Around it stand the command lines, the events and reports of a
//! run, and the steps by which a plan is written. Nothing here touches a database.

pub mod areas;
pub mod cli;
pub mod command;
pub mod domains;
pub mod fit;
pub mod geometry;
pub mod hybrid;
pub mod json;
pub mod model;
pub mod notices;
pub mod order;
pub mod ordinary;
pub mod pattern;
pub mod plan;
pub mod polygon;
pub mod refusal;
pub mod report;
pub mod rows;
pub mod sites;
pub mod text;
pub mod track_report;
pub mod tracks;
pub mod trackwork;
pub mod words;
pub mod writing;

use vstd::prelude::*;

pub use crate::areas::core_from_die_spacing;
pub use crate::cli::{parse_args, parse_args_make_rows, Cli, UsageError};
pub use crate::command::{describe, DESCRIBE, PIN_TOKEN, USAGE};
pub use crate::domains::split_rows_for_domains;
pub use crate::fit::check_instance_dimensions;
pub use crate::geometry::{div_ceil, make_site_loc, snap_to_mfg_grid, Rect};
pub use crate::model::{
    Domain, Instance, OrientedSite, Plan, PlanError, Row, RowParity, Site,
};
pub use crate::pattern::{flip_x, pattern_offset};
pub use crate::plan::plan;
pub use crate::polygon::polygon_bbox;
pub use crate::rows::{apply_row_parity, snap_core_lower_left};
pub use crate::tracks::{
    non_uniform_track_origins, track_pattern, track_patterns, TrackPattern, TrackSkip,
};
pub use crate::words::parse_list;

verus! {

/// This crate's version.
pub const VERSION: &'static str = "0.1.0";

/// The copyright line that the version goes with.
pub const COPYRIGHT: &'static str = "© 2026 Vyges. All Rights Reserved.  https://vyges.com";

} // verus!
