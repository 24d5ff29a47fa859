//! The symbols that start each line the command line prints.
use vstd::prelude::*;

verus! {

pub const CAUTION: &'static str = "⚠️";

pub const INFO: &'static str = "ℹ️";

pub const SAD: &'static str = "😢";

pub const DRY_RUN: &'static str = "🌀";

pub const SEARCH: &'static str = "🔎";

pub const WRITE: &'static str = "📝";

pub const TRY: &'static str = "🧭";

pub const DONE: &'static str = "✅";

pub const GOTO: &'static str = "↗️";

} // verus!
