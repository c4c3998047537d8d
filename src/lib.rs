//! Line-level differences between two texts: a classified change list with
//! statistics, a readable report, and a conflict-aware merge.

pub mod align;
pub mod merge;
pub mod report;
pub mod text;

pub use align::{align, measure, AlignedChange, Alignment, ChangeTag, Similarity};
pub use merge::{merge_changes, resolve_conflicts, ResolutionStrategy, ResolveError};
pub use report::{
    accumulate, create_diff_header, diff_check, format_diff_report, format_similarity, DiffResponse,
    DiffResult, DiffSummary,
};
pub use text::{decimal_text, is_blank};
