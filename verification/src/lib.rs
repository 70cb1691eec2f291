//! The view-mutation core of a code editor: a text buffer together with the
//! per-line layout state derived from it (token ends, inline widgets and
//! inlaid texts, soft breaks, folds and their vertical scale, summed heights)
//! and a set of selections, all kept consistent under edits, cursor motion,
//! reflow and fold animation.

pub mod pos;
pub mod sel;
pub mod text;
pub mod diff;
pub mod lines;
pub mod view_mut;
pub mod edit;
pub mod view;
pub mod heights;
pub mod laws;
pub mod wrap;
