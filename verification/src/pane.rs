//! Which pane of the browser has the focus.
use vstd::prelude::*;

verus! {

/// Which pane has the focus: the post list, or the focused post.
#[derive(Debug, Clone, Copy, PartialEq, Eq, Structural)]
pub enum View {
    List,
    Focus,
}

} // verus!
