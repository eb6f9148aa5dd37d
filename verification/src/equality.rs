//! Equality of paths: by their components, not by their text.

use vstd::prelude::*;
use vstd::std_specs::cmp::PartialEqSpecImpl;
use crate::path::Path;
use crate::syntax::parts_of;

verus! {

impl PartialEq for Path {
    /// Two paths are equal when they have the same components, so `a//b`,
    /// `a/./b` and `a/b/` all equal `a/b`.
    fn eq(&self, other: &Path) -> (r: bool) {
        self.samefile(other)
    }
}

impl PartialEqSpecImpl for Path {
    open spec fn obeys_eq_spec() -> bool {
        true
    }

    open spec fn eq_spec(&self, other: &Path) -> bool {
        parts_of(self@) == parts_of(other@)
    }
}

impl Eq for Path {

}

} // verus!
