//! The navigation targets of the hosting application.

use vstd::prelude::*;

verus! {

/// The pages the application can show: the interactive 2D cutting view
/// and the separate 3D demonstration.
#[derive(Debug, Clone, PartialEq, Eq, Structural)]
pub enum AppRoute {
    Basic2d,
    Test3d,
}

impl Default for AppRoute {
    /// The landing page is the 2D view.
    fn default() -> (r: Self)
        ensures
            r == AppRoute::Basic2d,
    {
        AppRoute::Basic2d
    }
}

} // verus!
