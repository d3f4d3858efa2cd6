use vstd::prelude::*;

verus! {

/// The main view of the viewer.
#[derive(Copy, Clone, Debug, PartialEq, Eq, Structural)]
pub enum ViewMode {
    Chart,
    Hilbert,
    Hex,
}

/// The view that follows `v` in the cycle Chart → Hilbert → Hex → Chart.
pub open spec fn next_view(v: ViewMode) -> ViewMode {
    match v {
        ViewMode::Chart => ViewMode::Hilbert,
        ViewMode::Hilbert => ViewMode::Hex,
        ViewMode::Hex => ViewMode::Chart,
    }
}

impl ViewMode {
    /// The next view in the cycle Chart → Hilbert → Hex → Chart.
    pub fn next(self) -> (r: Self)
        ensures
            r == next_view(self),
    {
        match self {
            ViewMode::Chart => ViewMode::Hilbert,
            ViewMode::Hilbert => ViewMode::Hex,
            ViewMode::Hex => ViewMode::Chart,
        }
    }

    /// The name shown for the view.
    pub fn label(self) -> (r: &'static str)
        ensures
            self == ViewMode::Chart ==> r@ == "Chart"@,
            self == ViewMode::Hilbert ==> r@ == "Hilbert"@,
            self == ViewMode::Hex ==> r@ == "Hex"@,
    {
        match self {
            ViewMode::Chart => "Chart",
            ViewMode::Hilbert => "Hilbert",
            ViewMode::Hex => "Hex",
        }
    }
}

/// Cycling the view three times returns to the starting view, and every
/// view differs from the one that follows it.
pub proof fn lemma_view_cycle(v: ViewMode)
    ensures
        next_view(next_view(next_view(v))) == v,
        next_view(v) != v,
{
}

} // verus!
