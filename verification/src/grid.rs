//! How the page grid is arranged, and what a click in it means.

use vstd::prelude::*;
use vstd::string::*;

use crate::text;

verus! {

/// What a click in the grid means.
#[derive(Debug, Clone, Copy, PartialEq, Eq, Default, Structural)]
pub enum GridMode {
    /// Click a page to scroll the main view to it. The default, because finding a page is
    /// what the grid is opened for far more often than reshuffling one.
    #[default]
    Navigate,
    /// Drag a page to move it. Clicking does nothing, so a misfire cannot reorder.
    Reorganize,
    /// Drag a page of a staged document in. Pages already there move as they do when
    /// reorganizing.
    Merge,
}

impl GridMode {
    /// The mode the grid opens in.
    pub fn initial() -> (mode: GridMode)
        ensures
            mode == GridMode::Navigate,
    {
        GridMode::Navigate
    }

    /// Every mode that has a tab of its own. Merging has none: it goes with what is staged.
    pub fn every() -> (modes: Vec<GridMode>)
        ensures
            modes@ == seq![GridMode::Navigate, GridMode::Reorganize],
            forall|mode: GridMode| modes@.contains(mode) <==> mode != GridMode::Merge,
    {
        let mut modes: Vec<GridMode> = Vec::new();
        modes.push(GridMode::Navigate);
        modes.push(GridMode::Reorganize);
        proof {
            assert(modes@ =~= seq![GridMode::Navigate, GridMode::Reorganize]);
            assert(modes@[0] == GridMode::Navigate);
            assert(modes@[1] == GridMode::Reorganize);
            assert forall|mode: GridMode| modes@.contains(mode) <==> mode != GridMode::Merge by {
                match mode {
                    GridMode::Navigate => {
                        assert(modes@[0] == mode);
                    },
                    GridMode::Reorganize => {
                        assert(modes@[1] == mode);
                    },
                    GridMode::Merge => {},
                }
            }
        }
        modes
    }

    /// This mode's name on the wire.
    pub open spec fn spec_wire_name(self) -> Seq<char> {
        match self {
            GridMode::Navigate => "navigate"@,
            GridMode::Reorganize => "reorganize"@,
            GridMode::Merge => "merge"@,
        }
    }

    /// This mode's name on the wire.
    pub fn wire_name(self) -> (name: &'static str)
        ensures
            name@ == self.spec_wire_name(),
    {
        match self {
            GridMode::Navigate => "navigate",
            GridMode::Reorganize => "reorganize",
            GridMode::Merge => "merge",
        }
    }

    /// The mode with a wire name, if there is one.
    pub open spec fn named(name: Seq<char>) -> Option<GridMode> {
        if name == GridMode::Navigate.spec_wire_name() {
            Some(GridMode::Navigate)
        } else if name == GridMode::Reorganize.spec_wire_name() {
            Some(GridMode::Reorganize)
        } else if name == GridMode::Merge.spec_wire_name() {
            Some(GridMode::Merge)
        } else {
            None
        }
    }

    /// The mode with this wire name.
    pub fn from_wire_name(name: &str) -> (mode: Option<GridMode>)
        ensures
            mode == GridMode::named(name@),
    {
        if text::same_text(name, "navigate") {
            Some(GridMode::Navigate)
        } else if text::same_text(name, "reorganize") {
            Some(GridMode::Reorganize)
        } else if text::same_text(name, "merge") {
            Some(GridMode::Merge)
        } else {
            None
        }
    }

    /// Every wire name, for an error that has to name the alternatives.
    pub fn every_name() -> (names: String)
        ensures
            names@ == GridMode::Navigate.spec_wire_name() + ", "@
                + GridMode::Reorganize.spec_wire_name() + ", "@ + GridMode::Merge.spec_wire_name(),
    {
        let mut names = String::from_str(GridMode::Navigate.wire_name());
        names.append(", ");
        names.append(GridMode::Reorganize.wire_name());
        names.append(", ");
        names.append(GridMode::Merge.wire_name());
        names
    }

    /// What the tab says.
    pub fn label(self) -> (label: &'static str)
        ensures
            label@ == (match self {
                GridMode::Navigate => "Navigation"@,
                GridMode::Reorganize => "Reorganize"@,
                GridMode::Merge => "Merge"@,
            }),
    {
        match self {
            GridMode::Navigate => "Navigation",
            GridMode::Reorganize => "Reorganize",
            GridMode::Merge => "Merge",
        }
    }

    /// What the tab's tooltip says that the mode does.
    pub fn hint(self) -> (hint: &'static str)
        ensures
            hint@ == (match self {
                GridMode::Navigate => "Click a page to go to it"@,
                GridMode::Reorganize => "Drag a page to move it; clicking does nothing"@,
                GridMode::Merge => "Drag a page of a staged file in"@,
            }),
    {
        match self {
            GridMode::Navigate => "Click a page to go to it",
            GridMode::Reorganize => "Drag a page to move it; clicking does nothing",
            GridMode::Merge => "Drag a page of a staged file in",
        }
    }
}

/// How many rows `pages` needs at `columns` across: as many as hold them all and no more. A
/// grid with no columns keeps one row per page, so that none is lost.
pub open spec fn rows(pages: nat, columns: nat) -> nat {
    if columns == 0 {
        pages
    } else if pages % columns == 0 {
        pages / columns
    } else {
        pages / columns + 1
    }
}

/// How many rows `pages` needs at `columns` across.
pub fn rows_for(pages: usize, columns: usize) -> (rows: usize)
    ensures
        rows == self::rows(pages as nat, columns as nat),
{
    if columns == 0 {
        return pages;
    }
    proof {
        assert(pages / columns <= pages) by (nonlinear_arith)
            requires
                columns > 0,
        ;
        if columns == 1 {
            assert(pages % columns == 0);
        } else {
            assert(pages / columns < usize::MAX) by (nonlinear_arith)
                requires
                    columns > 1,
                    pages <= usize::MAX,
                    usize::MAX > 1,
            ;
        }
    }
    if pages % columns == 0 {
        pages / columns
    } else {
        pages / columns + 1
    }
}

/// The rows hold every page, and one row fewer would not.
pub proof fn law_rows_cover_every_page_and_waste_none(pages: nat, columns: nat)
    requires
        columns > 0,
    ensures
        rows(pages, columns) * columns >= pages,
        pages > 0 ==> (rows(pages, columns) - 1) * columns < pages,
{
    let quotient = pages / columns;
    let rest = pages % columns;
    assert(pages == quotient * columns + rest) by (nonlinear_arith)
        requires
            columns > 0,
            quotient == pages / columns,
            rest == pages % columns,
    ;
    assert(0 <= rest < columns) by (nonlinear_arith)
        requires
            columns > 0,
            rest == pages % columns,
    ;
    assert((quotient + 1) * columns == quotient * columns + columns) by (nonlinear_arith);
    assert((quotient - 1) * columns == quotient * columns - columns) by (nonlinear_arith);
}

/// What one cell of the grid reported.
#[derive(Debug, Clone, Copy, PartialEq, Eq, Structural)]
pub struct CellOutcome {
    /// The position dragged from, if a page was dropped here.
    pub dropped: Option<usize>,
    /// Whether the page was clicked.
    pub clicked: bool,
}

/// What a cell reports, by the mode: a click navigates in one, and a page dropped from elsewhere
/// moves in the others. Never both.
pub fn cell_outcome(mode: GridMode, position: usize, clicked: bool, dropped: Option<usize>) -> (
    outcome: CellOutcome)
    ensures
        outcome == (match mode {
            GridMode::Navigate => CellOutcome { dropped: None, clicked },
            GridMode::Reorganize | GridMode::Merge => CellOutcome {
                dropped: if dropped == Some(position) {
                    None
                } else {
                    dropped
                },
                clicked: false,
            },
        }),
{
    match mode {
        GridMode::Navigate => CellOutcome { dropped: None, clicked },
        GridMode::Reorganize | GridMode::Merge => CellOutcome {
            dropped: match dropped {
                Some(from) => if from != position {
                    Some(from)
                } else {
                    None
                },
                None => None,
            },
            clicked: false,
        },
    }
}

/// The mode that a click on a tab asks for, if it is not the one already showing.
pub fn mode_asked(clicked: GridMode, showing: GridMode) -> (mode: Option<GridMode>)
    ensures
        mode == (if clicked == showing {
            None
        } else {
            Some(clicked)
        }),
{
    if clicked == showing {
        None
    } else {
        Some(clicked)
    }
}

} // verus!
