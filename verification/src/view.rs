//! What can be asked of the view, and what comes of it.
//!
//! Distances and factors are carried as they are and only ever compared for being the same,
//! so a [`Real`] holds a number by its bits.

use vstd::prelude::*;
use vstd::string::*;

use crate::text;

verus! {

/// A page as a person counts it: from 1.
#[derive(Debug, Clone, Copy, PartialEq, Eq, PartialOrd, Ord, Hash, Structural)]
pub struct PageNumber {
    number: usize,
}

impl PageNumber {
    #[verifier::type_invariant]
    spec fn counts_from_one(self) -> bool {
        self.number >= 1
    }

    /// The number.
    pub closed spec fn spec_get(self) -> usize {
        self.number
    }

    /// The page with a number.
    pub closed spec fn numbered(number: usize) -> PageNumber {
        PageNumber { number }
    }

    /// A page is the one with its number.
    pub proof fn lemma_by_number(page: PageNumber)
        ensures
            page == PageNumber::numbered(page.spec_get()),
    {
    }

    /// The page with a number has that number.
    pub proof fn lemma_has_its_number(number: usize)
        ensures
            PageNumber::numbered(number).spec_get() == number,
    {
    }

    /// The first page.
    pub fn first() -> (page: PageNumber)
        ensures
            page.spec_get() == 1,
    {
        PageNumber { number: 1 }
    }

    /// Wraps a one-based number, or `None` if it is zero.
    pub fn new(number: usize) -> (page: Option<PageNumber>)
        ensures
            match page {
                Some(page) => page.spec_get() == number && number >= 1 && page
                    == PageNumber::numbered(number),
                None => number == 0,
            },
    {
        if number == 0 {
            None
        } else {
            Some(PageNumber { number })
        }
    }

    /// The page shown at a position, which counts from 0. The last position that a `usize`
    /// can name has no number of its own and gets the one before it.
    pub fn from_index(index: usize) -> (page: PageNumber)
        ensures
            page.spec_get() == (if index < usize::MAX {
                index + 1
            } else {
                usize::MAX as int
            }),
    {
        if index < usize::MAX {
            PageNumber { number: index + 1 }
        } else {
            PageNumber { number: usize::MAX }
        }
    }

    /// The number.
    pub fn get(self) -> (number: usize)
        ensures
            number == self.spec_get(),
            number >= 1,
    {
        proof {
            use_type_invariant(&self);
        }
        self.number
    }

    /// The position, which counts from 0.
    pub fn index(self) -> (index: usize)
        ensures
            index == self.spec_get() - 1,
    {
        proof {
            use_type_invariant(&self);
        }
        self.number - 1
    }
}

/// The values of a list of page numbers.
pub open spec fn numbers(pages: Seq<PageNumber>) -> Seq<usize> {
    pages.map_values(|page: PageNumber| page.spec_get())
}

/// The positions that page numbers name.
pub open spec fn indices(pages: Seq<PageNumber>) -> Seq<usize> {
    pages.map_values(|page: PageNumber| (page.spec_get() - 1) as usize)
}

/// The positions that page numbers name.
pub fn positions_of(pages: &[PageNumber]) -> (positions: Vec<usize>)
    ensures
        positions@ == indices(pages@),
{
    let mut positions: Vec<usize> = Vec::new();
    let mut i: usize = 0;
    while i < pages.len()
        invariant
            i <= pages.len(),
            positions@ == indices(pages@.take(i as int)),
        decreases pages.len() - i,
    {
        positions.push(pages[i].index());
        i += 1;
        proof {
            assert(positions@ =~= indices(pages@.take(i as int)));
        }
    }
    proof {
        assert(pages@.take(i as int) =~= pages@);
    }
    positions
}

/// The page numbers that show the given positions.
pub open spec fn numbered(positions: Seq<usize>) -> Seq<usize> {
    positions.map_values(
        |position: usize|
            if position < usize::MAX {
                (position + 1) as usize
            } else {
                usize::MAX
            },
    )
}

/// The page numbers that show the given positions.
pub fn pages_at(positions: &[usize]) -> (pages: Vec<PageNumber>)
    ensures
        numbers(pages@) == numbered(positions@),
{
    let mut pages: Vec<PageNumber> = Vec::new();
    let mut i: usize = 0;
    while i < positions.len()
        invariant
            i <= positions.len(),
            numbers(pages@) == numbered(positions@.take(i as int)),
        decreases positions.len() - i,
    {
        let ghost before = pages@;
        pages.push(PageNumber::from_index(positions[i]));
        i += 1;
        proof {
            assert(numbers(pages@) =~= numbers(before).push(pages@.last().spec_get()));
            assert(numbered(positions@.take(i as int)) =~= numbered(
                positions@.take(i - 1),
            ).push(pages@.last().spec_get()));
        }
    }
    proof {
        assert(positions@.take(i as int) =~= positions@);
    }
    pages
}

/// A number with a fractional part, by the bits of its IEEE 754 double.
#[derive(Debug, Clone, Copy, PartialEq, Eq, Structural)]
pub struct Real {
    pub bits: u64,
}

/// Which way a [`Real`] points: the highest bit.
pub const SIGN_BIT: u64 = 0x8000_0000_0000_0000;

impl Real {
    /// The number with the other sign.
    pub open spec fn spec_negated(self) -> Real {
        Real { bits: self.bits ^ SIGN_BIT }
    }

    /// The number with the other sign.
    pub fn negated(self) -> (negated: Real)
        ensures
            negated == self.spec_negated(),
    {
        Real { bits: self.bits ^ SIGN_BIT }
    }
}

/// The number one.
pub const ONE: u64 = 0x3FF0_0000_0000_0000;

/// How pages follow each other on screen.
#[derive(Debug, Clone, Copy, PartialEq, Eq, Structural)]
pub enum ScrollMode {
    /// One column of all pages.
    Free,
    /// One page at a time.
    Paged,
}

/// What the zoom follows.
#[derive(Debug, Clone, Copy, PartialEq, Eq, Structural)]
pub enum ZoomTarget {
    /// The width of the window.
    FitWidth,
    /// The whole page.
    FitPage,
    /// A factor.
    Fixed(Real),
}

/// Something that changes what the view shows, and nothing else.
#[derive(Debug, Clone, Copy, PartialEq, Eq, Structural)]
pub enum ViewCommand {
    FirstPage,
    PreviousPage,
    NextPage,
    LastPage,
    GoToPage { page: PageNumber },
    ScrollBy { points: Real },
    ScrollTo { points: Real },
    ScrollByViewports { fraction: Real },
    PanBy { points: Real },
    SetZoom { target: ZoomTarget },
    StepZoom { rungs: i32 },
    SetScrollMode { mode: ScrollMode },
}

impl ViewCommand {
    /// The wire name of this command.
    pub open spec fn spec_name(self) -> &'static str {
        match self {
            ViewCommand::FirstPage => "first_page",
            ViewCommand::PreviousPage => "previous_page",
            ViewCommand::NextPage => "next_page",
            ViewCommand::LastPage => "last_page",
            ViewCommand::GoToPage { .. } => "go_to_page",
            ViewCommand::ScrollBy { .. } => "scroll_by",
            ViewCommand::ScrollTo { .. } => "scroll_to",
            ViewCommand::ScrollByViewports { .. } => "scroll_by_viewports",
            ViewCommand::PanBy { .. } => "pan_by",
            ViewCommand::SetZoom { .. } => "set_zoom",
            ViewCommand::StepZoom { .. } => "step_zoom",
            ViewCommand::SetScrollMode { .. } => "set_scroll_mode",
        }
    }

    /// The wire name of this command.
    pub fn name(&self) -> (name: &'static str)
        ensures
            name@ == self.spec_name()@,
    {
        match self {
            ViewCommand::FirstPage => "first_page",
            ViewCommand::PreviousPage => "previous_page",
            ViewCommand::NextPage => "next_page",
            ViewCommand::LastPage => "last_page",
            ViewCommand::GoToPage { .. } => "go_to_page",
            ViewCommand::ScrollBy { .. } => "scroll_by",
            ViewCommand::ScrollTo { .. } => "scroll_to",
            ViewCommand::ScrollByViewports { .. } => "scroll_by_viewports",
            ViewCommand::PanBy { .. } => "pan_by",
            ViewCommand::SetZoom { .. } => "set_zoom",
            ViewCommand::StepZoom { .. } => "step_zoom",
            ViewCommand::SetScrollMode { .. } => "set_scroll_mode",
        }
    }
}

/// Why the view refused a command.
#[derive(Debug, Clone, Copy, PartialEq, Eq, Structural)]
pub enum Rejection {
    /// There is no such page.
    NoSuchPage { page: PageNumber, page_count: usize },
    /// A number that is no number, or is out of all bounds.
    NotFinite,
}

impl Rejection {
    /// The refusal in words.
    pub open spec fn spec_message(self) -> Seq<char> {
        match self {
            Rejection::NoSuchPage { page, page_count } => "page "@ + text::decimal_text(
                page.spec_get() as nat,
            ) + " does not exist; the document has "@ + text::decimal_text(page_count as nat)
                + " page(s)"@,
            Rejection::NotFinite => "the argument is not a finite number"@,
        }
    }

    /// The refusal in words.
    pub fn message(&self) -> (message: String)
        ensures
            message@ == self.spec_message(),
    {
        match self {
            Rejection::NoSuchPage { page, page_count } => {
                let mut message = String::from_str("page ");
                message.append(text::decimal(page.get()).as_str());
                message.append(" does not exist; the document has ");
                message.append(text::decimal(*page_count).as_str());
                message.append(" page(s)");
                message
            },
            Rejection::NotFinite => String::from_str("the argument is not a finite number"),
        }
    }
}

/// What a command did to the view.
#[derive(Debug, Clone, Copy, PartialEq, Eq, Structural)]
pub enum Outcome {
    /// The view is different now.
    Changed,
    /// It was already as asked.
    Unchanged,
    /// It was refused.
    Rejected(Rejection),
}

} // verus!
