//! A stable label for one staged document.

use vstd::prelude::*;

use crate::text;

verus! {

/// Which staged document a command means, counting from 1.
///
/// Assigned once, when a document is staged, and never reused afterward, even once that
/// stage is cleared.
#[derive(Debug, Clone, Copy, PartialEq, Eq, PartialOrd, Ord, Hash, Structural)]
pub struct StageId {
    number: usize,
}

impl StageId {
    #[verifier::type_invariant]
    spec fn counts_from_one(self) -> bool {
        self.number >= 1
    }

    /// The number.
    pub closed spec fn spec_get(self) -> usize {
        self.number
    }

    /// The first document ever staged in a session.
    pub fn first() -> (id: StageId)
        ensures
            id.spec_get() == 1,
    {
        StageId { number: 1 }
    }

    /// Wraps a one-based number, or `None` if it is zero.
    pub fn new(number: usize) -> (id: Option<StageId>)
        ensures
            match id {
                Some(id) => id.spec_get() == number && number >= 1,
                None => number == 0,
            },
    {
        if number == 0 {
            None
        } else {
            Some(StageId { number })
        }
    }

    /// The number.
    pub fn get(self) -> (number: usize)
        ensures
            number == self.spec_get(),
            number >= 1,
    {
        proof {
            use_type_invariant(&self);
        }
        self.number
    }

    /// Which number follows: one more, until there is no more to count to.
    pub open spec fn spec_next(number: usize) -> usize {
        if number < usize::MAX {
            (number + 1) as usize
        } else {
            number
        }
    }

    /// The id that the next staged document should get.
    pub fn next(self) -> (next: StageId)
        ensures
            next.spec_get() == StageId::spec_next(self.spec_get()),
    {
        proof {
            use_type_invariant(&self);
        }
        if self.number < usize::MAX {
            StageId { number: self.number + 1 }
        } else {
            StageId { number: self.number }
        }
    }

    /// The number as a person reads it.
    pub fn label(self) -> (label: String)
        ensures
            label@ == text::decimal_text(self.spec_get() as nat),
    {
        text::decimal(self.number)
    }
}

/// How a command says which staged document it means.
#[derive(Debug, Clone, PartialEq, Eq)]
pub enum StagedName {
    /// By its id.
    Stage(StageId),
    /// By the path it was staged from.
    Path(String),
}

/// How a command says which staged document it means, by its text.
#[verifier::ext_equal]
pub enum StagedNameView {
    Stage(usize),
    Path(Seq<char>),
}

impl View for StagedName {
    type V = StagedNameView;

    open spec fn view(&self) -> StagedNameView {
        match self {
            StagedName::Stage(id) => StagedNameView::Stage(id.spec_get()),
            StagedName::Path(path) => StagedNameView::Path(path@),
        }
    }
}

/// An id is never handed out twice by counting up, until the numbers run out.
pub proof fn law_next_is_always_new(number: usize)
    requires
        number < usize::MAX,
    ensures
        StageId::spec_next(number) > number,
{
}

} // verus!
