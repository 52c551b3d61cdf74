//! The symbols that buttons are labelled with.

use vstd::prelude::*;

verus! {

/// A symbol a button is labelled with, instead of a word.
///
/// A closed list on purpose: a symbol that the window's fonts have no glyph for draws an
/// empty box and nothing complains.
#[derive(Debug, Clone, Copy, PartialEq, Eq, Structural)]
pub enum Glyph {
    /// Jump to the first page.
    FirstPage,
    /// Jump to the last page.
    LastPage,
    /// One zoom rung down.
    ZoomOut,
    /// One zoom rung up.
    ZoomIn,
    /// Empty the page grid's search box.
    ClearSearch,
}

impl Glyph {
    /// Every glyph.
    pub fn every() -> (glyphs: Vec<Glyph>)
        ensures
            glyphs@ == seq![
                Glyph::FirstPage,
                Glyph::LastPage,
                Glyph::ZoomOut,
                Glyph::ZoomIn,
                Glyph::ClearSearch,
            ],
    {
        let mut glyphs: Vec<Glyph> = Vec::new();
        glyphs.push(Glyph::FirstPage);
        glyphs.push(Glyph::LastPage);
        glyphs.push(Glyph::ZoomOut);
        glyphs.push(Glyph::ZoomIn);
        glyphs.push(Glyph::ClearSearch);
        proof {
            assert(glyphs@ =~= seq![
                Glyph::FirstPage,
                Glyph::LastPage,
                Glyph::ZoomOut,
                Glyph::ZoomIn,
                Glyph::ClearSearch,
            ]);
        }
        glyphs
    }

    /// What it draws as.
    pub open spec fn spec_text(self) -> Seq<char> {
        match self {
            Glyph::FirstPage => "\u{23EE}"@,
            Glyph::LastPage => "\u{23ED}"@,
            Glyph::ZoomOut => "\u{2212}"@,
            Glyph::ZoomIn => "+"@,
            Glyph::ClearSearch => "\u{2716}"@,
        }
    }

    /// What it draws as. Zooming out is a minus sign and not a hyphen: it is as wide as the
    /// plus sign beside it.
    pub fn text(self) -> (text: &'static str)
        ensures
            text@ == self.spec_text(),
    {
        match self {
            Glyph::FirstPage => "\u{23EE}",
            Glyph::LastPage => "\u{23ED}",
            Glyph::ZoomOut => "\u{2212}",
            Glyph::ZoomIn => "+",
            Glyph::ClearSearch => "\u{2716}",
        }
    }
}

/// The five symbols are different, so no two buttons look alike.
pub proof fn law_no_two_glyphs_look_alike(left: Glyph, right: Glyph)
    ensures
        (left.spec_text() == right.spec_text()) == (left == right),
{
    reveal_strlit("\u{23EE}");
    reveal_strlit("\u{23ED}");
    reveal_strlit("\u{2212}");
    reveal_strlit("+");
    reveal_strlit("\u{2716}");
    assert(left.spec_text().len() == 1);
    assert(left.spec_text() == right.spec_text() ==> left.spec_text()[0] == right.spec_text()[0]);
}

} // verus!
