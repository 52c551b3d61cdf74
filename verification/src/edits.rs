//! Which page edits are possible right now, and the command each one produces.
//!
//! One answer for every producer: the toolbar greys a button out when there is no command
//! here, and a key press does nothing.

use vstd::prelude::*;

use crate::command::Command;
use crate::view::PageNumber;

verus! {

/// Everything needed to decide which edits apply.
#[derive(Debug, Clone, PartialEq, Eq)]
pub struct Situation {
    /// The page on screen, counting from 1. Ignored when `pages` is zero.
    pub current: PageNumber,
    /// How many pages are shown. Zero means no document.
    pub pages: usize,
    /// Whether there is a page edit to walk back.
    pub can_undo: bool,
    /// Whether the order differs from the file.
    pub unsaved_changes: bool,
    /// Whether a save is already running.
    pub saving: bool,
    /// Whether the page grid is showing.
    pub thumbnails: bool,
    /// The pages picked out in the grid, each once. Empty when none are.
    pub selection: Vec<PageNumber>,
}

/// The commands available in a situation. `None` means "not possible right now".
#[derive(Debug, Clone, PartialEq, Eq)]
pub struct Edits {
    /// Move the page on screen one position earlier.
    pub move_earlier: Option<Command>,
    /// Move it one position later.
    pub move_later: Option<Command>,
    /// Remove the pages picked out in the grid, or the page on screen where none are.
    pub delete: Option<Command>,
    /// Walk back the last edit.
    pub undo: Option<Command>,
    /// Write the changes over the file.
    pub save: Option<Command>,
    /// Show or hide the page grid. Always possible.
    pub toggle_thumbnails: Command,
}

/// Whether the page on screen is one of the document's. For a frame after a delete it may not
/// be, since the view reports where it was looking.
pub open spec fn on_a_page(current: PageNumber, pages: usize) -> bool {
    pages > 0 && current.spec_get() <= pages
}

/// Whether `command` moves `from` to page number `to`.
pub open spec fn moves(command: Option<Command>, from: PageNumber, to: int) -> bool {
    match command {
        Some(Command::MovePage { from: moved, to: landing }) => moved == from
            && landing.spec_get() == to,
        _ => false,
    }
}

/// Whether `command` deletes just `pages`.
pub open spec fn deletes(command: Option<Command>, pages: Seq<PageNumber>) -> bool {
    match command {
        Some(Command::DeletePages { pages: deleted }) => deleted@ == pages,
        _ => false,
    }
}

impl Edits {
    /// Works out what can be done.
    pub fn available(situation: Situation) -> (edits: Edits)
        ensures
            ({
                let here = situation.current.spec_get();
                let open = on_a_page(situation.current, situation.pages);
                &&& if open && here > 1 {
                    moves(edits.move_earlier, situation.current, here - 1)
                } else {
                    edits.move_earlier is None
                }
                &&& if open && here < situation.pages {
                    moves(edits.move_later, situation.current, here + 1)
                } else {
                    edits.move_later is None
                }
                &&& if situation.selection@.len() > 0 {
                    if situation.selection@.len() < situation.pages {
                        deletes(edits.delete, situation.selection@)
                    } else {
                        edits.delete is None
                    }
                } else {
                    edits.delete == (if open && situation.pages > 1 {
                        Some(Command::DeletePage { page: situation.current })
                    } else {
                        None
                    })
                }
            }),
            edits.undo == (if situation.can_undo {
                Some(Command::Undo)
            } else {
                None
            }),
            edits.save == (if situation.unsaved_changes && !situation.saving {
                Some(Command::Save)
            } else {
                None
            }),
            edits.toggle_thumbnails == (Command::SetThumbnails {
                visible: !situation.thumbnails,
            }),
    {
        let here = situation.current.get();
        let open = situation.pages > 0 && here <= situation.pages;
        let move_earlier = if open && here > 1 {
            match PageNumber::new(here - 1) {
                Some(to) => Some(Command::MovePage { from: situation.current, to }),
                None => None,
            }
        } else {
            None
        };
        let move_later = if open && here < situation.pages {
            match PageNumber::new(here + 1) {
                Some(to) => Some(Command::MovePage { from: situation.current, to }),
                None => None,
            }
        } else {
            None
        };
        // The last page cannot go: a PDF with no pages is not a PDF.
        let delete = if situation.selection.len() > 0 {
            if situation.selection.len() < situation.pages {
                Some(Command::DeletePages { pages: situation.selection })
            } else {
                None
            }
        } else if open && situation.pages > 1 {
            Some(Command::DeletePage { page: situation.current })
        } else {
            None
        };
        Edits {
            move_earlier,
            move_later,
            delete,
            undo: if situation.can_undo {
                Some(Command::Undo)
            } else {
                None
            },
            save: if situation.unsaved_changes && !situation.saving {
                Some(Command::Save)
            } else {
                None
            },
            toggle_thumbnails: Command::SetThumbnails { visible: !situation.thumbnails },
        }
    }
}

} // verus!
