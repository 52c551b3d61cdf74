//! Where the reader is, and which moves from here are possible.

use vstd::prelude::*;

use crate::command::Command;
use crate::edits;
use crate::view::{PageNumber, ViewCommand};

verus! {

/// The moves available from where the reader is. `None` means "not possible right now".
#[derive(Debug, Clone, PartialEq, Eq)]
pub struct Navigation {
    /// The page on screen, counting from 1. `None` with no document.
    pub current: Option<PageNumber>,
    /// How many pages are shown. Zero means no document.
    pub pages: usize,
    /// Jump to the first page.
    pub first: Option<Command>,
    /// Go back one page.
    pub previous: Option<Command>,
    /// Go on one page.
    pub next: Option<Command>,
    /// Jump to the last page.
    pub last: Option<Command>,
}

/// The command, where it applies.
pub open spec fn offered(applies: bool, command: ViewCommand) -> Option<Command> {
    if applies {
        Some(Command::View(command))
    } else {
        None
    }
}

/// The command, where it applies.
fn offer(applies: bool, command: ViewCommand) -> (offer: Option<Command>)
    ensures
        offer == offered(applies, command),
{
    if applies {
        Some(Command::View(command))
    } else {
        None
    }
}

impl Navigation {
    /// Works out where the reader can go. `current` is ignored when `pages` is zero.
    pub fn available(current: PageNumber, pages: usize) -> (navigation: Navigation)
        ensures
            ({
                let open = edits::on_a_page(current, pages);
                let back = open && current.spec_get() > 1;
                let on = open && current.spec_get() < pages;
                &&& navigation.current == (if open {
                    Some(current)
                } else {
                    None
                })
                &&& navigation.pages == pages
                &&& navigation.first == offered(back, ViewCommand::FirstPage)
                &&& navigation.previous == offered(back, ViewCommand::PreviousPage)
                &&& navigation.next == offered(on, ViewCommand::NextPage)
                &&& navigation.last == offered(on, ViewCommand::LastPage)
            }),
    {
        let here = current.get();
        let open = pages > 0 && here <= pages;
        let back = open && here > 1;
        let on = open && here < pages;
        Navigation {
            current: if open {
                Some(current)
            } else {
                None
            },
            pages,
            first: offer(back, ViewCommand::FirstPage),
            previous: offer(back, ViewCommand::PreviousPage),
            next: offer(on, ViewCommand::NextPage),
            last: offer(on, ViewCommand::LastPage),
        }
    }
}

} // verus!
