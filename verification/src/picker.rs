//! The system file dialog, off the frame loop.
//!
//! The dialog blocks until the person answers it, so it runs on a thread of its own and its
//! answer is picked up once per frame.

use std::sync::mpsc::Receiver;

use vstd::prelude::*;

use crate::mail;
use crate::mail::Arrival;

verus! {

/// What a chosen file is for.
#[derive(Debug, Clone, Copy, PartialEq, Eq, Structural)]
pub enum Purpose {
    /// Open it in place of what is open.
    Open,
    /// Add its pages to what is open.
    Insert,
    /// Stage it, to place pages from.
    Stage,
}

/// The file dialog, when one is open.
#[derive(Debug)]
pub struct FilePicker {
    pending: Option<Receiver<Option<String>>>,
    purpose: Purpose,
}

impl Default for FilePicker {
    /// No dialog open.
    fn default() -> (picker: FilePicker)
        ensures
            !picker.spec_is_open(),
            picker.spec_purpose() == Purpose::Open,
    {
        FilePicker { pending: None, purpose: Purpose::Open }
    }
}

/// What an answer from the dialog's thread comes to: whether the dialog is still open, and the
/// file that was chosen. A thread that died without answering closes the dialog, or no other
/// could ever be opened.
pub open spec fn settled(arrival: Arrival<Option<String>>) -> (bool, Option<String>) {
    match arrival {
        Arrival::Message(chosen) => (false, chosen),
        Arrival::Empty => (true, None),
        Arrival::Disconnected => (false, None),
    }
}

/// What an answer from the dialog's thread comes to.
pub fn settle(arrival: Arrival<Option<String>>) -> (settlement: (bool, Option<String>))
    ensures
        settlement == settled(arrival),
{
    match arrival {
        Arrival::Message(chosen) => (false, chosen),
        Arrival::Empty => (true, None),
        Arrival::Disconnected => (false, None),
    }
}

impl FilePicker {
    /// Whether a dialog is open.
    pub closed spec fn spec_is_open(&self) -> bool {
        self.pending is Some
    }

    /// The channel that the answer to an open dialog comes in on.
    pub closed spec fn spec_pending(&self) -> Option<Receiver<Option<String>>> {
        self.pending
    }

    /// What the file chosen in the last dialog is for.
    pub closed spec fn spec_purpose(&self) -> Purpose {
        self.purpose
    }

    /// Whether a dialog is open.
    pub fn is_open(&self) -> (open: bool)
        ensures
            open == self.spec_is_open(),
    {
        self.pending.is_some()
    }

    /// What the file chosen in the last dialog is for.
    pub fn purpose(&self) -> (purpose: Purpose)
        ensures
            purpose == self.spec_purpose(),
    {
        self.purpose
    }

    /// A picker with a dialog open, to open a document with.
    pub fn with_pending(receiver: Receiver<Option<String>>) -> (picker: FilePicker)
        ensures
            picker.spec_is_open(),
            picker.spec_pending() == Some(receiver),
            picker.spec_purpose() == Purpose::Open,
    {
        FilePicker { pending: Some(receiver), purpose: Purpose::Open }
    }

    /// Waits for the answer to a dialog that was just opened. Refused while another is open:
    /// dialogs do not stack.
    pub fn listen(&mut self, receiver: Receiver<Option<String>>, purpose: Purpose) -> (started: bool)
        ensures
            started == !old(self).spec_is_open(),
            started ==> final(self).spec_is_open() && final(self).spec_pending() == Some(receiver)
                && final(self).spec_purpose() == purpose,
            !started ==> *final(self) == *old(self),
    {
        if self.pending.is_some() {
            return false;
        }
        self.pending = Some(receiver);
        self.purpose = purpose;
        true
    }

    /// Takes in what was found in the dialog's channel. An answer closes the dialog, whether a
    /// file was chosen or not, and so does a thread that died.
    pub fn take_in(&mut self, arrival: Arrival<Option<String>>) -> (chosen: Option<String>)
        ensures
            chosen == settled(arrival).1,
            final(self).spec_is_open() == (old(self).spec_is_open() && settled(arrival).0),
            final(self).spec_is_open() == old(self).spec_is_open() ==> *final(self) == *old(self),
            final(self).spec_purpose() == old(self).spec_purpose(),
    {
        let (open, chosen) = settle(arrival);
        if !open {
            self.pending = None;
        }
        chosen
    }

    /// Takes the chosen file, if one was chosen since the last poll. Never waits.
    ///
    /// With no dialog open there is none. A file is handed out once, and closes the dialog;
    /// while the dialog stays open there is none. What the dialog's thread sent decides which
    /// of these it is, as [`FilePicker::take_in`] says.
    pub fn poll(&mut self) -> (chosen: Option<String>)
        ensures
            !old(self).spec_is_open() ==> chosen is None && *final(self) == *old(self),
            chosen is Some ==> old(self).spec_is_open() && !final(self).spec_is_open(),
            final(self).spec_is_open() ==> *final(self) == *old(self),
            final(self).spec_purpose() == old(self).spec_purpose(),
    {
        let arrival = match &self.pending {
            None => {
                return None;
            },
            Some(receiver) => mail::receive(receiver),
        };
        self.take_in(arrival)
    }
}

} // verus!
