//! Writing the document out, off the frame loop.
//!
//! A save takes about a second on a long document, so it runs on a thread of its own and is
//! picked up when it reports.

use std::sync::mpsc::Receiver;

use vstd::prelude::*;
use vstd::string::*;

use crate::mail;
use crate::mail::Arrival;
use crate::order::Source;

verus! {

/// A save that has finished.
#[derive(Debug)]
pub struct Saved {
    /// Where the file was written.
    pub path: String,
    /// The page order that went into the file. Reported rather than read again, because the
    /// order can change while the write runs.
    pub written: Vec<Source>,
    /// What went wrong, if anything.
    pub error: Option<String>,
}

/// A save in flight, if there is one.
#[derive(Debug)]
pub struct Saver {
    pending: Option<Receiver<Saved>>,
    destination: Option<String>,
}

impl Default for Saver {
    /// No save in flight.
    fn default() -> (saver: Saver)
        ensures
            !saver.spec_is_busy(),
            saver.spec_destination() is None,
            saver.wf(),
    {
        Saver { pending: None, destination: None }
    }
}

/// Whether `saved` is what a report from the saving thread comes to, for a save to
/// `destination`. A thread that died without reporting has failed, and nothing is known to have
/// reached the file.
pub open spec fn concludes(
    arrival: Arrival<Saved>,
    destination: Option<Seq<char>>,
    saved: Option<Saved>,
) -> bool {
    match arrival {
        Arrival::Message(report) => saved == Some(report),
        Arrival::Empty => saved is None,
        Arrival::Disconnected => {
            &&& saved is Some
            &&& saved->0.path@ == (match destination {
                Some(path) => path,
                None => Seq::empty(),
            })
            &&& saved->0.written@ == Seq::<Source>::empty()
            &&& saved->0.error is Some
            &&& saved->0.error->0@ == "the save did not report back"@
        },
    }
}

/// What a report from the saving thread comes to, for a save to `destination`.
pub fn conclude(arrival: Arrival<Saved>, destination: Option<String>) -> (saved: Option<Saved>)
    ensures
        concludes(
            arrival,
            match destination {
                Some(path) => Some(path@),
                None => None,
            },
            saved,
        ),
{
    match arrival {
        Arrival::Message(report) => Some(report),
        Arrival::Empty => None,
        Arrival::Disconnected => Some(
            Saved {
                path: match destination {
                    Some(path) => path,
                    None => String::new(),
                },
                written: Vec::new(),
                error: Some(String::from_str("the save did not report back")),
            },
        ),
    }
}

impl Saver {
    /// A destination is known exactly while a save is running.
    pub closed spec fn wf(&self) -> bool {
        self.pending is Some == self.destination is Some
    }

    /// Whether a save is running.
    pub closed spec fn spec_is_busy(&self) -> bool {
        self.pending is Some
    }

    /// The channel that the report of a running save comes in on.
    pub closed spec fn spec_pending(&self) -> Option<Receiver<Saved>> {
        self.pending
    }

    /// Where the save in flight is going.
    pub closed spec fn spec_destination(&self) -> Option<Seq<char>> {
        match self.destination {
            Some(path) => Some(path@),
            None => None,
        }
    }

    /// Whether a save is already running.
    pub fn is_busy(&self) -> (busy: bool)
        ensures
            busy == self.spec_is_busy(),
    {
        self.pending.is_some()
    }

    /// Where the save in flight is going.
    pub fn destination(&self) -> (destination: Option<&str>)
        ensures
            match destination {
                Some(path) => self.spec_destination() == Some(path@),
                None => self.spec_destination() is None,
            },
    {
        match &self.destination {
            Some(path) => Some(path.as_str()),
            None => None,
        }
    }

    /// Waits for the report of a save that was just started. Refused while another is running:
    /// two writes racing for one path is how a file gets corrupted.
    pub fn listen(&mut self, receiver: Receiver<Saved>, destination: &str) -> (started: bool)
        requires
            old(self).wf(),
        ensures
            final(self).wf(),
            started == !old(self).spec_is_busy(),
            started ==> final(self).spec_is_busy() && final(self).spec_pending() == Some(receiver)
                && final(self).spec_destination() == Some(destination@),
            !started ==> *final(self) == *old(self),
    {
        if self.pending.is_some() {
            return false;
        }
        self.pending = Some(receiver);
        self.destination = Some(String::from_str(destination));
        true
    }

    /// Takes in what was found in the saving thread's channel. Either way of ending leaves the
    /// saver idle, or no other save could ever be started.
    pub fn take_in(&mut self, arrival: Arrival<Saved>) -> (saved: Option<Saved>)
        requires
            old(self).wf(),
        ensures
            final(self).wf(),
            concludes(arrival, old(self).spec_destination(), saved),
            arrival is Empty ==> *final(self) == *old(self),
            !(arrival is Empty) ==> !final(self).spec_is_busy()
                && final(self).spec_destination() is None,
    {
        if let Arrival::Empty = arrival {
            return None;
        }
        let destination = self.destination.take();
        self.pending = None;
        conclude(arrival, destination)
    }

    /// Takes the result, if the save has finished since the last poll. Never waits.
    ///
    /// With no save running there is none. A result is handed out once, and the saver is idle
    /// from then on; while there is none the save goes on. What the saving thread sent decides
    /// which of these it is, as [`Saver::take_in`] says.
    pub fn poll(&mut self) -> (saved: Option<Saved>)
        requires
            old(self).wf(),
        ensures
            final(self).wf(),
            !old(self).spec_is_busy() ==> saved is None && *final(self) == *old(self),
            old(self).spec_is_busy() ==> (saved is Some) == !final(self).spec_is_busy(),
            saved is Some ==> final(self).spec_destination() is None,
            final(self).spec_is_busy() ==> *final(self) == *old(self),
    {
        let arrival = match &self.pending {
            None => {
                return None;
            },
            Some(receiver) => mail::receive(receiver),
        };
        self.take_in(arrival)
    }
}

} // verus!
