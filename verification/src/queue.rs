//! Asking a worker for a page, and deciding whether it is worth asking.
//!
//! Two panels ask: the scrolling column of pages and the page grid. Both go through here, so
//! a page that one of them has given up on is not asked for by the other.

use vstd::prelude::*;
use vstd::string::*;

use crate::failure;
use crate::failure::{Failure, RenderError};
use crate::order::PageOrder;
use crate::text;
use crate::tiles;
use crate::view::PageNumber;

verus! {

/// A step on the ladder of zoom factors that pages are drawn at.
#[derive(Debug, Clone, Copy, PartialEq, Eq, Structural)]
pub struct ZoomBucket {
    pub rung: i16,
}

impl ZoomBucket {
    /// The step that a worker's tag names, if there is one.
    pub fn from_tag(tag: i64) -> (bucket: Option<ZoomBucket>)
        ensures
            bucket == (if i16::MIN <= tag <= i16::MAX {
                Some(ZoomBucket { rung: tag as i16 })
            } else {
                None
            }),
    {
        if tag >= -32768 && tag <= 32767 {
            Some(ZoomBucket { rung: tag as i16 })
        } else {
            None
        }
    }
}

/// One page of one document at one size.
#[derive(Debug, Clone, Copy, PartialEq, Eq, Structural)]
pub struct CacheKey {
    pub document: usize,
    pub page: usize,
    pub bucket: ZoomBucket,
}

impl CacheKey {
    /// The key of a page at a size.
    pub fn new(document: usize, page: usize, bucket: ZoomBucket) -> (key: CacheKey)
        ensures
            key == (CacheKey { document, page, bucket }),
    {
        CacheKey { document, page, bucket }
    }
}

/// Where `key` is recorded.
pub open spec fn recorded_at(entries: Seq<(CacheKey, Failure)>, key: CacheKey, at: int) -> bool {
    0 <= at < entries.len() && entries[at].0 == key
}

/// No key is recorded twice.
pub open spec fn each_once(entries: Seq<(CacheKey, Failure)>) -> bool {
    forall|i: int, j: int|
        0 <= i < j < entries.len() ==> (#[trigger] entries[i]).0 != (#[trigger] entries[j]).0
}

/// The record as a map.
pub open spec fn as_map(entries: Seq<(CacheKey, Failure)>) -> Map<CacheKey, Failure> {
    Map::new(
        |key: CacheKey| exists|at: int| recorded_at(entries, key, at),
        |key: CacheKey| entries[choose|at: int| recorded_at(entries, key, at)].1,
    )
}

/// Rasterizations that failed, with whatever attempts each has left.
#[derive(Debug)]
pub struct Failures {
    entries: Vec<(CacheKey, Failure)>,
}

impl View for Failures {
    type V = Map<CacheKey, Failure>;

    closed spec fn view(&self) -> Map<CacheKey, Failure> {
        as_map(self.entries@)
    }
}

impl Failures {
    /// No key is recorded twice.
    #[verifier::type_invariant]
    spec fn wf(self) -> bool {
        each_once(self.entries@)
    }

    /// Nothing has failed.
    pub fn new() -> (failures: Failures)
        ensures
            failures@ == Map::<CacheKey, Failure>::empty(),
    {
        let failures = Failures { entries: Vec::new() };
        proof {
            assert(failures@ =~= Map::<CacheKey, Failure>::empty());
        }
        failures
    }

    /// Where `key` is recorded.
    fn find(&self, key: CacheKey) -> (found: Option<usize>)
        ensures
            match found {
                Some(at) => recorded_at(self.entries@, key, at as int) && self@.contains_key(key)
                    && self@[key] == self.entries@[at as int].1,
                None => !self@.contains_key(key),
            },
    {
        proof {
            use_type_invariant(self);
        }
        let mut at: usize = 0;
        while at < self.entries.len()
            invariant
                at <= self.entries.len(),
                each_once(self.entries@),
                forall|i: int| 0 <= i < at ==> (#[trigger] self.entries@[i]).0 != key,
            decreases self.entries.len() - at,
        {
            if self.entries[at].0 == key {
                proof {
                    assert(recorded_at(self.entries@, key, at as int));
                }
                return Some(at);
            }
            at += 1;
        }
        None
    }

    /// The failure recorded for `key`, if there is one.
    pub fn get(&self, key: CacheKey) -> (failure: Option<&Failure>)
        ensures
            match failure {
                Some(failure) => self@.contains_key(key) && *failure == self@[key],
                None => !self@.contains_key(key),
            },
    {
        match self.find(key) {
            Some(at) => Some(&self.entries[at].1),
            None => None,
        }
    }

    /// Forgets `key`, and hands out what was recorded for it.
    pub fn remove(&mut self, key: CacheKey) -> (failure: Option<Failure>)
        ensures
            final(self)@ == old(self)@.remove(key),
            match failure {
                Some(failure) => old(self)@.contains_key(key) && failure == old(self)@[key],
                None => !old(self)@.contains_key(key),
            },
    {
        match self.find(key) {
            Some(at) => {
                proof {
                    use_type_invariant(&*self);
                }
                let mut entries: Vec<(CacheKey, Failure)> = Vec::new();
                std::mem::swap(&mut entries, &mut self.entries);
                let ghost before = entries@;
                let (_, failure) = entries.remove(at);
                proof {
                    lemma_removed(before, at as int, key);
                }
                self.entries = entries;
                Some(failure)
            },
            None => {
                proof {
                    assert(self@.remove(key) =~= self@);
                }
                None
            },
        }
    }

    /// Records a failure for `key`, in place of any recorded before.
    pub fn insert(&mut self, key: CacheKey, failure: Failure)
        ensures
            final(self)@ == old(self)@.insert(key, failure),
    {
        let _ = self.remove(key);
        proof {
            use_type_invariant(&*self);
        }
        let mut entries: Vec<(CacheKey, Failure)> = Vec::new();
        std::mem::swap(&mut entries, &mut self.entries);
        let ghost before = entries@;
        proof {
            assert forall|i: int| 0 <= i < before.len() implies (#[trigger] before[i]).0 != key by {
                if before[i].0 == key {
                    assert(recorded_at(before, key, i));
                    assert(as_map(before).contains_key(key));
                }
            }
            lemma_pushed(before, key, failure);
        }
        entries.push((key, failure));
        self.entries = entries;
        proof {
            assert(old(self)@.remove(key).insert(key, failure) =~= old(self)@.insert(key, failure));
        }
    }

    /// The keys that have been given up on.
    pub fn abandoned(&self) -> (keys: Vec<CacheKey>)
        ensures
            keys@.no_duplicates(),
            keys@.to_set() == given_up(self@),
    {
        proof {
            use_type_invariant(self);
        }
        let mut keys: Vec<CacheKey> = Vec::new();
        let mut at: usize = 0;
        while at < self.entries.len()
            invariant
                at <= self.entries.len(),
                each_once(self.entries@),
                keys@.no_duplicates(),
                forall|k: int|
                    0 <= k < keys@.len() ==> given_up_among(self.entries@, #[trigger] keys@[k], at as int),
                forall|i: int|
                    0 <= i < at && (#[trigger] self.entries@[i]).1.retries_left == 0
                        ==> keys@.contains(self.entries@[i].0),
            decreases self.entries.len() - at,
        {
            if self.entries[at].1.gave_up() {
                let ghost before = keys@;
                let key = self.entries[at].0;
                proof {
                    assert forall|k: int| 0 <= k < before.len() implies before[k] != key by {
                        assert(given_up_among(self.entries@, before[k], at as int));
                        let i = choose|i: int|
                            0 <= i < at && recorded_at(self.entries@, before[k], i)
                                && self.entries@[i].1.retries_left == 0;
                        assert(self.entries@[i].0 != self.entries@[at as int].0);
                    }
                }
                keys.push(key);
                proof {
                    assert(recorded_at(self.entries@, key, at as int));
                    assert(given_up_among(self.entries@, key, at + 1));
                    assert forall|k: int| 0 <= k < keys@.len() implies given_up_among(
                        self.entries@,
                        #[trigger] keys@[k],
                        at + 1,
                    ) by {
                        if k < before.len() {
                            assert(given_up_among(self.entries@, before[k], at as int));
                        }
                    }
                    assert forall|i: int|
                        0 <= i < at + 1 && (#[trigger] self.entries@[i]).1.retries_left
                            == 0 implies keys@.contains(self.entries@[i].0) by {
                        if i < at {
                            let k = before.index_of(self.entries@[i].0);
                            assert(keys@[k] == self.entries@[i].0);
                        } else {
                            assert(keys@[before.len() as int] == key);
                        }
                    }
                }
            }
            proof {
                assert forall|k: int| 0 <= k < keys@.len() implies given_up_among(
                    self.entries@,
                    #[trigger] keys@[k],
                    at + 1,
                ) by {
                    assert(given_up_among(self.entries@, keys@[k], at as int) || given_up_among(
                        self.entries@,
                        keys@[k],
                        at + 1,
                    ));
                }
            }
            at += 1;
        }
        proof {
            assert forall|key: CacheKey| keys@.to_set().contains(key) == given_up(self@).contains(
                key,
            ) by {
                lemma_lookup(self.entries@, key);
                if keys@.contains(key) {
                    let k = choose|k: int| 0 <= k < keys@.len() && keys@[k] == key;
                    assert(given_up_among(self.entries@, keys@[k], at as int));
                    let i = choose|i: int|
                        0 <= i < at && recorded_at(self.entries@, keys@[k], i)
                            && self.entries@[i].1.retries_left == 0;
                    assert(recorded_at(self.entries@, key, i));
                }
                if given_up(self@).contains(key) {
                    let i = choose|i: int| recorded_at(self.entries@, key, i);
                    assert(recorded_at(self.entries@, key, i));
                    assert(keys@.contains(self.entries@[i].0));
                }
            }
            assert(keys@.to_set() =~= given_up(self@));
        }
        keys
    }
}

/// Whether `key` is among the first `count` entries, and has been given up on.
spec fn given_up_among(entries: Seq<(CacheKey, Failure)>, key: CacheKey, count: int) -> bool {
    exists|i: int|
        0 <= i < count && recorded_at(entries, key, i) && entries[i].1.retries_left == 0
}

/// The keys that have been given up on.
pub open spec fn given_up(failures: Map<CacheKey, Failure>) -> Set<CacheKey> {
    Set::new(
        |key: CacheKey| failures.contains_key(key) && failures[key].retries_left == 0,
    )
}

/// What is recorded is what the map holds.
proof fn lemma_lookup(entries: Seq<(CacheKey, Failure)>, key: CacheKey)
    requires
        each_once(entries),
    ensures
        forall|at: int| #[trigger]
            recorded_at(entries, key, at) ==> as_map(entries).contains_key(key)
                && as_map(entries)[key] == entries[at].1,
        as_map(entries).contains_key(key) ==> exists|at: int| recorded_at(entries, key, at),
{
}

/// Taking an entry out of the record takes its key out of the map.
proof fn lemma_removed(entries: Seq<(CacheKey, Failure)>, at: int, key: CacheKey)
    requires
        each_once(entries),
        recorded_at(entries, key, at),
    ensures
        each_once(entries.remove(at)),
        as_map(entries.remove(at)) == as_map(entries).remove(key),
{
    let rest = entries.remove(at);
    assert forall|other: CacheKey| #[trigger]
        as_map(rest).contains_key(other) == as_map(entries).remove(key).contains_key(other) by {
        if exists|i: int| recorded_at(rest, other, i) {
            let i = choose|i: int| recorded_at(rest, other, i);
            let j = if i < at {
                i
            } else {
                i + 1
            };
            assert(rest[i] == entries[j]);
            assert(recorded_at(entries, other, j));
        }
        if other != key && exists|j: int| recorded_at(entries, other, j) {
            let j = choose|j: int| recorded_at(entries, other, j);
            let i = if j < at {
                j
            } else {
                j - 1
            };
            assert(rest[i] == entries[j]);
            assert(recorded_at(rest, other, i));
        }
    }
    assert forall|other: CacheKey| #[trigger]
        as_map(rest).contains_key(other) implies as_map(rest)[other] == as_map(entries).remove(
        key,
    )[other] by {
        let i = choose|i: int| recorded_at(rest, other, i);
        let j = if i < at {
            i
        } else {
            i + 1
        };
        assert(rest[i] == entries[j]);
        assert(recorded_at(entries, other, j));
        lemma_lookup(rest, other);
        lemma_lookup(entries, other);
    }
    assert(as_map(rest) =~= as_map(entries).remove(key));
}

/// Adding an entry with a new key to the record adds it to the map.
proof fn lemma_pushed(entries: Seq<(CacheKey, Failure)>, key: CacheKey, failure: Failure)
    requires
        each_once(entries),
        forall|i: int| 0 <= i < entries.len() ==> (#[trigger] entries[i]).0 != key,
    ensures
        each_once(entries.push((key, failure))),
        as_map(entries.push((key, failure))) == as_map(entries).insert(key, failure),
{
    let more = entries.push((key, failure));
    assert(recorded_at(more, key, entries.len() as int));
    assert forall|other: CacheKey| #[trigger]
        as_map(more).contains_key(other) == as_map(entries).insert(key, failure).contains_key(
            other,
        ) by {
        if exists|i: int| recorded_at(entries, other, i) {
            let i = choose|i: int| recorded_at(entries, other, i);
            assert(recorded_at(more, other, i));
        }
        if other != key && exists|i: int| recorded_at(more, other, i) {
            let i = choose|i: int| recorded_at(more, other, i);
            assert(recorded_at(entries, other, i));
        }
    }
    assert forall|other: CacheKey| #[trigger]
        as_map(more).contains_key(other) implies as_map(more)[other] == as_map(entries).insert(
        key,
        failure,
    )[other] by {
        lemma_lookup(more, other);
        lemma_lookup(entries, other);
        if other != key {
            let i = choose|i: int| recorded_at(more, other, i);
            assert(recorded_at(entries, other, i));
        }
    }
    assert(as_map(more) =~= as_map(entries).insert(key, failure));
}

/// Whether `key` is one of `keys`.
fn listed(keys: &[CacheKey], key: CacheKey) -> (listed: bool)
    ensures
        listed == keys@.contains(key),
{
    let mut i: usize = 0;
    while i < keys.len()
        invariant
            i <= keys.len(),
            forall|j: int| 0 <= j < i ==> keys@[j] != key,
        decreases keys.len() - i,
    {
        if keys[i] == key {
            return true;
        }
        i += 1;
    }
    false
}

/// The keys without every mention of `key`, in the order they were.
pub open spec fn without(keys: Seq<CacheKey>, key: CacheKey) -> Seq<CacheKey> {
    keys.filter(|pending: CacheKey| pending != key)
}

/// Whether `key` is worth asking a worker for: nobody has asked yet, and it has not been given
/// up on.
pub open spec fn is_worth_asking_for(
    key: CacheKey,
    in_flight: Seq<CacheKey>,
    failures: Map<CacheKey, Failure>,
) -> bool {
    !in_flight.contains(key) && !given_up(failures).contains(key)
}

/// Whether `key` is worth asking a worker for.
///
/// Only decides. The retry is spent once a worker has taken the job, so a submission that was
/// refused costs nothing.
pub fn worth_asking_for(key: CacheKey, in_flight: &[CacheKey], failures: &Failures) -> (worth: bool)
    ensures
        worth == is_worth_asking_for(key, in_flight@, failures@),
{
    if listed(in_flight, key) {
        return false;
    }
    match failures.get(key) {
        Some(failure) => !failure.gave_up(),
        None => true,
    }
}

/// What is on its way from the workers, and what came back broken.
#[derive(Debug)]
pub struct Renders {
    in_flight: Vec<CacheKey>,
    failures: Failures,
    bucket: ZoomBucket,
}

/// What is on its way, what has failed, and the size that pages are being asked for at.
#[verifier::ext_equal]
pub struct RendersView {
    pub in_flight: Seq<CacheKey>,
    pub failures: Map<CacheKey, Failure>,
    pub bucket: ZoomBucket,
}

impl View for Renders {
    type V = RendersView;

    closed spec fn view(&self) -> RendersView {
        RendersView {
            in_flight: self.in_flight@,
            failures: self.failures@,
            bucket: self.bucket,
        }
    }
}

/// The numbers that the pages of `keys` are shown with.
pub open spec fn numbers_of(keys: Set<CacheKey>) -> Set<usize> {
    keys.map(|key: CacheKey| number_of(key))
}

/// Each number is larger than the one before it.
pub open spec fn ascending(numbers: Seq<usize>) -> bool {
    forall|i: int, j: int| 0 <= i < j < numbers.len() ==> numbers[i] < numbers[j]
}

/// Puts `number` where it belongs in an ascending list, unless it is there already.
fn put_in_order(numbers: &mut Vec<usize>, number: usize)
    requires
        ascending(old(numbers)@),
    ensures
        ascending(final(numbers)@),
        final(numbers)@.to_set() == old(numbers)@.to_set().insert(number),
{
    let mut at: usize = 0;
    while at < numbers.len() && numbers[at] < number
        invariant
            at <= numbers.len(),
            ascending(numbers@),
            numbers@ == old(numbers)@,
            forall|j: int| 0 <= j < at ==> numbers@[j] < number,
        decreases numbers.len() - at,
    {
        at += 1;
    }
    let ghost before = numbers@;
    if at < numbers.len() && numbers[at] == number {
        proof {
            assert(before.contains(number));
            assert(before.to_set().insert(number) =~= before.to_set());
        }
        return;
    }
    numbers.insert(at, number);
    proof {
        assert forall|n: usize| numbers@.to_set().contains(n) == before.to_set().insert(
            number,
        ).contains(n) by {
            if before.contains(n) {
                let j = before.index_of(n);
                if j < at {
                    assert(numbers@[j] == n);
                } else {
                    assert(numbers@[j + 1] == n);
                }
            }
            if n == number {
                assert(numbers@[at as int] == n);
            }
            if numbers@.contains(n) {
                let j = numbers@.index_of(n);
                if j < at {
                    assert(before[j] == n);
                } else if j > at {
                    assert(before[j - 1] == n);
                }
            }
        }
        assert(numbers@.to_set() =~= before.to_set().insert(number));
    }
}

/// What to say of a rasterized page whose buffer does not match its dimensions.
pub open spec fn misshapen(width: u32, height: u32, bytes: usize) -> Seq<char> {
    "renderer returned "@ + text::decimal_text(bytes as nat) + " bytes for a "@
        + text::decimal_text(width as nat) + "x"@ + text::decimal_text(height as nat) + " page"@
}

impl Renders {
    /// Nothing has been asked for.
    pub fn new(bucket: ZoomBucket) -> (renders: Renders)
        ensures
            renders@ == (RendersView {
                in_flight: Seq::empty(),
                failures: Map::empty(),
                bucket,
            }),
    {
        Renders { in_flight: Vec::new(), failures: Failures::new(), bucket }
    }

    /// How many pages are on their way.
    pub fn in_flight(&self) -> (count: usize)
        ensures
            count == self@.in_flight.len(),
    {
        self.in_flight.len()
    }

    /// What went wrong with `key`, if it has been given up on. One that will be tried again is
    /// still on its way.
    pub fn given_up_on(&self, key: CacheKey) -> (failure: Option<&Failure>)
        ensures
            match failure {
                Some(failure) => given_up(self@.failures).contains(key) && *failure
                    == self@.failures[key],
                None => !given_up(self@.failures).contains(key),
            },
    {
        match self.failures.get(key) {
            Some(failure) => if failure.gave_up() {
                Some(failure)
            } else {
                None
            },
            None => None,
        }
    }

    /// Whether `key` is worth asking a worker for.
    pub fn wants(&self, key: CacheKey) -> (worth: bool)
        ensures
            worth == is_worth_asking_for(key, self@.in_flight, self@.failures),
    {
        worth_asking_for(key, self.in_flight.as_slice(), &self.failures)
    }

    /// Records that a worker has taken `key`. Spends a retry if this was one.
    pub fn taken(&mut self, key: CacheKey)
        ensures
            final(self)@.in_flight == old(self)@.in_flight.push(key),
            final(self)@.bucket == old(self)@.bucket,
            !old(self)@.failures.contains_key(key) ==> final(self)@.failures
                == old(self)@.failures,
            old(self)@.failures.contains_key(key) ==> {
                let before = old(self)@.failures[key];
                let after = final(self)@.failures[key];
                &&& final(self)@.failures == old(self)@.failures.insert(key, after)
                &&& after.message == before.message
                &&& after.retries_left == (if before.retries_left > 0 {
                    before.retries_left - 1
                } else {
                    0
                })
            },
    {
        self.in_flight.push(key);
        match self.failures.remove(key) {
            Some(failure) => {
                let mut failure = failure;
                let _ = failure.take_retry();
                self.failures.insert(key, failure);
                proof {
                    assert(old(self)@.failures.remove(key).insert(key, failure)
                        =~= old(self)@.failures.insert(key, failure));
                }
            },
            None => {
                proof {
                    assert(old(self)@.failures.remove(key) =~= old(self)@.failures);
                }
            },
        }
    }

    /// `key` is no longer on its way.
    fn arrived(&mut self, key: CacheKey)
        ensures
            final(self)@.in_flight == without(old(self)@.in_flight, key),
            final(self)@.failures == old(self)@.failures,
            final(self)@.bucket == old(self)@.bucket,
    {
        let mut rest: Vec<CacheKey> = Vec::new();
        let mut i: usize = 0;
        while i < self.in_flight.len()
            invariant
                i <= self.in_flight.len(),
                rest@ == without(self.in_flight@.take(i as int), key),
            decreases self.in_flight.len() - i,
        {
            let pending = self.in_flight[i];
            proof {
                let taken = self.in_flight@.take(i + 1);
                assert(taken.drop_last() =~= self.in_flight@.take(i as int));
                reveal(Seq::filter);
            }
            if pending != key {
                rest.push(pending);
            }
            i += 1;
        }
        proof {
            assert(self.in_flight@.take(i as int) =~= self.in_flight@);
        }
        self.in_flight = rest;
    }

    /// A worker has drawn `key`, as `bytes` bytes for `width` by `height` pixels. Reports the
    /// size to show it at, or `None` for a buffer that cannot be shown: that page is given up
    /// on, because the next attempt would come out the same.
    pub fn drawn(&mut self, key: CacheKey, width: u32, height: u32, bytes: usize) -> (size: Option<
        (usize, usize),
    >)
        ensures
            final(self)@.in_flight == without(old(self)@.in_flight, key),
            final(self)@.bucket == old(self)@.bucket,
            size is Some == tiles::fits(width, height, bytes as nat),
            match size {
                Some(size) => size == (width as usize, height as usize) && final(self)@.failures
                    == old(self)@.failures.remove(key),
                None => {
                    let failure = final(self)@.failures[key];
                    &&& final(self)@.failures == old(self)@.failures.insert(key, failure)
                    &&& failure.retries_left == 0
                    &&& failure.message@ == misshapen(width, height, bytes)
                },
            },
    {
        self.arrived(key);
        match tiles::texture_size(width, height, bytes) {
            Some(size) => {
                let _ = self.failures.remove(key);
                Some(size)
            },
            None => {
                let mut message = String::from_str("renderer returned ");
                message.append(text::decimal(bytes).as_str());
                message.append(" bytes for a ");
                message.append(text::decimal(width as usize).as_str());
                message.append("x");
                message.append(text::decimal(height as usize).as_str());
                message.append(" page");
                self.failures.insert(key, Failure { message, retries_left: 0 });
                None
            },
        }
    }

    /// A worker could not draw `key`. Reports whether it will be tried again.
    pub fn failed(&mut self, key: CacheKey, error: &RenderError) -> (will_retry: bool)
        ensures
            final(self)@.in_flight == without(old(self)@.in_flight, key),
            final(self)@.bucket == old(self)@.bucket,
            ({
                let recorded = final(self)@.failures[key];
                &&& final(self)@.failures == old(self)@.failures.insert(key, recorded)
                &&& recorded.message@ == error.message@
                &&& recorded.retries_left == failure::retries_after(
                    error.timed_out,
                    if old(self)@.failures.contains_key(key) {
                        Some(old(self)@.failures[key].retries_left)
                    } else {
                        None
                    },
                )
                &&& will_retry == (recorded.retries_left > 0)
            }),
    {
        self.arrived(key);
        let failure = Failure::from_error(error, self.failures.get(key));
        let will_retry = !failure.gave_up();
        self.failures.insert(key, failure);
        will_retry
    }

    /// Pages are asked for at `bucket` from now on. Reports whether that is another size than
    /// before: what is queued is then for the old one, and all of it is forgotten.
    pub fn at_bucket(&mut self, bucket: ZoomBucket) -> (cancel: bool)
        ensures
            cancel == (old(self)@.bucket != bucket),
            final(self)@ == (if cancel {
                (RendersView { in_flight: Seq::empty(), failures: Map::empty(), bucket })
            } else {
                old(self)@
            }),
    {
        if self.bucket == bucket {
            return false;
        }
        self.in_flight = Vec::new();
        self.failures = Failures::new();
        self.bucket = bucket;
        true
    }

    /// The page shown at `position`, if it is there and worth asking a worker for.
    pub fn candidate(&self, order: &PageOrder, position: usize) -> (key: Option<CacheKey>)
        ensures
            ({
                let shown = order@.order;
                let wanted = CacheKey {
                    document: shown[position as int].document,
                    page: shown[position as int].page,
                    bucket: self@.bucket,
                };
                key == (if position < shown.len() && is_worth_asking_for(
                    wanted,
                    self@.in_flight,
                    self@.failures,
                ) {
                    Some(wanted)
                } else {
                    None
                })
            }),
    {
        match order.source_of(position) {
            Some(source) => {
                let key = CacheKey::new(source.document, source.page, self.bucket);
                if self.wants(key) {
                    Some(key)
                } else {
                    None
                }
            },
            None => None,
        }
    }

    /// What is painted where a page belongs.
    pub fn tile(&self, key: CacheKey, drawn: bool) -> (tile: Tile)
        ensures
            match tile {
                Tile::Image => drawn,
                Tile::Failed { title, message } => !drawn && given_up(self@.failures).contains(key)
                    && title@ == failed_title(key) && message@ == self@.failures[key].message@,
                Tile::Placeholder => !drawn && !given_up(self@.failures).contains(key),
            },
    {
        if drawn {
            return Tile::Image;
        }
        match self.given_up_on(key) {
            Some(failure) => {
                let mut title = String::from_str("page ");
                title.append(text::decimal(PageNumber::from_index(key.page).get()).as_str());
                title.append(" could not be rendered");
                Tile::Failed { title, message: String::from_str(failure.message.as_str()) }
            },
            None => Tile::Placeholder,
        }
    }

    /// How many rasterizations have been given up on.
    pub fn abandoned(&self) -> (count: usize)
        ensures
            count == given_up(self@.failures).len(),
    {
        let keys = self.failures.abandoned();
        proof {
            keys@.unique_seq_to_set();
        }
        keys.len()
    }

    /// The pages given up on at any size, ascending, each once.
    pub fn failed_pages(&self) -> (pages: Vec<usize>)
        ensures
            ascending(pages@),
            pages@.to_set() == numbers_of(given_up(self@.failures)),
    {
        let keys = self.failures.abandoned();
        let mut pages: Vec<usize> = Vec::new();
        let mut i: usize = 0;
        proof {
            assert(pages@.to_set() =~= numbers_of(keys@.take(0).to_set()));
        }
        while i < keys.len()
            invariant
                i <= keys.len(),
                ascending(pages@),
                pages@.to_set() == numbers_of(keys@.take(i as int).to_set()),
            decreases keys.len() - i,
        {
            let key = keys[i];
            let number = PageNumber::from_index(key.page).get();
            put_in_order(&mut pages, number);
            proof {
                let before = keys@.take(i as int).to_set();
                let after = keys@.take(i + 1).to_set();
                assert forall|k: CacheKey| after.contains(k) == before.insert(key).contains(k) by {
                    if before.contains(k) {
                        let j = keys@.take(i as int).index_of(k);
                        assert(keys@.take(i + 1)[j] == k);
                    }
                    if k == key {
                        assert(keys@.take(i + 1)[i as int] == k);
                    }
                    if after.contains(k) {
                        let j = keys@.take(i + 1).index_of(k);
                        if j < i {
                            assert(keys@.take(i as int)[j] == k);
                        }
                    }
                }
                assert(after =~= before.insert(key));
                lemma_one_more(before, key);
            }
            i += 1;
        }
        proof {
            assert(keys@.take(i as int) =~= keys@);
        }
        pages
    }
}

/// What is painted where a page belongs.
#[derive(Debug, PartialEq, Eq)]
pub enum Tile {
    /// The page.
    Image,
    /// That it could not be drawn, and the renderer's own message.
    Failed { title: String, message: String },
    /// A blank of the right shape, so that nothing jumps when the page arrives.
    Placeholder,
}

/// What is said of a page that could not be drawn.
pub open spec fn failed_title(key: CacheKey) -> Seq<char> {
    "page "@ + text::decimal_text(number_of(key) as nat) + " could not be rendered"@
}

/// The number that the page of `key` is shown with.
pub open spec fn number_of(key: CacheKey) -> usize {
    if key.page < usize::MAX {
        (key.page + 1) as usize
    } else {
        usize::MAX
    }
}

/// One more key adds its number.
proof fn lemma_one_more(keys: Set<CacheKey>, key: CacheKey)
    ensures
        numbers_of(keys.insert(key)) == numbers_of(keys).insert(number_of(key)),
{
    assert forall|n: usize| numbers_of(keys.insert(key)).contains(n) == numbers_of(keys).insert(
        number_of(key),
    ).contains(n) by {
        if numbers_of(keys).contains(n) {
            let k = choose|k: CacheKey| keys.contains(k) && number_of(k) == n;
            assert(keys.insert(key).contains(k));
        }
        if n == number_of(key) {
            assert(keys.insert(key).contains(key));
        }
    }
    assert(numbers_of(keys.insert(key)) =~= numbers_of(keys).insert(number_of(key)));
}

/// A page on its way is not asked for again.
pub proof fn law_a_page_already_asked_for_is_not_asked_for_twice(
    key: CacheKey,
    in_flight: Seq<CacheKey>,
    failures: Map<CacheKey, Failure>,
)
    ensures
        !is_worth_asking_for(key, in_flight.push(key), failures),
{
    assert(in_flight.push(key)[in_flight.len() as int] == key);
}

/// One page on its way does not hold another back, nor the same page at another size.
pub proof fn law_other_requests_do_not_hold_a_page_back(
    key: CacheKey,
    other: CacheKey,
    in_flight: Seq<CacheKey>,
    failures: Map<CacheKey, Failure>,
)
    requires
        key != other,
    ensures
        is_worth_asking_for(key, in_flight.push(other), failures) == is_worth_asking_for(
            key,
            in_flight,
            failures,
        ),
{
    assert forall|k: CacheKey| k == key implies in_flight.push(other).contains(k)
        == in_flight.contains(k) by {
        if in_flight.contains(k) {
            assert(in_flight.push(other)[in_flight.index_of(k)] == k);
        }
        if in_flight.push(other).contains(k) {
            let i = in_flight.push(other).index_of(k);
            assert(in_flight[i] == k);
        }
    }
}

} // verus!
