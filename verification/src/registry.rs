//! Identifiers for the images and placements that a process creates.
//!
//! Images and placements are numbered apart, each from a counter of its own
//! that only goes up: an identifier, once handed out, is never handed out
//! again, whatever becomes of the command that was to carry it. The
//! identifiers below [`FIRST_ID`] are left to the protocol.
//!
//! A registry is changed through `&mut`, so two callers cannot draw from it
//! at once; threads that share one must hold it behind a lock.

use vstd::prelude::*;

verus! {

/// The first identifier that a registry hands out; those below are reserved.
pub const FIRST_ID: u32 = 10;

/// The state of a registry: the identifier that each counter hands out next.
pub struct IdCounters {
    /// The identifier of the next image.
    pub next_image: u32,
    /// The identifier of the next placement.
    pub next_placement: u32,
}

/// What a registry is asked for.
pub enum IdKind {
    /// An identifier for an image.
    Image,
    /// An identifier for a placement.
    Placement,
}

impl IdCounters {
    /// The counters of a fresh registry.
    pub open spec fn fresh() -> IdCounters {
        IdCounters { next_image: FIRST_ID, next_placement: FIRST_ID }
    }

    /// Neither counter has stepped into the reserved range.
    pub open spec fn wf(self) -> bool {
        self.next_image >= FIRST_ID && self.next_placement >= FIRST_ID
    }

    /// The identifier that a request of kind `kind` is answered with.
    pub open spec fn next(self, kind: IdKind) -> u32 {
        match kind {
            IdKind::Image => self.next_image,
            IdKind::Placement => self.next_placement,
        }
    }

    /// Whether a request of kind `kind` can be answered: the counter has not
    /// reached the last value of its type.
    pub open spec fn has_next(self, kind: IdKind) -> bool {
        self.next(kind) < u32::MAX
    }

    /// The counters after a request of kind `kind` was answered.
    pub open spec fn after(self, kind: IdKind) -> IdCounters {
        match kind {
            IdKind::Image => IdCounters {
                next_image: (self.next_image + 1) as u32,
                next_placement: self.next_placement,
            },
            IdKind::Placement => IdCounters {
                next_image: self.next_image,
                next_placement: (self.next_placement + 1) as u32,
            },
        }
    }

    /// The counters after the requests `requests` were answered in turn.
    pub open spec fn after_all(self, requests: Seq<IdKind>) -> IdCounters
        decreases requests.len(),
    {
        if requests.len() == 0 {
            self
        } else {
            self.after_all(requests.drop_last()).after(requests.last())
        }
    }

    /// The identifier that answers the request at position `at` of
    /// `requests`, where the requests are answered in turn.
    pub open spec fn answer(self, requests: Seq<IdKind>, at: int) -> u32 {
        self.after_all(requests.take(at)).next(requests[at])
    }
}

/// The number of requests of kind `kind` among `requests`.
pub open spec fn count_of(requests: Seq<IdKind>, kind: IdKind) -> nat
    decreases requests.len(),
{
    if requests.len() == 0 {
        0
    } else {
        count_of(requests.drop_last(), kind) + if requests.last() == kind {
            1nat
        } else {
            0nat
        }
    }
}

/// The two counters of a process.
#[derive(Debug)]
pub struct KittyIdRegistry {
    next_image: u32,
    next_placement: u32,
}

impl View for KittyIdRegistry {
    type V = IdCounters;

    closed spec fn view(&self) -> IdCounters {
        IdCounters { next_image: self.next_image, next_placement: self.next_placement }
    }
}

impl KittyIdRegistry {
    /// A registry that has handed out nothing yet.
    pub fn new() -> (ids: Self)
        ensures
            ids@ == IdCounters::fresh(),
            ids@.wf(),
    {
        KittyIdRegistry { next_image: FIRST_ID, next_placement: FIRST_ID }
    }

    /// Whether the registry can still number an image.
    pub fn has_image_id(&self) -> (left: bool)
        ensures
            left == self@.has_next(IdKind::Image),
    {
        self.next_image < u32::MAX
    }

    /// Whether the registry can still number a placement.
    pub fn has_placement_id(&self) -> (left: bool)
        ensures
            left == self@.has_next(IdKind::Placement),
    {
        self.next_placement < u32::MAX
    }

    /// Hands out the identifier of the next image.
    pub fn next_image_id(&mut self) -> (id: u32)
        requires
            old(self)@.has_next(IdKind::Image),
        ensures
            id == old(self)@.next(IdKind::Image),
            final(self)@ == old(self)@.after(IdKind::Image),
    {
        let id = self.next_image;
        self.next_image = id + 1;
        id
    }

    /// Hands out the identifier of the next placement.
    pub fn next_placement_id(&mut self) -> (id: u32)
        requires
            old(self)@.has_next(IdKind::Placement),
        ensures
            id == old(self)@.next(IdKind::Placement),
            final(self)@ == old(self)@.after(IdKind::Placement),
    {
        let id = self.next_placement;
        self.next_placement = id + 1;
        id
    }
}

/// A longer run of requests holds at least as many of each kind.
pub proof fn lemma_count_of_take(requests: Seq<IdKind>, kind: IdKind, shorter: int, longer: int)
    requires
        0 <= shorter <= longer <= requests.len(),
    ensures
        count_of(requests.take(shorter), kind) <= count_of(requests.take(longer), kind),
        longer == requests.len() ==> requests.take(longer) == requests,
        shorter < longer && requests[shorter] == kind ==> count_of(requests.take(shorter), kind)
            < count_of(requests.take(longer), kind),
    decreases longer - shorter,
{
    if longer == requests.len() {
        assert(requests.take(longer) =~= requests);
    }
    if shorter < longer {
        let next = requests.take(shorter + 1);
        assert(next.drop_last() =~= requests.take(shorter));
        assert(next.last() == requests[shorter]);
        lemma_count_of_take(requests, kind, shorter + 1, longer);
    }
}

/// Each counter stands as many steps above its start as requests of its kind
/// were answered.
pub proof fn lemma_after_all(start: IdCounters, requests: Seq<IdKind>)
    requires
        start.next_image + count_of(requests, IdKind::Image) <= u32::MAX,
        start.next_placement + count_of(requests, IdKind::Placement) <= u32::MAX,
    ensures
        start.after_all(requests).next_image == start.next_image + count_of(
            requests,
            IdKind::Image,
        ),
        start.after_all(requests).next_placement == start.next_placement + count_of(
            requests,
            IdKind::Placement,
        ),
    decreases requests.len(),
{
    if requests.len() > 0 {
        lemma_after_all(start, requests.drop_last());
    }
}

/// Any run of requests for image and placement identifiers is answered with
/// identifiers that are never repeated within their kind.
///
/// The request at position `at` gets the counter's start plus the number of
/// earlier requests of its kind, so a run with N image requests and M
/// placement requests uses exactly the N image identifiers and the M
/// placement identifiers that follow the starts, each once, and none of them
/// from the reserved range. The run must fit below the last value of `u32`.
pub proof fn lemma_identifiers_never_repeat(start: IdCounters, requests: Seq<IdKind>)
    requires
        start.wf(),
        start.next_image + count_of(requests, IdKind::Image) <= u32::MAX,
        start.next_placement + count_of(requests, IdKind::Placement) <= u32::MAX,
    ensures
        forall|at: int|
            0 <= at < requests.len() ==> #[trigger] start.answer(requests, at) == start.next(
                requests[at],
            ) + count_of(requests.take(at), requests[at]),
        forall|at: int|
            0 <= at < requests.len() ==> #[trigger] start.answer(requests, at) >= FIRST_ID,
        forall|at: int|
            0 <= at < requests.len() ==> start.after_all(requests.take(at)).has_next(
                #[trigger] requests[at],
            ),
        forall|first: int, second: int|
            0 <= first < second < requests.len() && requests[first] == requests[second]
                ==> #[trigger] start.answer(requests, first) != #[trigger] start.answer(
                requests,
                second,
            ),
        start.after_all(requests).next_image == start.next_image + count_of(
            requests,
            IdKind::Image,
        ),
        start.after_all(requests).next_placement == start.next_placement + count_of(
            requests,
            IdKind::Placement,
        ),
{
    lemma_after_all(start, requests);
    assert forall|at: int| 0 <= at < requests.len() implies #[trigger] start.answer(requests, at)
        == start.next(requests[at]) + count_of(requests.take(at), requests[at]) by {
        let len = requests.len() as int;
        lemma_count_of_take(requests, IdKind::Image, at, len);
        lemma_count_of_take(requests, IdKind::Placement, at, len);
        lemma_after_all(start, requests.take(at));
    }
    assert forall|at: int| 0 <= at < requests.len() implies start.after_all(
        requests.take(at),
    ).has_next(#[trigger] requests[at]) by {
        let len = requests.len() as int;
        lemma_count_of_take(requests, IdKind::Image, at, len);
        lemma_count_of_take(requests, IdKind::Placement, at, len);
        lemma_after_all(start, requests.take(at));
    }
    assert forall|first: int, second: int|
        0 <= first < second < requests.len() && requests[first]
            == requests[second] implies #[trigger] start.answer(requests, first)
        != #[trigger] start.answer(requests, second) by {
        lemma_count_of_take(requests, requests[first], first, second);
    }
}

} // verus!
