//! The refresh coordinator: it holds the published store, and decides what
//! a refresh cycle does next.

use crate::data::PostView;
use crate::db::{Database, InMemDatabase};
use vstd::prelude::*;

verus! {

/// Where a refresh cycle stands.
#[derive(Debug, Clone, Copy, PartialEq, Eq, Structural)]
pub enum RefreshState {
    /// No cycle is under way.
    Idle,
    /// The remote source is being fetched.
    Fetching,
    /// A new store is being built from what was fetched.
    Building,
    /// A new store is built and waits to be published.
    Swapping,
}

/// What happened outside the coordinator.
#[derive(Debug)]
pub enum RefreshEvent {
    /// The time for a refresh has come.
    Tick,
    /// The remote source was fetched.
    Fetched,
    /// The remote source could not be fetched.
    FetchFailed,
    /// A new store was built from what was fetched.
    Built(InMemDatabase),
    /// The documents that were fetched could not be loaded.
    BuildFailed,
    /// The runner is ready to publish the new store.
    Swap,
}

/// What the runner of the cycle is to do next.
#[derive(Debug, Clone, Copy, PartialEq, Eq, Structural)]
pub enum RefreshAction {
    /// Wait for the next tick.
    Wait,
    /// Fetch the remote source.
    Fetch,
    /// Load the documents and build a new store.
    Build,
    /// Hand in `Swap`, with readers kept out meanwhile.
    Publish,
}

/// An event without what it carries.
#[derive(Debug, Clone, Copy, PartialEq, Eq, Structural)]
pub enum Happening {
    Tick,
    Fetched,
    FetchFailed,
    Built,
    BuildFailed,
    Swap,
}

impl View for RefreshEvent {
    type V = Happening;

    open spec fn view(&self) -> Happening {
        match *self {
            RefreshEvent::Tick => Happening::Tick,
            RefreshEvent::Fetched => Happening::Fetched,
            RefreshEvent::FetchFailed => Happening::FetchFailed,
            RefreshEvent::Built(_) => Happening::Built,
            RefreshEvent::BuildFailed => Happening::BuildFailed,
            RefreshEvent::Swap => Happening::Swap,
        }
    }
}

/// The state after an event. A cycle goes from idle through fetching,
/// building and swapping back to idle; a failure ends it at once; and an
/// event that does not belong to the state is passed over, so that a tick
/// during a cycle starts no second one.
pub open spec fn next_state(state: RefreshState, event: Happening) -> RefreshState {
    match (state, event) {
        (RefreshState::Idle, Happening::Tick) => RefreshState::Fetching,
        (RefreshState::Fetching, Happening::Fetched) => RefreshState::Building,
        (RefreshState::Fetching, Happening::FetchFailed) => RefreshState::Idle,
        (RefreshState::Building, Happening::Built) => RefreshState::Swapping,
        (RefreshState::Building, Happening::BuildFailed) => RefreshState::Idle,
        (RefreshState::Swapping, Happening::Swap) => RefreshState::Idle,
        _ => state,
    }
}

/// What the runner is to do after an event.
pub open spec fn next_action(state: RefreshState, event: Happening) -> RefreshAction {
    match (state, event) {
        (RefreshState::Idle, Happening::Tick) => RefreshAction::Fetch,
        (RefreshState::Fetching, Happening::Fetched) => RefreshAction::Build,
        (RefreshState::Building, Happening::Built) => RefreshAction::Publish,
        _ => RefreshAction::Wait,
    }
}

/// The number of seconds of a day.
pub const SECONDS_PER_DAY: u32 = 86400;

/// The seconds from a time of day, given in seconds since midnight, to the
/// next midnight.
pub fn seconds_until_midnight(since_midnight: u32) -> (wait: u32)
    ensures
        wait == SECONDS_PER_DAY - since_midnight % SECONDS_PER_DAY,
        0 < wait <= SECONDS_PER_DAY,
{
    SECONDS_PER_DAY - since_midnight % SECONDS_PER_DAY
}

/// The published store, the state of the refresh cycle, and the new store
/// while it waits to be published.
#[derive(Debug)]
pub struct RefreshCoordinator {
    state: RefreshState,
    published: InMemDatabase,
    pending: Option<InMemDatabase>,
}

impl RefreshCoordinator {
    /// The state of the cycle.
    pub closed spec fn state(&self) -> RefreshState {
        self.state
    }

    /// The records of the published store.
    pub closed spec fn snapshot(&self) -> Seq<PostView> {
        self.published.records()
    }

    /// The records of the store that waits to be published, if one does.
    pub closed spec fn pending(&self) -> Option<Seq<PostView>> {
        match self.pending {
            Some(store) => Some(store.records()),
            None => None,
        }
    }

    /// The coordinator is sound: the published store is, a store waits to
    /// be published exactly in the state `Swapping`, and that store is
    /// sound too.
    pub closed spec fn well_formed(&self) -> bool {
        &&& self.published.well_formed()
        &&& self.pending is Some <==> self.state == RefreshState::Swapping
        &&& self.pending matches Some(store) ==> store.well_formed()
    }

    /// In a sound coordinator a store waits to be published exactly in the
    /// state `Swapping`.
    pub proof fn law_pending_in_swapping(&self)
        requires
            self.well_formed(),
        ensures
            self.pending() is Some <==> self.state() == RefreshState::Swapping,
    {
    }

    /// A coordinator that publishes `initial`, with no cycle under way.
    pub fn new(initial: InMemDatabase) -> (coordinator: RefreshCoordinator)
        requires
            initial.well_formed(),
        ensures
            coordinator.well_formed(),
            coordinator.state() == RefreshState::Idle,
            coordinator.snapshot() == initial.records(),
            coordinator.pending() is None,
    {
        RefreshCoordinator { state: RefreshState::Idle, published: initial, pending: None }
    }

    /// Where the cycle stands.
    pub fn current_state(&self) -> (state: RefreshState)
        ensures
            state == self.state(),
    {
        self.state
    }

    /// The published store. It is a whole store at every time: the one
    /// that was published last, never one that is being built.
    pub fn published(&self) -> (store: &InMemDatabase)
        requires
            self.well_formed(),
        ensures
            store.well_formed(),
            store.records() == self.snapshot(),
    {
        &self.published
    }

    /// Takes an event and says what to do next. The published store
    /// changes in one case only: on `Swap` in the state `Swapping`, where
    /// the store that was built takes its place as a whole. A failure to
    /// fetch or to build leaves it as it is.
    pub fn step(&mut self, event: RefreshEvent) -> (action: RefreshAction)
        requires
            old(self).well_formed(),
            event matches RefreshEvent::Built(store) ==> store.well_formed(),
        ensures
            final(self).well_formed(),
            final(self).state() == next_state(old(self).state(), event@),
            action == next_action(old(self).state(), event@),
            final(self).snapshot() == if old(self).state() == RefreshState::Swapping && event@
                == Happening::Swap {
                old(self).pending()->0
            } else {
                old(self).snapshot()
            },
            final(self).pending() == if old(self).state() == RefreshState::Building && event@
                == Happening::Built {
                Some(event->Built_0.records())
            } else if old(self).state() == RefreshState::Swapping && event@ == Happening::Swap {
                None
            } else {
                old(self).pending()
            },
    {
        match (self.state, event) {
            (RefreshState::Idle, RefreshEvent::Tick) => {
                self.state = RefreshState::Fetching;
                RefreshAction::Fetch
            },
            (RefreshState::Fetching, RefreshEvent::Fetched) => {
                self.state = RefreshState::Building;
                RefreshAction::Build
            },
            (RefreshState::Fetching, RefreshEvent::FetchFailed) => {
                self.state = RefreshState::Idle;
                RefreshAction::Wait
            },
            (RefreshState::Building, RefreshEvent::Built(store)) => {
                self.pending = Some(store);
                self.state = RefreshState::Swapping;
                RefreshAction::Publish
            },
            (RefreshState::Building, RefreshEvent::BuildFailed) => {
                self.state = RefreshState::Idle;
                RefreshAction::Wait
            },
            (RefreshState::Swapping, RefreshEvent::Swap) => {
                match self.pending.take() {
                    Some(store) => {
                        self.published = store;
                    },
                    None => {},
                }
                self.state = RefreshState::Idle;
                RefreshAction::Wait
            },
            _ => RefreshAction::Wait,
        }
    }
}

} // verus!
