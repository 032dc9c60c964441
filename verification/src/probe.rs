//! How the state of one turf is found out, request by request.
//!
//! A [`TurfProbe`] names the next request to the host. Whoever runs it performs the request
//! and hands the answer to [`TurfProbe::advance`], until the action is
//! [`ProbeAction::Done`].
use vstd::prelude::*;
use crate::coord::TurfCoords;
use crate::direction::{
    cardinal, cardinal_at, has_flag, nav_pass_is_simulated, opposite, reverse_dir, BAKED_FLAG,
    CARDINAL_COUNT, COND_SHIFT, FLYING_SHIFT, SIMULATED_FLAG,
};
use crate::grid::TurfInfo;
use crate::host_value::{is_truthy, number_or_zero, or_zero, truthy, HostValue};
use crate::nav_cache::{cached_value, NavPassCache};

verus! {

/// What the host has to do next.
#[derive(Clone, Copy)]
pub enum ProbeAction {
    /// Find the turf.
    Locate,
    /// Read the packed value of the turf.
    ReadNavPass,
    /// Bake the turf, then read its packed value again.
    Bake,
    /// Find the blockers on the edge of the turf in this direction.
    ListBlockers(i32),
    /// Look at one of these blockers.
    ExamineBlocker(usize),
    /// Ask one of these blockers whether it can be crossed in this direction.
    AskBlocker {
        index: usize,
        dir: i32,
    },
    /// Nothing: the state of the turf is known; `None` where there is no turf.
    Done(Option<TurfInfo>),
}

/// What came of an action.
#[derive(Clone, Copy)]
pub enum ProbeEvent {
    /// There is no turf.
    Missing,
    /// There is a turf.
    Present,
    /// The packed value, where it is a number.
    NavPass(Option<i32>),
    /// The number of blockers on the edge; none where the turf keeps no list for it.
    Blockers(usize),
    /// The blocker stands for the pass flags of which one is needed to cross it.
    Flags(i32),
    /// The blocker is an object, on the turf itself or not.
    Object {
        on_turf: bool,
    },
    /// What the blocker answered.
    Answer(HostValue),
}

/// The number of blockers on an edge, given the number in the list that the turf keeps for it.
pub open spec fn blocker_count(listed: Option<usize>) -> usize {
    match listed {
        Some(n) => n,
        None => 0,
    }
}

impl ProbeEvent {
    /// The event for the blockers on an edge: an edge that the turf keeps no list for has none,
    /// so nothing blocks it.
    pub fn blockers(count: Option<usize>) -> (e: Self)
        ensures
            e == ProbeEvent::Blockers(
                match count {
                    Some(n) => n,
                    None => 0,
                },
            ),
            e == ProbeEvent::Blockers(blocker_count(count)),
    {
        match count {
            Some(n) => ProbeEvent::Blockers(n),
            None => ProbeEvent::Blockers(0),
        }
    }
}

/// The state of a turf while it is found out.
#[derive(Clone, Copy)]
pub struct TurfProbe {
    pub coords: TurfCoords,
    pub is_flying: bool,
    pub pass_flags: i32,
    /// What the cache said of the turf.
    pub cached: Option<i32>,
    /// The packed value in use.
    pub nav_pass: i32,
    /// The edges found open so far.
    pub open_edges: i32,
    /// The edge that is being looked at.
    pub edge: usize,
    /// The number of blockers on that edge.
    pub blockers: usize,
    pub action: ProbeAction,
}

/// The bit that opens the `i`-th edge for a walker or a flyer.
pub open spec fn pass_bit(i: int, is_flying: bool) -> i32 {
    if is_flying {
        cardinal_at(i) << FLYING_SHIFT
    } else {
        cardinal_at(i) << 0
    }
}

/// The bit that makes the `i`-th edge depend on its blockers.
pub open spec fn condition_bit(i: int) -> i32 {
    cardinal_at(i) << COND_SHIFT
}

/// The direction in which a blocker is asked: blockers are kept with the edge that leaves the
/// turf, so one that stands on the far side sees the way reversed.
pub open spec fn asked_direction(dir: i32, on_turf: bool) -> i32 {
    if on_turf {
        dir
    } else {
        opposite(dir)
    }
}

impl TurfProbe {
    pub open spec fn start(coords: TurfCoords, is_flying: bool, pass_flags: i32) -> TurfProbe {
        TurfProbe {
            coords,
            is_flying,
            pass_flags,
            cached: None,
            nav_pass: 0,
            open_edges: 0,
            edge: 0,
            blockers: 0,
            action: ProbeAction::Locate,
        }
    }

    pub open spec fn doing(self, action: ProbeAction) -> TurfProbe {
        TurfProbe { action, ..self }
    }

    /// The probe is over: the edges found open, and the rest of the packed value.
    pub open spec fn concluded(self) -> TurfProbe {
        self.doing(
            ProbeAction::Done(
                Some(
                    TurfInfo {
                        open_edges: self.open_edges,
                        simulated: has_flag(self.nav_pass, SIMULATED_FLAG),
                    },
                ),
            ),
        )
    }

    /// Goes on with the `i`-th edge: an edge without its bit stays shut, one that depends on
    /// no blocker is open, and the first one that does is looked at.
    pub open spec fn seek(self, i: nat) -> TurfProbe
        decreases CARDINAL_COUNT - i,
    {
        if i >= CARDINAL_COUNT {
            self.concluded()
        } else if !has_flag(self.nav_pass, pass_bit(i as int, self.is_flying)) {
            self.seek(i + 1)
        } else if !has_flag(self.nav_pass, condition_bit(i as int)) {
            TurfProbe { open_edges: self.open_edges | cardinal_at(i as int), ..self }.seek(i + 1)
        } else {
            TurfProbe {
                edge: i as usize,
                action: ProbeAction::ListBlockers(cardinal_at(i as int)),
                ..self
            }
        }
    }

    /// The edge that was looked at is open or shut; goes on with the next one.
    pub open spec fn edge_decided(self, open: bool) -> TurfProbe {
        if open {
            TurfProbe {
                open_edges: self.open_edges | cardinal_at(self.edge as int),
                ..self
            }.seek((self.edge + 1) as nat)
        } else {
            self.seek((self.edge + 1) as nat)
        }
    }

    /// Goes on with the blocker at `index`; an edge whose blockers were all crossed is open.
    pub open spec fn next_blocker(self, index: int) -> TurfProbe {
        if index < self.blockers {
            self.doing(ProbeAction::ExamineBlocker(index as usize))
        } else {
            self.edge_decided(true)
        }
    }

    /// The probe after an event, given what the cache says of the turf. An event that does not
    /// answer the pending action changes nothing.
    pub open spec fn next(self, event: ProbeEvent, cached: Option<i32>) -> TurfProbe {
        match (self.action, event) {
            (ProbeAction::Locate, ProbeEvent::Missing) => self.doing(ProbeAction::Done(None)),
            (ProbeAction::Locate, ProbeEvent::Present) => TurfProbe {
                cached,
                action: ProbeAction::ReadNavPass,
                ..self
            },
            (ProbeAction::ReadNavPass, ProbeEvent::NavPass(read)) => {
                let nav_pass = match self.cached {
                    Some(value) => value,
                    None => number_or_zero(read),
                };
                let known = TurfProbe { nav_pass, ..self };
                if has_flag(nav_pass, BAKED_FLAG) {
                    known.seek(0)
                } else {
                    known.doing(ProbeAction::Bake)
                }
            },
            (ProbeAction::Bake, ProbeEvent::NavPass(read)) => {
                let known = TurfProbe { nav_pass: number_or_zero(read), ..self };
                if has_flag(known.nav_pass, BAKED_FLAG) {
                    known.seek(0)
                } else {
                    known.concluded()
                }
            },
            (ProbeAction::ListBlockers(_), ProbeEvent::Blockers(count)) => TurfProbe {
                blockers: count,
                ..self
            }.next_blocker(0),
            (ProbeAction::ExamineBlocker(index), ProbeEvent::Flags(flags)) => if has_flag(
                self.pass_flags,
                flags,
            ) {
                self.next_blocker(index + 1)
            } else {
                self.edge_decided(false)
            },
            (ProbeAction::ExamineBlocker(index), ProbeEvent::Object { on_turf }) => self.doing(
                ProbeAction::AskBlocker {
                    index,
                    dir: asked_direction(cardinal_at(self.edge as int), on_turf),
                },
            ),
            (ProbeAction::AskBlocker { index, dir }, ProbeEvent::Answer(value)) => if is_truthy(
                value,
            ) {
                self.next_blocker(index + 1)
            } else {
                self.edge_decided(false)
            },
            _ => self,
        }
    }

    /// The value that an event makes the probe publish: one that a bake produced.
    pub open spec fn publishes(self, event: ProbeEvent) -> Option<i32> {
        match (self.action, event) {
            (ProbeAction::Bake, ProbeEvent::NavPass(read)) => if has_flag(
                number_or_zero(read),
                BAKED_FLAG,
            ) {
                Some(number_or_zero(read))
            } else {
                None
            },
            _ => None,
        }
    }

    /// The probe after an event, and what is published then.
    pub open spec fn advanced(self, event: ProbeEvent, published: Map<TurfCoords, i32>) -> (
        TurfProbe,
        Map<TurfCoords, i32>,
    ) {
        (
            self.next(event, cached_value(published, self.coords)),
            match self.publishes(event) {
                Some(value) => published.insert(self.coords, value),
                None => published,
            },
        )
    }

    /// A probe that is under way looks at one of the four edges, and at one of the blockers
    /// there.
    pub open spec fn wf(self) -> bool {
        &&& self.edge < CARDINAL_COUNT
        &&& match self.action {
            ProbeAction::ListBlockers(dir) => dir == cardinal_at(self.edge as int),
            ProbeAction::ExamineBlocker(index) => index < self.blockers,
            ProbeAction::AskBlocker { index, .. } => index < self.blockers,
            _ => true,
        }
    }

    pub fn new(coords: TurfCoords, is_flying: bool, pass_flags: i32) -> (p: Self)
        ensures
            p == TurfProbe::start(coords, is_flying, pass_flags),
            p.wf(),
    {
        TurfProbe {
            coords,
            is_flying,
            pass_flags,
            cached: None,
            nav_pass: 0,
            open_edges: 0,
            edge: 0,
            blockers: 0,
            action: ProbeAction::Locate,
        }
    }

    fn conclude(&mut self)
        ensures
            *final(self) == old(self).concluded(),
    {
        self.action = ProbeAction::Done(
            Some(
                TurfInfo {
                    open_edges: self.open_edges,
                    simulated: nav_pass_is_simulated(self.nav_pass),
                },
            ),
        );
    }

    /// Finds the next edge, from the `first` one on, that depends on blockers.
    fn resolve_edges(&mut self, first: usize)
        requires
            first <= CARDINAL_COUNT,
            old(self).edge < CARDINAL_COUNT,
        ensures
            *final(self) == old(self).seek(first as nat),
            final(self).wf(),
    {
        let shift: i32 = if self.is_flying {
            FLYING_SHIFT
        } else {
            0
        };
        let mut i: usize = first;
        while i < CARDINAL_COUNT
            invariant
                i <= CARDINAL_COUNT,
                self.edge < CARDINAL_COUNT,
                shift == (if self.is_flying {
                    FLYING_SHIFT
                } else {
                    0
                }),
                self.seek(i as nat) == old(self).seek(first as nat),
            decreases CARDINAL_COUNT - i,
        {
            let dir: i32 = cardinal(i);
            if self.nav_pass & (dir << shift) != 0 {
                if self.nav_pass & (dir << COND_SHIFT) != 0 {
                    self.edge = i;
                    self.action = ProbeAction::ListBlockers(dir);
                    return;
                }
                self.open_edges = self.open_edges | dir;
            }
            i += 1;
        }
        self.conclude();
    }

    fn decide_edge(&mut self, open: bool)
        requires
            old(self).edge < CARDINAL_COUNT,
        ensures
            *final(self) == old(self).edge_decided(open),
            final(self).wf(),
    {
        let edge: usize = self.edge;
        if open {
            self.open_edges = self.open_edges | cardinal(edge);
        }
        self.resolve_edges(edge + 1);
    }

    fn go_to_blocker(&mut self, index: usize)
        requires
            old(self).edge < CARDINAL_COUNT,
        ensures
            *final(self) == old(self).next_blocker(index as int),
            final(self).wf(),
    {
        if index < self.blockers {
            self.action = ProbeAction::ExamineBlocker(index);
        } else {
            self.decide_edge(true);
        }
    }

    /// Goes on after the event that answers the pending action.
    fn evaluate_conditional_edge(&mut self, event: ProbeEvent)
        requires
            old(self).wf(),
            old(self).action is ListBlockers || old(self).action is ExamineBlocker || old(
                self,
            ).action is AskBlocker,
        ensures
            *final(self) == old(self).next(event, None),
            final(self).wf(),
    {
        match (self.action, event) {
            (ProbeAction::ListBlockers(_), ProbeEvent::Blockers(count)) => {
                self.blockers = count;
                self.go_to_blocker(0);
            },
            (ProbeAction::ExamineBlocker(index), ProbeEvent::Flags(flags)) => {
                if self.pass_flags & flags != 0 {
                    self.go_to_blocker(index + 1);
                } else {
                    self.decide_edge(false);
                }
            },
            (ProbeAction::ExamineBlocker(index), ProbeEvent::Object { on_turf }) => {
                let dir: i32 = cardinal(self.edge);
                let asked: i32 = if on_turf {
                    dir
                } else {
                    reverse_dir(dir)
                };
                self.action = ProbeAction::AskBlocker { index, dir: asked };
            },
            (ProbeAction::AskBlocker { index, .. }, ProbeEvent::Answer(value)) => {
                if truthy(value) {
                    self.go_to_blocker(index + 1);
                } else {
                    self.decide_edge(false);
                }
            },
            _ => {},
        }
    }

    /// Goes on after the event that answers the pending action. What the cache says of the turf
    /// comes before what the turf itself says; a value that had to be baked is published.
    pub fn advance(&mut self, event: ProbeEvent, cache: &mut NavPassCache)
        requires
            old(self).wf(),
        ensures
            final(self).wf(),
            *final(self) == old(self).next(event, cached_value(old(cache)@, old(self).coords)),
            final(cache)@ == (match old(self).publishes(event) {
                Some(value) => old(cache)@.insert(old(self).coords, value),
                None => old(cache)@,
            }),
            (*final(self), final(cache)@) == old(self).advanced(event, old(cache)@),
    {
        match (self.action, event) {
            (ProbeAction::Locate, ProbeEvent::Missing) => {
                self.action = ProbeAction::Done(None);
            },
            (ProbeAction::Locate, ProbeEvent::Present) => {
                self.cached = cache.cached_nav_pass(self.coords);
                self.action = ProbeAction::ReadNavPass;
            },
            (ProbeAction::ReadNavPass, ProbeEvent::NavPass(read)) => {
                self.nav_pass = match self.cached {
                    Some(value) => value,
                    None => or_zero(read),
                };
                if self.nav_pass & BAKED_FLAG != 0 {
                    self.resolve_edges(0);
                } else {
                    // An unbaked turf has no edge bits to trust.
                    self.action = ProbeAction::Bake;
                }
            },
            (ProbeAction::Bake, ProbeEvent::NavPass(read)) => {
                self.nav_pass = or_zero(read);
                if self.nav_pass & BAKED_FLAG != 0 {
                    cache.cache_nav_pass(self.coords, self.nav_pass);
                    self.resolve_edges(0);
                } else {
                    self.conclude();
                }
            },
            (ProbeAction::ListBlockers(_), _) => {
                self.evaluate_conditional_edge(event);
            },
            (ProbeAction::ExamineBlocker(_), _) => {
                self.evaluate_conditional_edge(event);
            },
            (ProbeAction::AskBlocker { .. }, _) => {
                self.evaluate_conditional_edge(event);
            },
            _ => {},
        }
    }
}

} // verus!
