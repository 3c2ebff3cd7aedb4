//! The search for the fit of one window.
//!
//! A number of starting points are drawn inside the search intervals and solved, and some
//! more where none of them is admissible; from the best admissible one a walk leads
//! downhill. [`LpplSearch::task`] names the next thing to be done, until the winner's
//! log-prices are asked for and [`LpplSearch::finish`] makes the fit.

use crate::binary64::Real;
use crate::constants::POSITIVE_INFINITY;
use crate::lppl;
use crate::lppl::{
    assemble_fit, search_range, Candidate, FitError, LpplFit, LpplFitConfig, LpplParams, Polish,
    SearchPoint,
};
use crate::order;
use vstd::prelude::*;

verus! {

/// Starting points that are drawn in addition where none of the configured ones is
/// admissible.
pub const FALLBACK_STARTS: usize = 300;

/// The intervals that starting points are drawn from.
#[derive(Clone, Copy, Debug, PartialEq, Eq, Structural)]
pub struct SearchBox {
    pub tc_min: Real,
    pub tc_max: Real,
    pub m_min: Real,
    pub m_max: Real,
    pub omega_min: Real,
    pub omega_max: Real,
}

impl SearchBox {
    /// Critical time, exponent and frequency lie in the intervals.
    pub open spec fn holds(self, p: LpplParams) -> bool {
        &&& self.tc_min.at_most(p.tc) && p.tc.at_most(self.tc_max)
        &&& self.m_min.at_most(p.m) && p.m.at_most(self.m_max)
        &&& self.omega_min.at_most(p.omega) && p.omega.at_most(self.omega_max)
    }
}

/// The candidate is a solution at the point.
pub open spec fn solves(c: Candidate, at: SearchPoint) -> bool {
    &&& c.params.tc == at.tc
    &&& c.params.m == at.m
    &&& c.params.omega == at.omega
}

/// What has to be done next.
#[derive(Clone, Copy, Debug, PartialEq, Eq, Structural)]
pub enum SearchTask {
    /// Draw a starting point, and solve it where [`LpplSearch::wants`] says so.
    Draw(SearchBox),
    /// Solve this point.
    Solve(SearchPoint),
    /// Give the log-prices of these parameters at the observation times.
    Predict(LpplParams),
    /// Nothing: there is no admissible point.
    GiveUp,
}

/// A search in progress.
pub struct LpplSearch {
    pub log_prices: Vec<Real>,
    pub times: Vec<Real>,
    pub cfg: LpplFitConfig,
    pub t_max: Real,
    pub tc_min: Real,
    pub tc_max: Real,
    /// Starting points that are still to be drawn.
    pub starts_left: usize,
    /// Whether the additional starting points have been granted.
    pub fallback: bool,
    /// Best admissible starting point so far.
    pub best: Option<Candidate>,
    /// The walk downhill, once it has begun.
    pub walk: Option<Polish>,
    /// All starting points that were solved.
    pub trials: Ghost<Seq<Candidate>>,
}

/// The search intervals run upwards.
pub open spec fn searchable(t_max: Real, cfg: LpplFitConfig) -> bool {
    cfg.ordered() && lppl::critical_range(t_max, cfg).0.at_most(
        lppl::critical_range(t_max, cfg).1,
    )
}

/// No starting point is acceptable.
pub open spec fn none_acceptable(
    trials: Seq<Candidate>,
    t_max: Real,
    cfg: LpplFitConfig,
) -> bool {
    forall|j: int|
        0 <= j < trials.len() ==> !lppl::acceptable(#[trigger] trials[j], t_max, cfg)
}

/// `c` is the first acceptable starting point with the least error.
pub open spec fn is_first_best(
    trials: Seq<Candidate>,
    t_max: Real,
    cfg: LpplFitConfig,
    c: Candidate,
) -> bool {
    exists|k: int|
        #[trigger] lppl::first_best(trials, trials.len() as int, t_max, cfg, k) && c == trials[k]
}

impl LpplSearch {
    pub open spec fn wf(self) -> bool {
        &&& self.log_prices@.len() == self.times@.len() >= 30
        &&& self.t_max == self.times@.last()
        &&& (self.tc_min, self.tc_max) == lppl::critical_range(self.t_max, self.cfg)
        &&& searchable(self.t_max, self.cfg)
        &&& self.starts_left > 0 ==> self.walk is None
        &&& self.best is None && self.starts_left == 0 ==> self.fallback
        &&& self.best is None ==> {
            &&& self.walk is None
            &&& none_acceptable(self.trials@, self.t_max, self.cfg)
        }
        &&& self.best matches Some(best) ==> {
            &&& is_first_best(self.trials@, self.t_max, self.cfg, best)
            &&& self.intervals().holds(best.params)
        }
        &&& self.walk matches Some(walk) ==> {
            &&& walk.wf()
            &&& walk.cfg == self.cfg
            &&& walk.t_max == self.t_max
            &&& walk.best.sse.at_most(self.best->0.sse)
            &&& self.cfg.num_polish_steps == 0 ==> walk.done() && walk.best == self.best->0
            &&& walk.best.params.admissible(self.cfg)
            &&& self.intervals().holds(walk.best.params)
        }
    }

    /// Nothing is left to be done but to make the fit of the winner, if there is one.
    pub open spec fn over(self) -> bool {
        &&& self.starts_left == 0
        &&& match self.walk {
            Some(walk) => walk.done(),
            None => self.best is None,
        }
    }

    /// The best starting point is acceptable, and no acceptable one is better.
    proof fn lemma_best_is_acceptable(self)
        requires
            self.wf(),
        ensures
            self.best matches Some(best) ==> {
                &&& lppl::acceptable(best, self.t_max, self.cfg)
                &&& forall|j: int|
                    0 <= j < self.trials@.len() && lppl::acceptable(
                        #[trigger] self.trials@[j],
                        self.t_max,
                        self.cfg,
                    ) ==> best.sse.at_most(self.trials@[j].sse)
            },
    {
        if self.best is Some {
            let k = choose|k: int|
                #[trigger] lppl::first_best(
                    self.trials@,
                    self.trials@.len() as int,
                    self.t_max,
                    self.cfg,
                    k,
                ) && self.best->0 == self.trials@[k];
            assert(lppl::acceptable(self.trials@[k], self.t_max, self.cfg));
        }
    }

    /// The intervals that starting points are drawn from.
    pub open spec fn intervals(self) -> SearchBox {
        SearchBox {
            tc_min: self.tc_min,
            tc_max: self.tc_max,
            m_min: self.cfg.m_min,
            m_max: self.cfg.m_max,
            omega_min: self.cfg.omega_min,
            omega_max: self.cfg.omega_max,
        }
    }

    /// The walk from the best starting point, at its next point to solve.
    pub open spec fn walk_now(self) -> Option<Polish> {
        match (self.walk, self.best) {
            (Some(walk), _) => Some(walk.settled()),
            (None, Some(best)) => Some(
                (Polish {
                    cfg: self.cfg,
                    t_max: self.t_max,
                    best,
                    rounds_left: self.cfg.num_polish_steps,
                    step: 0,
                    improved: false,
                }).settled(),
            ),
            (None, None) => None,
        }
    }

    /// What has to be done next.
    pub open spec fn task_now(self) -> SearchTask {
        if self.starts_left > 0 {
            SearchTask::Draw(self.intervals())
        } else {
            match self.walk_now() {
                Some(walk) => if walk.done() {
                    SearchTask::Predict(walk.best.params)
                } else {
                    SearchTask::Solve(walk.offered())
                },
                None => SearchTask::GiveUp,
            }
        }
    }

    /// Whether a solved starting point beats the best so far.
    pub open spec fn improved_by(self, c: Candidate) -> bool {
        let bound = match self.best {
            Some(best) => best.sse,
            None => Real { bits: POSITIVE_INFINITY },
        };
        !c.params.tc.at_most(self.t_max) && c.sse.below(bound) && c.params.admissible(self.cfg)
    }

    /// The winner.
    pub open spec fn chosen(self) -> Option<Candidate> {
        match self.walk {
            Some(walk) => Some(walk.best),
            None => self.best,
        }
    }

    /// Begins a search. There must be as many times as log-prices, and at least 30.
    pub fn start(log_prices: Vec<Real>, times: Vec<Real>, cfg: &LpplFitConfig) -> (r: Result<
        LpplSearch,
        FitError,
    >)
        requires
            log_prices@.len() == times@.len() >= 30 ==> searchable(times@.last(), *cfg),
        ensures
            r is Ok <==> log_prices@.len() == times@.len() && log_prices@.len() >= 30,
            r matches Err(e) ==> e == FitError::TooFewPoints,
            r matches Ok(s) ==> {
                &&& s.wf()
                &&& s.log_prices == log_prices
                &&& s.times == times
                &&& s.cfg == *cfg
                &&& s.starts_left == if cfg.num_random_starts > 0 {
                    cfg.num_random_starts
                } else {
                    FALLBACK_STARTS
                }
                &&& s.fallback == (cfg.num_random_starts == 0)
                &&& s.best is None
                &&& s.walk is None
                &&& s.trials@.len() == 0
            },
    {
        match search_range(log_prices.len(), &times, cfg) {
            Err(e) => Err(e),
            Ok((tc_min, tc_max)) => {
                let t_max = times[times.len() - 1];
                let fallback = cfg.num_random_starts == 0;
                let starts_left: usize = if fallback {
                    FALLBACK_STARTS
                } else {
                    cfg.num_random_starts
                };
                Ok(
                    LpplSearch {
                        log_prices,
                        times,
                        cfg: *cfg,
                        t_max,
                        tc_min,
                        tc_max,
                        starts_left,
                        fallback,
                        best: None,
                        walk: None,
                        trials: Ghost(Seq::empty()),
                    },
                )
            },
        }
    }

    /// What has to be done next.
    pub fn task(&mut self) -> (r: SearchTask)
        requires
            old(self).wf(),
        ensures
            final(self).wf(),
            r == old(self).task_now(),
            r is Predict || r is GiveUp ==> final(self).over(),
            *final(self) == (LpplSearch { walk: final(self).walk, ..*old(self) }),
            final(self).walk == if old(self).starts_left > 0 {
                None
            } else {
                old(self).walk_now()
            },
    {
        if self.starts_left > 0 {
            return SearchTask::Draw(
                SearchBox {
                    tc_min: self.tc_min,
                    tc_max: self.tc_max,
                    m_min: self.cfg.m_min,
                    m_max: self.cfg.m_max,
                    omega_min: self.cfg.omega_min,
                    omega_max: self.cfg.omega_max,
                },
            );
        }
        let mut walk = match (self.walk, self.best) {
            (Some(walk), _) => walk,
            (None, Some(best)) => Polish::start(best, self.t_max, &self.cfg),
            (None, None) => {
                return SearchTask::GiveUp;
            },
        };
        proof {
            self.lemma_best_is_acceptable();
            lppl::law_polish_offers_inside(walk);
        }
        let point = walk.next_point();
        self.walk = Some(walk);
        match point {
            Some(p) => SearchTask::Solve(p),
            None => SearchTask::Predict(walk.best.params),
        }
    }

    /// Whether a drawn starting point has to be solved: its critical time lies ahead.
    pub fn wants(&self, p: &SearchPoint) -> (r: bool)
        ensures
            r == !p.tc.at_most(self.t_max),
    {
        !p.tc.le(self.t_max)
    }

    /// Takes a solved starting point.
    fn try_candidate(&mut self, c: Candidate)
        requires
            old(self).wf(),
            old(self).starts_left > 0,
            old(self).intervals().holds(c.params),
        ensures
            final(self).wf(),
            final(self).trials@ == old(self).trials@.push(c),
            final(self).best == if old(self).improved_by(c) {
                Some(c)
            } else {
                old(self).best
            },
            *final(self) == (LpplSearch {
                best: final(self).best,
                trials: final(self).trials,
                ..*old(self)
            }),
    {
        let bound = match self.best {
            Some(best) => best.sse,
            None => Real { bits: POSITIVE_INFINITY },
        };
        let ghost before = self.trials@;
        let ghost n = before.len() as int;
        let better = !c.params.tc.le(self.t_max) && c.sse.lt(bound)
            && c.params.passes_fit_filters(&self.cfg);
        proof {
            self.trials@ = before.push(c);
            let after = self.trials@;
            assert forall|j: int| 0 <= j < n implies #[trigger] after[j] == before[j] by {}
            if better {
                if self.best is Some {
                    let k = choose|k: int|
                        #[trigger] lppl::first_best(before, n, self.t_max, self.cfg, k)
                            && self.best->0 == before[k];
                    assert forall|j: int|
                        0 <= j < n + 1 && lppl::acceptable(
                            #[trigger] after[j],
                            self.t_max,
                            self.cfg,
                        ) implies c.sse.at_most(after[j].sse) by {
                        if j < n {
                            assert(before[k].sse.at_most(before[j].sse));
                        }
                    }
                    assert forall|j: int|
                        0 <= j < n && lppl::acceptable(
                            #[trigger] after[j],
                            self.t_max,
                            self.cfg,
                        ) implies c.sse.below(after[j].sse) by {
                        assert(before[k].sse.at_most(before[j].sse));
                    }
                } else {
                    assert forall|j: int| 0 <= j < n implies !lppl::acceptable(
                        #[trigger] after[j],
                        self.t_max,
                        self.cfg,
                    ) by {
                        assert(!lppl::acceptable(before[j], self.t_max, self.cfg));
                    }
                }
                assert(after[n] == c);
                assert(lppl::first_best(after, after.len() as int, self.t_max, self.cfg, n));
                assert(is_first_best(after, self.t_max, self.cfg, c));
            } else if self.best is Some {
                let k = choose|k: int|
                    #[trigger] lppl::first_best(before, n, self.t_max, self.cfg, k)
                        && self.best->0 == before[k];
                assert forall|j: int|
                    0 <= j < n + 1 && lppl::acceptable(
                        #[trigger] after[j],
                        self.t_max,
                        self.cfg,
                    ) implies after[k].sse.at_most(after[j].sse) by {
                    if j < n {
                        assert(before[k].sse.at_most(before[j].sse));
                    }
                }
                assert(after[k] == before[k]);
                assert(lppl::first_best(after, after.len() as int, self.t_max, self.cfg, k));
                assert(is_first_best(after, self.t_max, self.cfg, self.best->0));
            } else {
                assert forall|j: int| 0 <= j < n + 1 implies !lppl::acceptable(
                    #[trigger] after[j],
                    self.t_max,
                    self.cfg,
                ) by {
                    if j < n {
                        assert(!lppl::acceptable(before[j], self.t_max, self.cfg));
                    }
                }
            }
        }
        if better {
            self.best = Some(c);
        }
    }

    /// Whether the additional starting points fall due: the last configured one leaves the
    /// search without an admissible point.
    pub open spec fn falls_back(self, solved: Option<Candidate>) -> bool {
        &&& self.starts_left == 1
        &&& !self.fallback
        &&& self.best is None
        &&& !(solved matches Some(c) && self.improved_by(c))
    }

    /// Takes a drawn starting point: its solution, or nothing where it was not wanted.
    pub fn drawn(&mut self, solved: Option<Candidate>)
        requires
            old(self).wf(),
            old(self).starts_left > 0,
            solved matches Some(c) ==> old(self).intervals().holds(c.params),
        ensures
            final(self).wf(),
            final(self).starts_left == if old(self).falls_back(solved) {
                FALLBACK_STARTS as int
            } else {
                old(self).starts_left - 1
            },
            final(self).fallback == (old(self).fallback || old(self).falls_back(solved)),
            final(self).trials@ == match solved {
                Some(c) => old(self).trials@.push(c),
                None => old(self).trials@,
            },
            final(self).best == match solved {
                Some(c) if old(self).improved_by(c) => Some(c),
                _ => old(self).best,
            },
            *final(self) == (LpplSearch {
                best: final(self).best,
                trials: final(self).trials,
                starts_left: final(self).starts_left,
                fallback: final(self).fallback,
                ..*old(self)
            }),
    {
        if let Some(c) = solved {
            self.try_candidate(c);
        }
        self.starts_left = self.starts_left - 1;
        if self.starts_left == 0 && !self.fallback && self.best.is_none() {
            self.starts_left = FALLBACK_STARTS;
            self.fallback = true;
        }
    }

    /// From a point in the search intervals the walk leads to points in them.
    proof fn lemma_offered_inside(self)
        requires
            self.wf(),
            self.walk is Some,
        ensures
            forall|c: Candidate|
                solves(c, self.walk->0.offered()) ==> #[trigger] self.intervals().holds(c.params),
    {
        let walk = self.walk->0;
        let (dtc, dm, domega) = lppl::polish_move(walk.step as int);
        order::lemma_plus_direction(walk.best.params.tc, dtc);
        order::lemma_plus_direction(walk.best.params.m, dm);
        order::lemma_plus_direction(walk.best.params.omega, domega);
    }

    /// Takes the solution of a point of the walk.
    pub fn polished(&mut self, c: Candidate)
        requires
            old(self).wf(),
            old(self).walk is Some,
            !old(self).walk->0.done(),
            solves(c, old(self).walk->0.offered()),
        ensures
            final(self).wf(),
            final(self).walk == Some(old(self).walk->0.answered(c)),
            *final(self) == (LpplSearch { walk: final(self).walk, ..*old(self) }),
    {
        if let Some(mut walk) = self.walk {
            proof {
                lppl::law_polish_never_worsens(walk, c);
                self.lemma_offered_inside();
                assert(self.intervals().holds(c.params));
            }
            walk.answer(c);
            self.walk = Some(walk);
        }
    }

    /// Makes the fit of the winner. `predicted` holds its log-prices at the observation
    /// times; without a winner there is no fit.
    pub fn finish(self, predicted: &Vec<Real>) -> (r: Result<LpplFit, FitError>)
        requires
            self.wf(),
            self.over(),
            self.chosen() is Some ==> predicted@.len() == self.log_prices@.len(),
        ensures
            r is Ok <==> self.chosen() is Some,
            r matches Err(e) ==> e == FitError::NoValidFit,
            r matches Ok(fit) ==> {
                &&& fit.params == self.chosen()->0.params
                &&& fit.sse == self.chosen()->0.sse
                &&& fit.residuals@ == lppl::residuals_of(self.log_prices@, predicted@)
                &&& fit.times@ == self.times@
                &&& fit.n_points == self.log_prices@.len()
                &&& fit.params.admissible(self.cfg)
                &&& self.intervals().holds(fit.params)
                &&& forall|j: int|
                    0 <= j < self.trials@.len() && lppl::acceptable(
                        #[trigger] self.trials@[j],
                        self.t_max,
                        self.cfg,
                    ) ==> fit.sse.at_most(self.trials@[j].sse)
            },
    {
        let chosen = match self.walk {
            Some(walk) => Some(walk.best),
            None => self.best,
        };
        proof {
            self.lemma_best_is_acceptable();
        }
        assemble_fit(chosen, &self.log_prices, predicted, self.times)
    }
}

/// Law: a search fails exactly when none of the starting points that were solved is
/// acceptable, and then only after the additional ones.
pub proof fn law_search_fails_only_without_candidates(search: LpplSearch)
    requires
        search.wf(),
    ensures
        search.chosen() is None <==> none_acceptable(search.trials@, search.t_max, search.cfg),
        search.over() && search.chosen() is None ==> search.fallback,
{
    if search.best is Some {
        let k = choose|k: int|
            #[trigger] lppl::first_best(
                search.trials@,
                search.trials@.len() as int,
                search.t_max,
                search.cfg,
                k,
            ) && search.best->0 == search.trials@[k];
        assert(lppl::acceptable(search.trials@[k], search.t_max, search.cfg));
    }
}

/// The settings judge starting points alike: they differ at most in how many points are
/// drawn and how far the best one is polished.
pub open spec fn same_terms(a: LpplFitConfig, b: LpplFitConfig) -> bool {
    b == LpplFitConfig {
        num_random_starts: b.num_random_starts,
        num_polish_steps: b.num_polish_steps,
        ..a
    }
}

/// Law: more starting points never worsen the best error, and neither does polishing. Where
/// one search has solved the starting points of another, and perhaps more after them, and
/// the other does not polish, it finds a fit if the other does, with an error that is no
/// larger.
pub proof fn law_more_search_never_worsens(less: LpplSearch, more: LpplSearch)
    requires
        less.wf(),
        more.wf(),
        less.over(),
        more.over(),
        less.t_max == more.t_max,
        same_terms(less.cfg, more.cfg),
        less.cfg.num_polish_steps == 0,
        less.trials@.is_prefix_of(more.trials@),
    ensures
        less.chosen() matches Some(before) ==> (more.chosen() matches Some(after)
            && after.sse.at_most(before.sse)),
        less.trials@ == more.trials@ ==> less.best == more.best,
{
    assert forall|c: Candidate| lppl::acceptable(c, less.t_max, less.cfg) == lppl::acceptable(
        c,
        more.t_max,
        more.cfg,
    ) by {}
    if less.best is Some {
        let k = choose|k: int|
            #[trigger] lppl::first_best(
                less.trials@,
                less.trials@.len() as int,
                less.t_max,
                less.cfg,
                k,
            ) && less.best->0 == less.trials@[k];
        assert(less.trials@[k] == more.trials@[k]);
        assert(lppl::acceptable(more.trials@[k], more.t_max, more.cfg));
        law_search_fails_only_without_candidates(more);
        more.lemma_best_is_acceptable();
        if less.trials@ == more.trials@ {
            let j = choose|j: int|
                #[trigger] lppl::first_best(
                    more.trials@,
                    more.trials@.len() as int,
                    more.t_max,
                    more.cfg,
                    j,
                ) && more.best->0 == more.trials@[j];
            assert(j == k);
        }
    } else if less.trials@ == more.trials@ {
        law_search_fails_only_without_candidates(less);
        assert(none_acceptable(more.trials@, more.t_max, more.cfg));
        law_search_fails_only_without_candidates(more);
    }
}

} // verus!
