use vstd::prelude::*;

verus! {

/// What the hit counter remembers between ticks.
pub struct HitState {
    pub hits: nat,
    pub last_recoiling: bool,
    pub last_hazard: bool,
    pub last_dead: bool,
    pub clock_running: bool,
}

/// Where a hit came from.
#[derive(Debug, Clone, Copy, PartialEq, Eq, Structural)]
pub enum HitCause {
    Recoiling,
    Hazard,
    Dead,
}

/// What the host reads from the game on one tick; `None` where a read failed.
#[derive(Debug, Clone, Copy, PartialEq, Eq, Structural)]
pub struct HitReadings {
    pub recoiling: Option<bool>,
    pub hazard: Option<bool>,
    pub dead: Option<bool>,
}

/// What the host does after one tick: pause game time, resume it and
/// restart its clock, and report each new hit with the count after it.
#[derive(Debug, PartialEq)]
pub struct HitActions {
    pub pause: bool,
    pub resume: bool,
    pub hits: Vec<(HitCause, u64)>,
}

/// One reading of a flag: a rising edge is a new hit, which starts the
/// clock where it is not running; the state after, and whether the clock
/// was started.
pub open spec fn observe(s: HitState, last: bool, reading: Option<bool>) -> (HitState, bool, bool) {
    match reading {
        None => (s, last, false),
        Some(r) => if !last && r {
            (HitState { hits: s.hits + 1, clock_running: true, ..s }, r, !s.clock_running)
        } else {
            (s, r, false)
        },
    }
}

/// The state after the clock check: once at least as many seconds have
/// passed on the running clock as hits were counted, game time pauses and
/// the count starts over.
pub open spec fn after_clock(s: HitState, elapsed_secs: nat) -> HitState {
    if s.clock_running && 0 < s.hits && s.hits <= elapsed_secs {
        HitState { hits: 0, clock_running: false, ..s }
    } else {
        s
    }
}

/// The state after one tick of a running timer.
pub open spec fn hit_step(s: HitState, elapsed_secs: nat, r: HitReadings) -> HitState {
    let s0 = after_clock(s, elapsed_secs);
    let (s1, l1, _) = observe(s0, s0.last_recoiling, r.recoiling);
    let s1 = HitState { last_recoiling: l1, ..s1 };
    let (s2, l2, _) = observe(s1, s1.last_hazard, r.hazard);
    let s2 = HitState { last_hazard: l2, ..s2 };
    let (s3, l3, _) = observe(s2, s2.last_dead, r.dead);
    HitState { last_dead: l3, ..s3 }
}

/// Whether one tick of a running timer resumes game time.
pub open spec fn hit_step_resumes(s: HitState, elapsed_secs: nat, r: HitReadings) -> bool {
    let s0 = after_clock(s, elapsed_secs);
    let (s1, l1, a) = observe(s0, s0.last_recoiling, r.recoiling);
    let s1 = HitState { last_recoiling: l1, ..s1 };
    let (s2, l2, b) = observe(s1, s1.last_hazard, r.hazard);
    let s2 = HitState { last_hazard: l2, ..s2 };
    let (_, _, c) = observe(s2, s2.last_dead, r.dead);
    a || b || c
}

/// The hits one tick of a running timer reports, each with the count after it.
pub open spec fn hit_step_events(s: HitState, elapsed_secs: nat, r: HitReadings) -> Seq<(HitCause, u64)> {
    let s0 = after_clock(s, elapsed_secs);
    let (s1, l1, _) = observe(s0, s0.last_recoiling, r.recoiling);
    let s1 = HitState { last_recoiling: l1, ..s1 };
    let (s2, l2, _) = observe(s1, s1.last_hazard, r.hazard);
    let s2 = HitState { last_hazard: l2, ..s2 };
    let (s3, _, _) = observe(s2, s2.last_dead, r.dead);
    let e1 = if s1.hits != s0.hits { seq![(HitCause::Recoiling, s1.hits as u64)] } else { Seq::empty() };
    let e2 = if s2.hits != s1.hits { seq![(HitCause::Hazard, s2.hits as u64)] } else { Seq::empty() };
    let e3 = if s3.hits != s2.hits { seq![(HitCause::Dead, s3.hits as u64)] } else { Seq::empty() };
    e1 + e2 + e3
}

/// Counts hits taken during a run: while hits are pending, game time runs,
/// and it pauses once as many seconds have passed as hits were taken.
pub struct HitCounter {
    hits: u64,
    last_recoiling: bool,
    last_hazard: bool,
    last_dead: bool,
    clock_running: bool,
}

impl View for HitCounter {
    type V = HitState;

    closed spec fn view(&self) -> HitState {
        HitState {
            hits: self.hits as nat,
            last_recoiling: self.last_recoiling,
            last_hazard: self.last_hazard,
            last_dead: self.last_dead,
            clock_running: self.clock_running,
        }
    }
}

impl HitCounter {
    /// A counter with no hits, no flag raised and the clock stopped.
    pub fn new() -> (r: HitCounter)
        ensures
            r@ == (HitState { hits: 0, last_recoiling: false, last_hazard: false, last_dead: false, clock_running: false }),
    {
        HitCounter { hits: 0, last_recoiling: false, last_hazard: false, last_dead: false, clock_running: false }
    }

    /// The hits counted since game time last paused.
    pub fn hits(&self) -> (r: u64)
        ensures
            r == self@.hits,
    {
        self.hits
    }

    fn observe(&mut self, cause: HitCause, reading: Option<bool>, actions: &mut HitActions)
        requires
            old(self).hits < u64::MAX,
        ensures
            ({
                let last = match cause {
                    HitCause::Recoiling => old(self)@.last_recoiling,
                    HitCause::Hazard => old(self)@.last_hazard,
                    HitCause::Dead => old(self)@.last_dead,
                };
                let (s, l, started) = observe(old(self)@, last, reading);
                &&& final(self)@ == match cause {
                    HitCause::Recoiling => HitState { last_recoiling: l, ..s },
                    HitCause::Hazard => HitState { last_hazard: l, ..s },
                    HitCause::Dead => HitState { last_dead: l, ..s },
                }
                &&& final(actions).pause == old(actions).pause
                &&& final(actions).resume == (old(actions).resume || started)
                &&& final(actions).hits@ == if final(self)@.hits != old(self)@.hits {
                    old(actions).hits@.push((cause, final(self).hits))
                } else {
                    old(actions).hits@
                }
            }),
    {
        let last = match cause {
            HitCause::Recoiling => self.last_recoiling,
            HitCause::Hazard => self.last_hazard,
            HitCause::Dead => self.last_dead,
        };
        if let Some(r) = reading {
            if !last && r {
                self.hits = self.hits + 1;
                if !self.clock_running {
                    self.clock_running = true;
                    actions.resume = true;
                }
                actions.hits.push((cause, self.hits));
            }
            match cause {
                HitCause::Recoiling => self.last_recoiling = r,
                HitCause::Hazard => self.last_hazard = r,
                HitCause::Dead => self.last_dead = r,
            }
        }
    }

    /// One tick. Nothing happens while the timer is not running. Else the
    /// clock is checked first, `elapsed_secs` being how long it has run;
    /// then each flag in turn counts a hit on its rising edge.
    pub fn load_removal(&mut self, timer_running: bool, elapsed_secs: u64, readings: HitReadings) -> (r: HitActions)
        requires
            old(self)@.hits <= u64::MAX - 3,
        ensures
            !timer_running ==> final(self)@ == old(self)@,
            !timer_running ==> !r.pause && !r.resume && r.hits@.len() == 0,
            timer_running ==> final(self)@ == hit_step(old(self)@, elapsed_secs as nat, readings),
            timer_running ==> r.pause == (old(self)@.clock_running && 0 < old(self)@.hits && old(self)@.hits <= elapsed_secs),
            timer_running ==> r.resume == hit_step_resumes(old(self)@, elapsed_secs as nat, readings),
            timer_running ==> r.hits@ == hit_step_events(old(self)@, elapsed_secs as nat, readings),
    {
        let mut actions = HitActions { pause: false, resume: false, hits: Vec::new() };
        if !timer_running {
            return actions;
        }
        if self.clock_running && 0 < self.hits && self.hits <= elapsed_secs {
            actions.pause = true;
            self.hits = 0;
            self.clock_running = false;
        }
        self.observe(HitCause::Recoiling, readings.recoiling, &mut actions);
        self.observe(HitCause::Hazard, readings.hazard, &mut actions);
        self.observe(HitCause::Dead, readings.dead, &mut actions);
        assert(actions.hits@ =~= hit_step_events(old(self)@, elapsed_secs as nat, readings));
        actions
    }
}

} // verus!
