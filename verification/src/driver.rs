//! The lockstep simulation driver.
//!
//! The driver owns a fixed, heterogeneous list of configured predictors and
//! the two global accumulators (events processed, instructions retired).
//! Each decoded branch event is fanned out to every predictor in list
//! order; predictors never observe each other's state.

use vstd::prelude::*;
use crate::decoder::BranchEvent;
use crate::predictor::{Predictor, NoneTakenBp, LocalBp, GshareBp, BimodalBp};
use crate::yags::{
    Yags1Bp, Yags2Bp, Yags3Bp, Yags4Bp, YagsFold, yags_one_way_fresh, yags_two_way_fresh,
};

verus! {

/// The closed set of predictor algorithms a driver can host, selected at
/// configuration time.
pub enum AnyPredictor {
    NoneTaken(NoneTakenBp),
    Local(LocalBp),
    Gshare(GshareBp),
    Bimodal(BimodalBp),
    Yags1(Yags1Bp),
    Yags2(Yags2Bp),
    Yags3(Yags3Bp),
    Yags4(Yags4Bp),
}

impl Predictor for AnyPredictor {
    open spec fn inv(&self) -> bool {
        match self {
            AnyPredictor::NoneTaken(p) => p.inv(),
            AnyPredictor::Local(p) => p.inv(),
            AnyPredictor::Gshare(p) => p.inv(),
            AnyPredictor::Bimodal(p) => p.inv(),
            AnyPredictor::Yags1(p) => p.inv(),
            AnyPredictor::Yags2(p) => p.inv(),
            AnyPredictor::Yags3(p) => p.inv(),
            AnyPredictor::Yags4(p) => p.inv(),
        }
    }

    open spec fn spec_misses(&self) -> u64 {
        match self {
            AnyPredictor::NoneTaken(p) => p.spec_misses(),
            AnyPredictor::Local(p) => p.spec_misses(),
            AnyPredictor::Gshare(p) => p.spec_misses(),
            AnyPredictor::Bimodal(p) => p.spec_misses(),
            AnyPredictor::Yags1(p) => p.spec_misses(),
            AnyPredictor::Yags2(p) => p.spec_misses(),
            AnyPredictor::Yags3(p) => p.spec_misses(),
            AnyPredictor::Yags4(p) => p.spec_misses(),
        }
    }

    open spec fn spec_predict(&self, addr: u64) -> bool {
        match self {
            AnyPredictor::NoneTaken(p) => p.spec_predict(addr),
            AnyPredictor::Local(p) => p.spec_predict(addr),
            AnyPredictor::Gshare(p) => p.spec_predict(addr),
            AnyPredictor::Bimodal(p) => p.spec_predict(addr),
            AnyPredictor::Yags1(p) => p.spec_predict(addr),
            AnyPredictor::Yags2(p) => p.spec_predict(addr),
            AnyPredictor::Yags3(p) => p.spec_predict(addr),
            AnyPredictor::Yags4(p) => p.spec_predict(addr),
        }
    }

    open spec fn step_ok(pre: Self, addr: u64, was_taken: bool, post: Self) -> bool {
        match (pre, post) {
            (AnyPredictor::NoneTaken(a), AnyPredictor::NoneTaken(b)) =>
                NoneTakenBp::step_ok(a, addr, was_taken, b),
            (AnyPredictor::Local(a), AnyPredictor::Local(b)) =>
                LocalBp::step_ok(a, addr, was_taken, b),
            (AnyPredictor::Gshare(a), AnyPredictor::Gshare(b)) =>
                GshareBp::step_ok(a, addr, was_taken, b),
            (AnyPredictor::Bimodal(a), AnyPredictor::Bimodal(b)) =>
                BimodalBp::step_ok(a, addr, was_taken, b),
            (AnyPredictor::Yags1(a), AnyPredictor::Yags1(b)) =>
                Yags1Bp::step_ok(a, addr, was_taken, b),
            (AnyPredictor::Yags2(a), AnyPredictor::Yags2(b)) =>
                Yags2Bp::step_ok(a, addr, was_taken, b),
            (AnyPredictor::Yags3(a), AnyPredictor::Yags3(b)) =>
                Yags3Bp::step_ok(a, addr, was_taken, b),
            (AnyPredictor::Yags4(a), AnyPredictor::Yags4(b)) =>
                Yags4Bp::step_ok(a, addr, was_taken, b),
            _ => false,
        }
    }

    open spec fn report_ok(&self, r: (String, Vec<usize>, usize, u64)) -> bool {
        match self {
            AnyPredictor::NoneTaken(p) => p.report_ok(r),
            AnyPredictor::Local(p) => p.report_ok(r),
            AnyPredictor::Gshare(p) => p.report_ok(r),
            AnyPredictor::Bimodal(p) => p.report_ok(r),
            AnyPredictor::Yags1(p) => p.report_ok(r),
            AnyPredictor::Yags2(p) => p.report_ok(r),
            AnyPredictor::Yags3(p) => p.report_ok(r),
            AnyPredictor::Yags4(p) => p.report_ok(r),
        }
    }

    fn predict_and_update(&mut self, addr: u64, was_taken: bool) {
        match self {
            AnyPredictor::NoneTaken(p) => p.predict_and_update(addr, was_taken),
            AnyPredictor::Local(p) => p.predict_and_update(addr, was_taken),
            AnyPredictor::Gshare(p) => p.predict_and_update(addr, was_taken),
            AnyPredictor::Bimodal(p) => p.predict_and_update(addr, was_taken),
            AnyPredictor::Yags1(p) => p.predict_and_update(addr, was_taken),
            AnyPredictor::Yags2(p) => p.predict_and_update(addr, was_taken),
            AnyPredictor::Yags3(p) => p.predict_and_update(addr, was_taken),
            AnyPredictor::Yags4(p) => p.predict_and_update(addr, was_taken),
        }
    }

    fn report(&self) -> (r: (String, Vec<usize>, usize, u64)) {
        match self {
            AnyPredictor::NoneTaken(p) => p.report(),
            AnyPredictor::Local(p) => p.report(),
            AnyPredictor::Gshare(p) => p.report(),
            AnyPredictor::Bimodal(p) => p.report(),
            AnyPredictor::Yags1(p) => p.report(),
            AnyPredictor::Yags2(p) => p.report(),
            AnyPredictor::Yags3(p) => p.report(),
            AnyPredictor::Yags4(p) => p.report(),
        }
    }
}

/// The simulation driver: the predictor list, the number of events
/// processed, and the number of instructions retired.
pub struct Driver {
    predictors: Vec<AnyPredictor>,
    count: u64,
    instret: u64,
}

impl Driver {
    /// The hosted predictors.
    pub closed spec fn spec_predictors(&self) -> Seq<AnyPredictor> {
        self.predictors@
    }

    /// Branch events processed so far.
    pub closed spec fn spec_count(&self) -> u64 {
        self.count
    }

    /// Instructions retired so far.
    pub closed spec fn spec_instret(&self) -> u64 {
        self.instret
    }

    /// Every hosted predictor is well formed, and none can have missed
    /// more often than there were events.
    pub closed spec fn inv(&self) -> bool {
        forall|i: int| 0 <= i < self.predictors@.len()
            ==> (#[trigger] self.predictors@[i]).inv()
                && self.predictors@[i].spec_misses() <= self.count
    }

    /// Take ownership of a configured predictor list, with both global
    /// accumulators at zero.
    pub fn new(predictors: Vec<AnyPredictor>) -> (r: Driver)
        requires
            forall|i: int| 0 <= i < predictors@.len()
                ==> (#[trigger] predictors@[i]).inv() && predictors@[i].spec_misses() == 0,
        ensures
            r.inv(),
            r.spec_count() == 0,
            r.spec_instret() == 0,
            r.spec_predictors() == predictors@,
    {
        Driver { predictors, count: 0, instret: 0 }
    }

    /// Absorb one event: the retired-instruction counter grows by the
    /// event's delta plus one for the branch itself, every predictor
    /// absorbs the event in list order, and the event counter grows by
    /// one.
    pub fn process_event(&mut self, ev: BranchEvent)
        requires
            old(self).inv(),
            old(self).spec_count() < u64::MAX,
            old(self).spec_instret() + ev.delta + 1 <= u64::MAX,
        ensures
            final(self).inv(),
            final(self).spec_count() == old(self).spec_count() + 1,
            final(self).spec_instret() == old(self).spec_instret() + ev.delta + 1,
            final(self).spec_predictors().len() == old(self).spec_predictors().len(),
            forall|i: int| 0 <= i < old(self).spec_predictors().len()
                ==> AnyPredictor::step_ok(
                    old(self).spec_predictors()[i],
                    ev.addr,
                    ev.taken,
                    #[trigger] final(self).spec_predictors()[i],
                ),
            forall|i: int| 0 <= i < old(self).spec_predictors().len()
                ==> (#[trigger] final(self).spec_predictors()[i]).spec_misses()
                    == old(self).spec_predictors()[i].spec_misses()
                        + (if old(self).spec_predictors()[i].spec_predict(ev.addr) != ev.taken {
                            1u64
                        } else {
                            0u64
                        }),
    {
        self.instret = self.instret + (ev.delta as u64) + 1;

        let n = self.predictors.len();
        let mut i: usize = 0;
        while i < n
            invariant
                i <= n,
                n == self.predictors@.len(),
                n == old(self).predictors@.len(),
                self.count == old(self).count,
                self.count < u64::MAX,
                self.instret == old(self).instret + ev.delta + 1,
                old(self).inv(),
                forall|j: int| i <= j < n
                    ==> #[trigger] self.predictors@[j] == old(self).predictors@[j],
                forall|j: int| 0 <= j < i
                    ==> AnyPredictor::step_ok(
                        old(self).predictors@[j],
                        ev.addr,
                        ev.taken,
                        #[trigger] self.predictors@[j],
                    ),
                forall|j: int| 0 <= j < i
                    ==> (#[trigger] self.predictors@[j]).spec_misses()
                        == old(self).predictors@[j].spec_misses()
                            + (if old(self).predictors@[j].spec_predict(ev.addr) != ev.taken {
                                1u64
                            } else {
                                0u64
                            }),
                forall|j: int| 0 <= j < i
                    ==> (#[trigger] self.predictors@[j]).inv()
                        && self.predictors@[j].spec_misses() <= self.count + 1,
            decreases n - i,
        {
            let p = &mut self.predictors[i];
            p.predict_and_update(ev.addr, ev.taken);
            i = i + 1;
        }

        self.count = self.count + 1;
    }

    /// The number of events processed.
    pub fn event_count(&self) -> (r: u64)
        ensures
            r == self.spec_count(),
    {
        self.count
    }

    /// The number of instructions retired.
    pub fn instret_count(&self) -> (r: u64)
        ensures
            r == self.spec_instret(),
    {
        self.instret
    }

    /// One report tuple per hosted predictor, in list order.
    pub fn reports(&self) -> (rs: Vec<(String, Vec<usize>, usize, u64)>)
        requires
            self.inv(),
        ensures
            rs@.len() == self.spec_predictors().len(),
            forall|i: int| 0 <= i < rs@.len()
                ==> self.spec_predictors()[i].report_ok(#[trigger] rs@[i]),
    {
        let mut rs: Vec<(String, Vec<usize>, usize, u64)> = Vec::new();
        let n = self.predictors.len();
        let mut i: usize = 0;
        while i < n
            invariant
                i <= n,
                n == self.predictors@.len(),
                self.inv(),
                rs@.len() == i,
                forall|j: int| 0 <= j < i
                    ==> self.predictors@[j].report_ok(#[trigger] rs@[j]),
            decreases n - i,
        {
            let r = self.predictors[i].report();
            rs.push(r);
            i = i + 1;
        }
        rs
    }
}

/// The default mix of configured predictors: the four YAGS variants, each
/// at address width 13 with a 6-bit tag, with override tables from 13 down
/// to 9 index bits.
pub fn gen_predictors() -> (r: Vec<AnyPredictor>)
    ensures
        r@.len() == 20,
        forall|i: int| 0 <= i < r@.len()
            ==> (#[trigger] r@[i]).inv() && r@[i].spec_misses() == 0,
        forall|d: int| #![trigger r@[4 * d]] 0 <= d < 5 ==> {
            &&& (r@[4 * d] matches AnyPredictor::Yags1(p)
                && p@ == yags_one_way_fresh(YagsFold::Simple, 13, (13 - d) as usize, 6))
            &&& (r@[4 * d + 1] matches AnyPredictor::Yags2(p)
                && p@ == yags_one_way_fresh(YagsFold::Mixed, 13, (13 - d) as usize, 6))
            &&& (r@[4 * d + 2] matches AnyPredictor::Yags3(p)
                && p@ == yags_two_way_fresh(YagsFold::Simple, 13, (13 - d) as usize, 6))
            &&& (r@[4 * d + 3] matches AnyPredictor::Yags4(p)
                && p@ == yags_two_way_fresh(YagsFold::Mixed, 13, (13 - d) as usize, 6))
        },
{
    let s: usize = 13;
    let mut r: Vec<AnyPredictor> = Vec::new();
    let mut d: usize = 0;
    while d < 5
        invariant
            s == 13,
            d <= 5,
            r@.len() == 4 * d,
            forall|i: int| 0 <= i < r@.len()
                ==> (#[trigger] r@[i]).inv() && r@[i].spec_misses() == 0,
            forall|e: int| #![trigger r@[4 * e]] 0 <= e < d ==> {
                &&& (r@[4 * e] matches AnyPredictor::Yags1(p)
                    && p@ == yags_one_way_fresh(YagsFold::Simple, 13, (13 - e) as usize, 6))
                &&& (r@[4 * e + 1] matches AnyPredictor::Yags2(p)
                    && p@ == yags_one_way_fresh(YagsFold::Mixed, 13, (13 - e) as usize, 6))
                &&& (r@[4 * e + 2] matches AnyPredictor::Yags3(p)
                    && p@ == yags_two_way_fresh(YagsFold::Simple, 13, (13 - e) as usize, 6))
                &&& (r@[4 * e + 3] matches AnyPredictor::Yags4(p)
                    && p@ == yags_two_way_fresh(YagsFold::Mixed, 13, (13 - e) as usize, 6))
            },
        decreases 5 - d,
    {
        r.push(AnyPredictor::Yags1(Yags1Bp::new(s, s - d, 6)));
        r.push(AnyPredictor::Yags2(Yags2Bp::new(s, s - d, 6)));
        r.push(AnyPredictor::Yags3(Yags3Bp::new(s, s - d, 6)));
        r.push(AnyPredictor::Yags4(Yags4Bp::new(s, s - d, 6)));
        d = d + 1;
    }
    r
}


} // verus!
