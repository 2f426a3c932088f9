//! Branch predictors and their mathematical models.
//!
//! Each predictor owns its prediction tables and a miss counter, and absorbs
//! one decoded branch event at a time through `predict_and_update`. The
//! exact behaviour of every predictor is captured by a pure step function
//! over a `Seq`-based model of its state; `predict_and_update` is proved to
//! implement that step function, and the saturation laws are proved of the
//! step functions themselves.

use vstd::prelude::*;
use vstd::string::StringExecFns;
use crate::weighted_bool::{Boolish, TwoBitCounter};

verus! {

/// The mask selecting the low `bits` bits.
pub open spec fn mask_of(bits: usize) -> u64 {
    ((1u64 << (bits as u64)) - 1) as u64
}

/// The number of entries of a table indexed by `bits` masked bits.
pub open spec fn table_len(bits: usize) -> nat {
    (1u64 << (bits as u64)) as nat
}

/// A global-history register after absorbing one outcome: shifted left by
/// one with the outcome in the vacated bit.
pub open spec fn shift_history(h: u64, was_taken: bool) -> u64 {
    (h << 1) | (if was_taken { 1u64 } else { 0u64 })
}

/// A value masked to `bits` bits indexes within a table of `2^bits` entries.
pub proof fn lemma_masked_in_range(x: u64, bits: usize)
    by (bit_vector)
    requires
        bits <= 24,
    ensures
        (x & mask_of(bits)) < (1u64 << (bits as u64)),
        1u64 <= (1u64 << (bits as u64)),
        (1u64 << (bits as u64)) <= 0x100_0000,
{
}

/// Masking with `bits` bits ignores a history register whose low `bits`
/// bits are clear, and shifting such a register left keeps them clear.
pub proof fn lemma_masked_history_zero(a: u64, h: u64, bits: usize)
    by (bit_vector)
    requires
        h & mask_of(bits) == 0,
    ensures
        (a ^ h) & mask_of(bits) == a & mask_of(bits),
        ((h << 1) | 0u64) & mask_of(bits) == 0,
        (h << 1) & mask_of(bits) == 0,
{
}

/// A zero history register has no masked bits set.
pub proof fn lemma_zero_masked(bits: usize)
    by (bit_vector)
    ensures
        0u64 & mask_of(bits) == 0,
{
}

/// A table of `n` counters, all seeded with `b`.
pub(crate) fn seeded_table(n: usize, b: bool) -> (v: Vec<TwoBitCounter>)
    ensures
        v@.len() == n,
        forall|i: int| 0 <= i < n ==> v@[i] == TwoBitCounter::spec_new(b),
{
    let mut v: Vec<TwoBitCounter> = Vec::new();
    let mut k: usize = 0;
    while k < n
        invariant
            k <= n,
            v@.len() == k,
            forall|i: int| 0 <= i < k ==> v@[i] == TwoBitCounter::spec_new(b),
        decreases n - k,
    {
        v.push(TwoBitCounter::seeded(b));
        k = k + 1;
    }
    v
}

/// Every counter of a table is well formed and predicts `b`.
pub open spec fn all_counters(t: Seq<TwoBitCounter>, b: bool) -> bool {
    forall|i: int| 0 <= i < t.len() ==> (#[trigger] t[i]).inv() && t[i].spec_value() == b
}

/// Every counter of a table is well formed.
pub open spec fn wf_counters(t: Seq<TwoBitCounter>) -> bool {
    forall|i: int| 0 <= i < t.len() ==> (#[trigger] t[i]).inv()
}

/// One configured branch-prediction algorithm: it absorbs one event at a
/// time and reports its name, configuration, table footprint in bits, and
/// cumulative miss count.
pub trait Predictor: Sized {
    /// Internal well-formedness.
    spec fn inv(&self) -> bool;

    /// Misses recorded so far.
    spec fn spec_misses(&self) -> u64;

    /// The access-time prediction an event at `addr` would see next.
    spec fn spec_predict(&self, addr: u64) -> bool;

    /// The exact relation between the state before and after one event.
    spec fn step_ok(pre: Self, addr: u64, was_taken: bool, post: Self) -> bool;

    /// What a report of this predictor holds.
    spec fn report_ok(&self, r: (String, Vec<usize>, usize, u64)) -> bool;

    /// Absorb one event: predict for `addr`, count a miss iff the
    /// prediction disagrees with `was_taken`, then update the tables.
    fn predict_and_update(&mut self, addr: u64, was_taken: bool)
        requires
            old(self).inv(),
            old(self).spec_misses() < u64::MAX,
        ensures
            final(self).inv(),
            Self::step_ok(*old(self), addr, was_taken, *final(self)),
            final(self).spec_misses() == old(self).spec_misses()
                + (if old(self).spec_predict(addr) != was_taken { 1u64 } else { 0u64 }),
    ;

    /// Report (name, configuration, table size in bits, miss count).
    fn report(&self) -> (r: (String, Vec<usize>, usize, u64))
        requires
            self.inv(),
        ensures
            self.report_ok(r),
            r.3 == self.spec_misses(),
    ;
}

// ---------------------------------------------------------------------------
// NoneTaken: the tableless baseline.
// ---------------------------------------------------------------------------

/// Misses of a none-taken baseline after one more outcome.
pub open spec fn none_taken_step(misses: nat, was_taken: bool) -> nat {
    misses + (if was_taken { 1nat } else { 0nat })
}

/// Misses of a none-taken baseline after a whole sequence of outcomes.
pub open spec fn none_taken_run(misses: nat, events: Seq<bool>) -> nat
    decreases events.len(),
{
    if events.len() == 0 {
        misses
    } else {
        none_taken_step(none_taken_run(misses, events.drop_last()), events.last())
    }
}

/// The number of taken outcomes in a sequence.
pub open spec fn count_taken(events: Seq<bool>) -> nat
    decreases events.len(),
{
    if events.len() == 0 {
        0
    } else {
        count_taken(events.drop_last()) + (if events.last() { 1nat } else { 0nat })
    }
}

/// The baseline's cumulative miss count after any sequence of events equals
/// the number of taken events among them, exactly.
pub proof fn lemma_none_taken_counts(events: Seq<bool>)
    ensures
        none_taken_run(0, events) == count_taken(events),
    decreases events.len(),
{
    if events.len() > 0 {
        lemma_none_taken_counts(events.drop_last());
    }
}

/// The baseline predictor: always predicts "not taken", so it misses
/// exactly on the taken events. No tables, zero footprint.
pub struct NoneTakenBp {
    misses: u64,
}

impl NoneTakenBp {
    pub fn new() -> (r: NoneTakenBp)
        ensures
            r.inv(),
            r.spec_misses() == 0,
            r@ == 0nat,
    {
        NoneTakenBp { misses: 0 }
    }
}

impl View for NoneTakenBp {
    type V = nat;

    closed spec fn view(&self) -> nat {
        self.misses as nat
    }
}

impl Predictor for NoneTakenBp {
    open spec fn inv(&self) -> bool {
        true
    }

    closed spec fn spec_misses(&self) -> u64 {
        self.misses
    }

    open spec fn spec_predict(&self, addr: u64) -> bool {
        false
    }

    open spec fn step_ok(pre: Self, addr: u64, was_taken: bool, post: Self) -> bool {
        post@ == none_taken_step(pre@, was_taken)
    }

    open spec fn report_ok(&self, r: (String, Vec<usize>, usize, u64)) -> bool {
        r.0@ == "NoneTaken"@ && r.1@ == Seq::<usize>::empty() && r.2 == 0 && r.3 == self.spec_misses()
    }

    fn predict_and_update(&mut self, addr: u64, was_taken: bool) {
        if was_taken {
            self.misses = self.misses + 1;
        }
    }

    fn report(&self) -> (r: (String, Vec<usize>, usize, u64)) {
        (String::from_str("NoneTaken"), Vec::new(), 0, self.misses)
    }
}

// ---------------------------------------------------------------------------
// Local: one table of counters indexed by address bits.
// ---------------------------------------------------------------------------

/// The mathematical state of a local (two-level) predictor.
#[verifier::ext_equal]
pub struct LocalModel {
    pub addr_bits: usize,
    pub pht: Seq<TwoBitCounter>,
    pub misses: nat,
}

/// Well-formedness of a local model.
pub open spec fn local_wf(m: LocalModel) -> bool {
    &&& m.addr_bits <= 24
    &&& m.pht.len() == table_len(m.addr_bits)
    &&& wf_counters(m.pht)
}

/// The freshly constructed local model: every counter seeded weakly taken.
pub open spec fn local_fresh(addr_bits: usize) -> LocalModel {
    LocalModel {
        addr_bits,
        pht: Seq::new(table_len(addr_bits), |i: int| TwoBitCounter::spec_new(true)),
        misses: 0,
    }
}

/// The table index consulted for `addr`: the address without its
/// structurally-zero low bit, masked to the table.
pub open spec fn local_index(m: LocalModel, addr: u64) -> int {
    ((addr >> 1) & mask_of(m.addr_bits)) as int
}

/// One event absorbed by a local model: the indexed counter predicts, a
/// miss is recorded iff it disagrees with the outcome, and the counter is
/// nudged toward the outcome.
pub open spec fn local_step(m: LocalModel, addr: u64, was_taken: bool) -> LocalModel {
    let i = local_index(m, addr);
    let c = m.pht[i];
    LocalModel {
        addr_bits: m.addr_bits,
        pht: m.pht.update(i, c.spec_stepped(was_taken)),
        misses: m.misses + (if c.spec_value() != was_taken { 1nat } else { 0nat }),
    }
}

/// A local model after `n` identical events.
pub open spec fn local_run(m: LocalModel, addr: u64, was_taken: bool, n: nat) -> LocalModel
    decreases n,
{
    if n == 0 {
        m
    } else {
        local_step(local_run(m, addr, was_taken, (n - 1) as nat), addr, was_taken)
    }
}

/// The two-level (local) predictor: one table of two-bit counters indexed
/// by masked address bits.
pub struct LocalBp {
    addr_bits: usize,
    pht: Vec<TwoBitCounter>,
    addr_mask: u64,
    misses: u64,
}

impl View for LocalBp {
    type V = LocalModel;

    closed spec fn view(&self) -> LocalModel {
        LocalModel { addr_bits: self.addr_bits, pht: self.pht@, misses: self.misses as nat }
    }
}

impl LocalBp {
    pub fn new(addr_bits: usize) -> (r: LocalBp)
        requires
            addr_bits <= 24,
        ensures
            r.inv(),
            r.spec_misses() == 0,
            r@ == local_fresh(addr_bits),
    {
        proof {
            lemma_masked_in_range(0, addr_bits);
        }
        let size64: u64 = 1u64 << (addr_bits as u64);
        let size: usize = size64 as usize;
        let pht = seeded_table(size, true);
        let r = LocalBp { addr_bits, pht, addr_mask: size64 - 1, misses: 0 };
        proof {
            assert(r@.pht =~= local_fresh(addr_bits).pht);
            assert(r@ =~= local_fresh(addr_bits));
        }
        r
    }
}

impl Predictor for LocalBp {
    closed spec fn inv(&self) -> bool {
        local_wf(self@) && self.addr_mask == mask_of(self.addr_bits)
    }

    closed spec fn spec_misses(&self) -> u64 {
        self.misses
    }

    open spec fn spec_predict(&self, addr: u64) -> bool {
        self@.pht[local_index(self@, addr)].spec_value()
    }

    open spec fn step_ok(pre: Self, addr: u64, was_taken: bool, post: Self) -> bool {
        post@ == local_step(pre@, addr, was_taken)
    }

    open spec fn report_ok(&self, r: (String, Vec<usize>, usize, u64)) -> bool {
        &&& r.0@ == "Two-level"@
        &&& r.1@ == seq![self@.addr_bits]
        &&& r.2 == table_len(self@.addr_bits) * 2
        &&& r.3 == self.spec_misses()
    }

    fn predict_and_update(&mut self, addr: u64, was_taken: bool) {
        proof {
            lemma_masked_in_range(addr >> 1, self.addr_bits);
        }
        let i: usize = ((addr >> 1) & self.addr_mask) as usize;
        let predicted: bool = self.pht[i].value();
        let c = self.pht[i].stepped(was_taken);
        self.pht[i] = c;
        if predicted != was_taken {
            self.misses = self.misses + 1;
        }
        proof {
            assert(self@.pht =~= local_step(old(self)@, addr, was_taken).pht);
            assert(self@ =~= local_step(old(self)@, addr, was_taken));
        }
    }

    fn report(&self) -> (r: (String, Vec<usize>, usize, u64)) {
        proof {
            lemma_masked_in_range(0, self.addr_bits);
        }
        let len = self.pht.len();
        let mut config: Vec<usize> = Vec::new();
        config.push(self.addr_bits);
        let r = (String::from_str("Two-level"), config, len * 2, self.misses);
        proof {
            assert(r.1@ =~= seq![self@.addr_bits]);
        }
        r
    }
}

/// After at most two identical events from a fresh state, the indexed
/// counter of a local model predicts the observed outcome, and keeps doing
/// so.
proof fn lemma_local_settled(addr_bits: usize, addr: u64, was_taken: bool, n: nat)
    requires
        addr_bits <= 24,
        n >= 1,
    ensures
        local_wf(local_run(local_fresh(addr_bits), addr, was_taken, n)),
        local_run(local_fresh(addr_bits), addr, was_taken, n).addr_bits == addr_bits,
        local_run(local_fresh(addr_bits), addr, was_taken, n).pht[
            local_index(local_fresh(addr_bits), addr)
        ].spec_value() == was_taken,
        local_run(local_fresh(addr_bits), addr, was_taken, n).misses
            == local_run(local_fresh(addr_bits), addr, was_taken, 1).misses,
    decreases n,
{
    lemma_masked_in_range(addr >> 1, addr_bits);
    if n == 1 {
        assert(local_wf(local_fresh(addr_bits)));
    } else {
        lemma_local_settled(addr_bits, addr, was_taken, (n - 1) as nat);
    }
}

/// Saturation: feeding the same (address, outcome) pair repeatedly to a
/// fresh local predictor, the miss count stops increasing after at most two
/// events.
pub proof fn lemma_local_repeat_saturates(addr_bits: usize, addr: u64, was_taken: bool, n: nat)
    requires
        addr_bits <= 24,
        n >= 2,
    ensures
        local_run(local_fresh(addr_bits), addr, was_taken, n).misses
            == local_run(local_fresh(addr_bits), addr, was_taken, 2).misses,
    decreases n,
{
    if n == 2 {
    } else {
        lemma_local_repeat_saturates(addr_bits, addr, was_taken, (n - 1) as nat);
        lemma_local_settled(addr_bits, addr, was_taken, (n - 1) as nat);
    }
}

// ---------------------------------------------------------------------------
// Gshare: like Local, but the index mixes in the global history.
// ---------------------------------------------------------------------------

/// The mathematical state of a gshare predictor.
#[verifier::ext_equal]
pub struct GshareModel {
    pub addr_bits: usize,
    pub history: u64,
    pub pht: Seq<TwoBitCounter>,
    pub misses: nat,
}

/// Well-formedness of a gshare model.
pub open spec fn gshare_wf(m: GshareModel) -> bool {
    &&& m.addr_bits <= 24
    &&& m.pht.len() == table_len(m.addr_bits)
    &&& wf_counters(m.pht)
}

/// The freshly constructed gshare model: empty history, every counter
/// seeded weakly taken.
pub open spec fn gshare_fresh(addr_bits: usize) -> GshareModel {
    GshareModel {
        addr_bits,
        history: 0,
        pht: Seq::new(table_len(addr_bits), |i: int| TwoBitCounter::spec_new(true)),
        misses: 0,
    }
}

/// The table index consulted for `addr`: address bits XORed with the
/// global history, masked to the table.
pub open spec fn gshare_index(m: GshareModel, addr: u64) -> int {
    (((addr >> 1) ^ m.history) & mask_of(m.addr_bits)) as int
}

/// One event absorbed by a gshare model: as for the local model, and the
/// history shifts the outcome in afterwards.
pub open spec fn gshare_step(m: GshareModel, addr: u64, was_taken: bool) -> GshareModel {
    let i = gshare_index(m, addr);
    let c = m.pht[i];
    GshareModel {
        addr_bits: m.addr_bits,
        history: shift_history(m.history, was_taken),
        pht: m.pht.update(i, c.spec_stepped(was_taken)),
        misses: m.misses + (if c.spec_value() != was_taken { 1nat } else { 0nat }),
    }
}

/// A gshare model after `n` identical events.
pub open spec fn gshare_run(m: GshareModel, addr: u64, was_taken: bool, n: nat) -> GshareModel
    decreases n,
{
    if n == 0 {
        m
    } else {
        gshare_step(gshare_run(m, addr, was_taken, (n - 1) as nat), addr, was_taken)
    }
}

/// The gshare predictor: one table of two-bit counters indexed by address
/// bits XORed with a global history register.
pub struct GshareBp {
    addr_bits: usize,
    history: u64,
    pht: Vec<TwoBitCounter>,
    addr_mask: u64,
    misses: u64,
}

impl View for GshareBp {
    type V = GshareModel;

    closed spec fn view(&self) -> GshareModel {
        GshareModel {
            addr_bits: self.addr_bits,
            history: self.history,
            pht: self.pht@,
            misses: self.misses as nat,
        }
    }
}

impl GshareBp {
    pub fn new(addr_bits: usize) -> (r: GshareBp)
        requires
            addr_bits <= 24,
        ensures
            r.inv(),
            r.spec_misses() == 0,
            r@ == gshare_fresh(addr_bits),
    {
        proof {
            lemma_masked_in_range(0, addr_bits);
        }
        let size64: u64 = 1u64 << (addr_bits as u64);
        let size: usize = size64 as usize;
        let pht = seeded_table(size, true);
        let r = GshareBp { addr_bits, history: 0, pht, addr_mask: size64 - 1, misses: 0 };
        proof {
            assert(r@.pht =~= gshare_fresh(addr_bits).pht);
            assert(r@ =~= gshare_fresh(addr_bits));
        }
        r
    }
}

impl Predictor for GshareBp {
    closed spec fn inv(&self) -> bool {
        gshare_wf(self@) && self.addr_mask == mask_of(self.addr_bits)
    }

    closed spec fn spec_misses(&self) -> u64 {
        self.misses
    }

    open spec fn spec_predict(&self, addr: u64) -> bool {
        self@.pht[gshare_index(self@, addr)].spec_value()
    }

    open spec fn step_ok(pre: Self, addr: u64, was_taken: bool, post: Self) -> bool {
        post@ == gshare_step(pre@, addr, was_taken)
    }

    open spec fn report_ok(&self, r: (String, Vec<usize>, usize, u64)) -> bool {
        &&& r.0@ == "Gshare"@
        &&& r.1@ == seq![self@.addr_bits]
        &&& r.2 == table_len(self@.addr_bits) * 2
        &&& r.3 == self.spec_misses()
    }

    fn predict_and_update(&mut self, addr: u64, was_taken: bool) {
        proof {
            lemma_masked_in_range((addr >> 1) ^ self.history, self.addr_bits);
        }
        let i: usize = (((addr >> 1) ^ self.history) & self.addr_mask) as usize;
        let predicted: bool = self.pht[i].value();
        let c = self.pht[i].stepped(was_taken);
        self.pht[i] = c;
        if predicted != was_taken {
            self.misses = self.misses + 1;
        }
        self.history = (self.history << 1) | (if was_taken { 1u64 } else { 0u64 });
        proof {
            assert(self@.pht =~= gshare_step(old(self)@, addr, was_taken).pht);
            assert(self@ =~= gshare_step(old(self)@, addr, was_taken));
        }
    }

    fn report(&self) -> (r: (String, Vec<usize>, usize, u64)) {
        proof {
            lemma_masked_in_range(0, self.addr_bits);
        }
        let len = self.pht.len();
        let mut config: Vec<usize> = Vec::new();
        config.push(self.addr_bits);
        let r = (String::from_str("Gshare"), config, len * 2, self.misses);
        proof {
            assert(r.1@ =~= seq![self@.addr_bits]);
        }
        r
    }
}

/// On a run of taken events from a fresh state, every gshare counter keeps
/// predicting taken and no miss is ever recorded, whatever index the
/// history walks to.
proof fn lemma_gshare_all_taken(addr_bits: usize, addr: u64, n: nat)
    requires
        addr_bits <= 24,
    ensures
        gshare_wf(gshare_run(gshare_fresh(addr_bits), addr, true, n)),
        gshare_run(gshare_fresh(addr_bits), addr, true, n).addr_bits == addr_bits,
        all_counters(gshare_run(gshare_fresh(addr_bits), addr, true, n).pht, true),
        gshare_run(gshare_fresh(addr_bits), addr, true, n).misses == 0,
    decreases n,
{
    if n == 0 {
    } else {
        lemma_gshare_all_taken(addr_bits, addr, (n - 1) as nat);
        let m = gshare_run(gshare_fresh(addr_bits), addr, true, (n - 1) as nat);
        lemma_masked_in_range((addr >> 1) ^ m.history, addr_bits);
        let i = gshare_index(m, addr);
        assert(all_counters(gshare_step(m, addr, true).pht, true)) by {
            assert(forall|j: int| 0 <= j < m.pht.len() && j != i
                ==> gshare_step(m, addr, true).pht[j] == m.pht[j]);
        }
    }
}

/// On a run of not-taken events from a fresh state, the gshare history
/// keeps its masked bits clear, the one consulted counter predicts
/// not-taken from the first update on, and no miss is recorded after the
/// first event.
proof fn lemma_gshare_settled_nt(addr_bits: usize, addr: u64, n: nat)
    requires
        addr_bits <= 24,
        n >= 1,
    ensures
        gshare_wf(gshare_run(gshare_fresh(addr_bits), addr, false, n)),
        gshare_run(gshare_fresh(addr_bits), addr, false, n).addr_bits == addr_bits,
        gshare_run(gshare_fresh(addr_bits), addr, false, n).history & mask_of(addr_bits) == 0,
        !gshare_run(gshare_fresh(addr_bits), addr, false, n).pht[
            ((addr >> 1) & mask_of(addr_bits)) as int
        ].spec_value(),
        gshare_run(gshare_fresh(addr_bits), addr, false, n).misses
            == gshare_run(gshare_fresh(addr_bits), addr, false, 1).misses,
    decreases n,
{
    lemma_masked_in_range(addr >> 1, addr_bits);
    let m0 = gshare_fresh(addr_bits);
    if n == 1 {
        lemma_zero_masked(addr_bits);
        lemma_masked_history_zero(addr >> 1, 0, addr_bits);
        assert(gshare_run(m0, addr, false, 0) == m0);
        assert(gshare_run(m0, addr, false, 1) == gshare_step(m0, addr, false));
    } else {
        lemma_gshare_settled_nt(addr_bits, addr, (n - 1) as nat);
        let m = gshare_run(m0, addr, false, (n - 1) as nat);
        lemma_masked_history_zero(addr >> 1, m.history, addr_bits);
        assert(gshare_run(m0, addr, false, n) == gshare_step(m, addr, false));
    }
}

/// Saturation: feeding the same (address, outcome) pair repeatedly to a
/// fresh gshare predictor, the miss count stops increasing after at most
/// two events.
pub proof fn lemma_gshare_repeat_saturates(addr_bits: usize, addr: u64, was_taken: bool, n: nat)
    requires
        addr_bits <= 24,
        n >= 2,
    ensures
        gshare_run(gshare_fresh(addr_bits), addr, was_taken, n).misses
            == gshare_run(gshare_fresh(addr_bits), addr, was_taken, 2).misses,
{
    if was_taken {
        lemma_gshare_all_taken(addr_bits, addr, n);
        lemma_gshare_all_taken(addr_bits, addr, 2);
    } else {
        lemma_gshare_settled_nt(addr_bits, addr, n);
        lemma_gshare_settled_nt(addr_bits, addr, 2);
    }
}

/// A gshare model after `n` rounds of a two-branch pattern: one event at
/// `a`, always taken, then one at `b`, never taken.
pub open spec fn gshare_alt_run(m: GshareModel, a: u64, b: u64, n: nat) -> GshareModel
    decreases n,
{
    if n == 0 {
        m
    } else {
        gshare_step(gshare_step(gshare_alt_run(m, a, b, (n - 1) as nat), a, true), b, false)
    }
}

/// The parities that drive a one-bit gshare through the two-branch pattern
/// at addresses 0x246 and 0x44A-like pairs: after a taken event the
/// history is odd, after a not-taken event it is even, and the two
/// addresses then index opposite table entries.
proof fn lemma_alt_parity(h: u64)
    by (bit_vector)
    ensures
        mask_of(1) == 1u64,
        (1u64 << 1) == 2,
        0u64 & 1 == 0,
        h & 1 == 0 ==> ((0x246u64 >> 1) ^ h) & mask_of(1) == 1,
        h & 1 == 1 ==> ((0x46Au64 >> 1) ^ h) & mask_of(1) == 0,
        shift_history(h, true) & 1 == 1,
        shift_history(h, false) & 1 == 0,
{
}

/// After every round of the pattern, the one-bit gshare is settled: the
/// history is even, entry 1 (used by the taken branch) predicts taken,
/// entry 0 (used by the not-taken branch) predicts not-taken, and only the
/// one cold-start miss of the first round has been recorded.
proof fn lemma_gshare_alternating_settled(n: nat)
    requires
        n >= 1,
    ensures
        ({
            let m = gshare_alt_run(gshare_fresh(1), 0x246, 0x46A, n);
            &&& gshare_wf(m)
            &&& m.addr_bits == 1
            &&& m.history & 1 == 0
            &&& m.pht[1].inv() && m.pht[1].spec_value()
            &&& m.pht[0].inv() && !m.pht[0].spec_value()
            &&& m.misses == 1
        }),
    decreases n,
{
    let m0 = gshare_fresh(1);
    if n == 1 {
        lemma_alt_parity(0);
        assert(gshare_alt_run(m0, 0x246, 0x46A, 0) == m0);
        let ma = gshare_step(m0, 0x246, true);
        lemma_alt_parity(ma.history);
        assert(gshare_alt_run(m0, 0x246, 0x46A, 1) == gshare_step(ma, 0x46A, false));
    } else {
        lemma_gshare_alternating_settled((n - 1) as nat);
        let m = gshare_alt_run(m0, 0x246, 0x46A, (n - 1) as nat);
        lemma_alt_parity(m.history);
        let ma = gshare_step(m, 0x246, true);
        lemma_alt_parity(ma.history);
        assert(gshare_alt_run(m0, 0x246, 0x46A, n) == gshare_step(ma, 0x46A, false));
    }
}

/// Convergence on a perfectly predictable two-branch pattern: replaying
/// rounds of one always-taken branch and one never-taken branch against a
/// fresh one-bit gshare, the cold start costs a single miss and the miss
/// count never grows past two, however long the trace runs.
pub proof fn lemma_gshare_alternating_converges(n: nat)
    ensures
        gshare_alt_run(gshare_fresh(1), 0x246, 0x46A, n).misses <= 2,
{
    if n == 0 {
        assert(gshare_alt_run(gshare_fresh(1), 0x246, 0x46A, 0) == gshare_fresh(1));
    } else {
        lemma_gshare_alternating_settled(n);
    }
}

// ---------------------------------------------------------------------------
// Bimodal: a choice table selects between two outcome-biased direction
// tables.
// ---------------------------------------------------------------------------

/// The mathematical state of a bimodal predictor.
#[verifier::ext_equal]
pub struct BimodalModel {
    pub addr_bits: usize,
    pub history: u64,
    pub choice: Seq<TwoBitCounter>,
    pub dir_nt: Seq<TwoBitCounter>,
    pub dir_t: Seq<TwoBitCounter>,
    pub misses: nat,
}

/// Well-formedness of a bimodal model.
pub open spec fn bimodal_wf(m: BimodalModel) -> bool {
    &&& m.addr_bits <= 24
    &&& m.choice.len() == table_len(m.addr_bits)
    &&& m.dir_nt.len() == table_len(m.addr_bits)
    &&& m.dir_t.len() == table_len(m.addr_bits)
    &&& wf_counters(m.choice)
    &&& wf_counters(m.dir_nt)
    &&& wf_counters(m.dir_t)
}

/// The freshly constructed bimodal model.
pub open spec fn bimodal_fresh(addr_bits: usize) -> BimodalModel {
    BimodalModel {
        addr_bits,
        history: 0,
        choice: Seq::new(table_len(addr_bits), |i: int| TwoBitCounter::spec_new(true)),
        dir_nt: Seq::new(table_len(addr_bits), |i: int| TwoBitCounter::spec_new(true)),
        dir_t: Seq::new(table_len(addr_bits), |i: int| TwoBitCounter::spec_new(true)),
        misses: 0,
    }
}

/// The choice-table index for `addr`.
pub open spec fn bimodal_choice_index(m: BimodalModel, addr: u64) -> int {
    ((addr >> 1) & mask_of(m.addr_bits)) as int
}

/// The direction-table index for `addr`: address bits XORed with the
/// global history.
pub open spec fn bimodal_dir_index(m: BimodalModel, addr: u64) -> int {
    (((addr >> 1) ^ m.history) & mask_of(m.addr_bits)) as int
}

/// One event absorbed by a bimodal model: the choice counter selects a
/// direction table, which predicts and is updated; the choice counter
/// itself is updated unless both it and the chosen direction counter
/// already agreed with the outcome.
pub open spec fn bimodal_step(m: BimodalModel, addr: u64, was_taken: bool) -> BimodalModel {
    let ci = bimodal_choice_index(m, addr);
    let di = bimodal_dir_index(m, addr);
    let choice = m.choice[ci].spec_value();
    let predicted = if choice { m.dir_t[di].spec_value() } else { m.dir_nt[di].spec_value() };
    let dir_t1 = if choice { m.dir_t.update(di, m.dir_t[di].spec_stepped(was_taken)) } else { m.dir_t };
    let dir_nt1 = if choice { m.dir_nt } else { m.dir_nt.update(di, m.dir_nt[di].spec_stepped(was_taken)) };
    let choice1 = if predicted != was_taken || choice != was_taken {
        m.choice.update(ci, m.choice[ci].spec_stepped(was_taken))
    } else {
        m.choice
    };
    BimodalModel {
        addr_bits: m.addr_bits,
        history: shift_history(m.history, was_taken),
        choice: choice1,
        dir_nt: dir_nt1,
        dir_t: dir_t1,
        misses: m.misses + (if predicted != was_taken { 1nat } else { 0nat }),
    }
}

/// A bimodal model after `n` identical events.
pub open spec fn bimodal_run(m: BimodalModel, addr: u64, was_taken: bool, n: nat) -> BimodalModel
    decreases n,
{
    if n == 0 {
        m
    } else {
        bimodal_step(bimodal_run(m, addr, was_taken, (n - 1) as nat), addr, was_taken)
    }
}

/// The bimodal predictor: a choice table indexed by address selects
/// between a taken-biased and a not-taken-biased direction table, both
/// indexed by address XOR history.
pub struct BimodalBp {
    addr_bits: usize,
    history: u64,
    choice_pht: Vec<TwoBitCounter>,
    direction_pht_nt: Vec<TwoBitCounter>,
    direction_pht_t: Vec<TwoBitCounter>,
    addr_mask: u64,
    misses: u64,
}

impl View for BimodalBp {
    type V = BimodalModel;

    closed spec fn view(&self) -> BimodalModel {
        BimodalModel {
            addr_bits: self.addr_bits,
            history: self.history,
            choice: self.choice_pht@,
            dir_nt: self.direction_pht_nt@,
            dir_t: self.direction_pht_t@,
            misses: self.misses as nat,
        }
    }
}

impl BimodalBp {
    pub fn new(addr_bits: usize) -> (r: BimodalBp)
        requires
            addr_bits <= 24,
        ensures
            r.inv(),
            r.spec_misses() == 0,
            r@ == bimodal_fresh(addr_bits),
    {
        proof {
            lemma_masked_in_range(0, addr_bits);
        }
        let size64: u64 = 1u64 << (addr_bits as u64);
        let size: usize = size64 as usize;
        let choice_pht = seeded_table(size, true);
        let direction_pht_nt = seeded_table(size, true);
        let direction_pht_t = seeded_table(size, true);
        let r = BimodalBp {
            addr_bits,
            history: 0,
            choice_pht,
            direction_pht_nt,
            direction_pht_t,
            addr_mask: size64 - 1,
            misses: 0,
        };
        proof {
            assert(r@.choice =~= bimodal_fresh(addr_bits).choice);
            assert(r@.dir_nt =~= bimodal_fresh(addr_bits).dir_nt);
            assert(r@.dir_t =~= bimodal_fresh(addr_bits).dir_t);
            assert(r@ =~= bimodal_fresh(addr_bits));
        }
        r
    }
}

impl Predictor for BimodalBp {
    closed spec fn inv(&self) -> bool {
        bimodal_wf(self@) && self.addr_mask == mask_of(self.addr_bits)
    }

    closed spec fn spec_misses(&self) -> u64 {
        self.misses
    }

    open spec fn spec_predict(&self, addr: u64) -> bool {
        if self@.choice[bimodal_choice_index(self@, addr)].spec_value() {
            self@.dir_t[bimodal_dir_index(self@, addr)].spec_value()
        } else {
            self@.dir_nt[bimodal_dir_index(self@, addr)].spec_value()
        }
    }

    open spec fn step_ok(pre: Self, addr: u64, was_taken: bool, post: Self) -> bool {
        post@ == bimodal_step(pre@, addr, was_taken)
    }

    open spec fn report_ok(&self, r: (String, Vec<usize>, usize, u64)) -> bool {
        &&& r.0@ == "Bimodal"@
        &&& r.1@ == seq![self@.addr_bits]
        &&& r.2 == table_len(self@.addr_bits) * 3 * 2
        &&& r.3 == self.spec_misses()
    }

    fn predict_and_update(&mut self, addr: u64, was_taken: bool) {
        proof {
            lemma_masked_in_range(addr >> 1, self.addr_bits);
            lemma_masked_in_range((addr >> 1) ^ self.history, self.addr_bits);
        }
        let choice_index: usize = ((addr >> 1) & self.addr_mask) as usize;
        let direction_index: usize = (((addr >> 1) ^ self.history) & self.addr_mask) as usize;

        let choice = self.choice_pht[choice_index].value();

        let predicted: bool;
        if choice {
            predicted = self.direction_pht_t[direction_index].value();
            let c = self.direction_pht_t[direction_index].stepped(was_taken);
            self.direction_pht_t[direction_index] = c;
        } else {
            predicted = self.direction_pht_nt[direction_index].value();
            let c = self.direction_pht_nt[direction_index].stepped(was_taken);
            self.direction_pht_nt[direction_index] = c;
        }

        // The choice table is protected: it is not updated when it and the
        // chosen direction table both already agreed with the outcome.
        if predicted != was_taken || choice != was_taken {
            let c = self.choice_pht[choice_index].stepped(was_taken);
            self.choice_pht[choice_index] = c;
        }

        if predicted != was_taken {
            self.misses = self.misses + 1;
        }

        self.history = (self.history << 1) | (if was_taken { 1u64 } else { 0u64 });
        proof {
            assert(self@.choice =~= bimodal_step(old(self)@, addr, was_taken).choice);
            assert(self@.dir_nt =~= bimodal_step(old(self)@, addr, was_taken).dir_nt);
            assert(self@.dir_t =~= bimodal_step(old(self)@, addr, was_taken).dir_t);
            assert(self@ =~= bimodal_step(old(self)@, addr, was_taken));
        }
    }

    fn report(&self) -> (r: (String, Vec<usize>, usize, u64)) {
        proof {
            lemma_masked_in_range(0, self.addr_bits);
        }
        let len = self.choice_pht.len() + self.direction_pht_t.len() + self.direction_pht_nt.len();
        let mut config: Vec<usize> = Vec::new();
        config.push(self.addr_bits);
        let r = (String::from_str("Bimodal"), config, len * 2, self.misses);
        proof {
            assert(r.1@ =~= seq![self@.addr_bits]);
        }
        r
    }
}

/// On a run of taken events from a fresh state, the bimodal choice and
/// taken-biased tables keep predicting taken and no miss is ever recorded.
proof fn lemma_bimodal_all_taken(addr_bits: usize, addr: u64, n: nat)
    requires
        addr_bits <= 24,
    ensures
        bimodal_wf(bimodal_run(bimodal_fresh(addr_bits), addr, true, n)),
        bimodal_run(bimodal_fresh(addr_bits), addr, true, n).addr_bits == addr_bits,
        all_counters(bimodal_run(bimodal_fresh(addr_bits), addr, true, n).choice, true),
        all_counters(bimodal_run(bimodal_fresh(addr_bits), addr, true, n).dir_t, true),
        bimodal_run(bimodal_fresh(addr_bits), addr, true, n).misses == 0,
    decreases n,
{
    if n == 0 {
    } else {
        lemma_bimodal_all_taken(addr_bits, addr, (n - 1) as nat);
        let m = bimodal_run(bimodal_fresh(addr_bits), addr, true, (n - 1) as nat);
        lemma_masked_in_range(addr >> 1, addr_bits);
        lemma_masked_in_range((addr >> 1) ^ m.history, addr_bits);
        let di = bimodal_dir_index(m, addr);
        assert(all_counters(bimodal_step(m, addr, true).dir_t, true)) by {
            assert(forall|j: int| 0 <= j < m.dir_t.len() && j != di
                ==> bimodal_step(m, addr, true).dir_t[j] == m.dir_t[j]);
        }
    }
}

/// On a run of not-taken events from a fresh state, after two events the
/// bimodal history keeps its masked bits clear, the consulted choice and
/// not-taken-biased counters predict not-taken, and no further miss is
/// recorded.
proof fn lemma_bimodal_settled_nt(addr_bits: usize, addr: u64, n: nat)
    requires
        addr_bits <= 24,
        n >= 2,
    ensures
        bimodal_wf(bimodal_run(bimodal_fresh(addr_bits), addr, false, n)),
        bimodal_run(bimodal_fresh(addr_bits), addr, false, n).addr_bits == addr_bits,
        bimodal_run(bimodal_fresh(addr_bits), addr, false, n).history & mask_of(addr_bits) == 0,
        !bimodal_run(bimodal_fresh(addr_bits), addr, false, n).choice[
            ((addr >> 1) & mask_of(addr_bits)) as int
        ].spec_value(),
        !bimodal_run(bimodal_fresh(addr_bits), addr, false, n).dir_nt[
            ((addr >> 1) & mask_of(addr_bits)) as int
        ].spec_value(),
        bimodal_run(bimodal_fresh(addr_bits), addr, false, n).misses
            == bimodal_run(bimodal_fresh(addr_bits), addr, false, 2).misses,
    decreases n,
{
    lemma_masked_in_range(addr >> 1, addr_bits);
    lemma_zero_masked(addr_bits);
    let m0 = bimodal_fresh(addr_bits);
    if n == 2 {
        lemma_masked_history_zero(addr >> 1, 0, addr_bits);
        let m1 = bimodal_step(m0, addr, false);
        assert(m1.history == shift_history(0, false));
        lemma_masked_history_zero(addr >> 1, m1.history, addr_bits);
        assert(bimodal_run(m0, addr, false, 0) == m0);
        assert(bimodal_run(m0, addr, false, 1) == m1);
        assert(bimodal_run(m0, addr, false, 2) == bimodal_step(m1, addr, false));
    } else {
        lemma_bimodal_settled_nt(addr_bits, addr, (n - 1) as nat);
        let m = bimodal_run(m0, addr, false, (n - 1) as nat);
        lemma_masked_history_zero(addr >> 1, m.history, addr_bits);
        assert(bimodal_run(m0, addr, false, n) == bimodal_step(m, addr, false));
    }
}

/// Saturation: feeding the same (address, outcome) pair repeatedly to a
/// fresh bimodal predictor, the miss count stops increasing after at most
/// two events.
pub proof fn lemma_bimodal_repeat_saturates(addr_bits: usize, addr: u64, was_taken: bool, n: nat)
    requires
        addr_bits <= 24,
        n >= 2,
    ensures
        bimodal_run(bimodal_fresh(addr_bits), addr, was_taken, n).misses
            == bimodal_run(bimodal_fresh(addr_bits), addr, was_taken, 2).misses,
{
    if was_taken {
        lemma_bimodal_all_taken(addr_bits, addr, n);
        lemma_bimodal_all_taken(addr_bits, addr, 2);
    } else {
        lemma_bimodal_settled_nt(addr_bits, addr, n);
    }
}

} // verus!
