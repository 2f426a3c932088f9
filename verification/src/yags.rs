//! The YAGS family of tagged-override predictors.
//!
//! All four variants pair a choice table (the default prediction, indexed
//! by address) with a tagged override table that captures address-specific
//! exceptions, indexed by address XOR history and keyed by a tag folded
//! from address and history bits. The variants differ in how history is
//! folded into the tag, and in whether the override table is direct-mapped
//! or 2-way associative with a recency-protected replacement policy.

use vstd::prelude::*;
use vstd::string::StringExecFns;
use crate::weighted_bool::{Boolish, TwoBitCounter};
use crate::predictor::{
    Predictor, mask_of, table_len, shift_history, lemma_masked_in_range,
    seeded_table, all_counters, wf_counters,
};

verus! {

/// How a YAGS variant folds address and history bits into the override
/// tag. The override index is the same for every variant: address bits
/// XORed with the global history.
pub enum YagsFold {
    /// Tag from address bits alone.
    Simple,
    /// Tag from a richer, non-linear fold of address and history bits,
    /// intended to reduce tag aliasing.
    Mixed,
}

/// The choice-table index for `addr` (its structurally-zero bit dropped,
/// then halved as for the simple predictors).
pub open spec fn yags_addr_index(addr_bits: usize, addr: u64) -> int {
    ((addr >> 2) & mask_of(addr_bits)) as int
}

/// The override-table index for `addr`: the address (its structural low
/// bit dropped) XORed with the global history, masked to the table.
pub open spec fn yags_hash_index(dir_bits: usize, addr: u64, h: u64) -> int {
    (((addr >> 1) ^ h) & mask_of(dir_bits)) as int
}

/// The override tag for `addr` under the given fold.
pub open spec fn yags_tag(fold: YagsFold, tag_bits: usize, addr: u64, h: u64) -> u64 {
    let a = addr >> 1;
    match fold {
        YagsFold::Simple => a & mask_of(tag_bits),
        YagsFold::Mixed => ((((a & 30) << 4) | (((a >> 5) ^ h) & 15)) & mask_of(tag_bits)) as u64,
    }
}

// ---------------------------------------------------------------------------
// One-way override table (YAGS1 and YAGS2).
// ---------------------------------------------------------------------------

/// The mathematical state of a YAGS predictor with a direct-mapped
/// override table.
#[verifier::ext_equal]
pub struct YagsOneWayModel {
    pub fold: YagsFold,
    pub addr_bits: usize,
    pub dir_bits: usize,
    pub tag_bits: usize,
    pub history: u64,
    pub choice: Seq<TwoBitCounter>,
    pub dir: Seq<TwoBitCounter>,
    pub tags: Seq<u64>,
    pub misses: nat,
}

/// Well-formedness of a one-way YAGS model.
pub open spec fn yags_one_way_wf(m: YagsOneWayModel) -> bool {
    &&& m.addr_bits <= 24
    &&& m.dir_bits <= 24
    &&& m.tag_bits <= 24
    &&& m.choice.len() == table_len(m.addr_bits)
    &&& m.dir.len() == table_len(m.dir_bits)
    &&& m.tags.len() == table_len(m.dir_bits)
    &&& wf_counters(m.choice)
    &&& wf_counters(m.dir)
}

/// The freshly constructed one-way model: empty history, every counter
/// seeded weakly taken, every stored tag zero.
pub open spec fn yags_one_way_fresh(
    fold: YagsFold,
    addr_bits: usize,
    dir_bits: usize,
    tag_bits: usize,
) -> YagsOneWayModel {
    YagsOneWayModel {
        fold,
        addr_bits,
        dir_bits,
        tag_bits,
        history: 0,
        choice: Seq::new(table_len(addr_bits), |i: int| TwoBitCounter::spec_new(true)),
        dir: Seq::new(table_len(dir_bits), |i: int| TwoBitCounter::spec_new(true)),
        tags: Seq::new(table_len(dir_bits), |i: int| 0u64),
        misses: 0,
    }
}

/// One event absorbed by a one-way model. On a tag hit the override
/// counter predicts and is updated; otherwise the choice counter predicts
/// and is updated, and if it still disagrees with the outcome afterwards a
/// new override entry is installed at that index, seeded from the outcome.
pub open spec fn yags_one_way_step(m: YagsOneWayModel, addr: u64, was_taken: bool) -> YagsOneWayModel {
    let ai = yags_addr_index(m.addr_bits, addr);
    let hi = yags_hash_index(m.dir_bits, addr, m.history);
    let tag = yags_tag(m.fold, m.tag_bits, addr, m.history);
    let hit = m.tags[hi] == tag;
    let predicted = if hit { m.dir[hi].spec_value() } else { m.choice[ai].spec_value() };
    let m1 = if hit {
        YagsOneWayModel { dir: m.dir.update(hi, m.dir[hi].spec_stepped(was_taken)), ..m }
    } else {
        let c1 = m.choice[ai].spec_stepped(was_taken);
        if c1.spec_value() != was_taken {
            YagsOneWayModel {
                choice: m.choice.update(ai, c1),
                tags: m.tags.update(hi, tag),
                dir: m.dir.update(hi, TwoBitCounter::spec_new(was_taken)),
                ..m
            }
        } else {
            YagsOneWayModel { choice: m.choice.update(ai, c1), ..m }
        }
    };
    YagsOneWayModel {
        history: shift_history(m.history, was_taken),
        misses: m.misses + (if predicted != was_taken { 1nat } else { 0nat }),
        ..m1
    }
}

/// A one-way model after `n` identical events.
pub open spec fn yags_one_way_run(m: YagsOneWayModel, addr: u64, was_taken: bool, n: nat) -> YagsOneWayModel
    decreases n,
{
    if n == 0 {
        m
    } else {
        yags_one_way_step(yags_one_way_run(m, addr, was_taken, (n - 1) as nat), addr, was_taken)
    }
}

/// A table of `n` stored tags, all zero.
fn zero_table(n: usize) -> (v: Vec<u64>)
    ensures
        v@.len() == n,
        forall|i: int| 0 <= i < n ==> v@[i] == 0u64,
{
    let mut v: Vec<u64> = Vec::new();
    let mut k: usize = 0;
    while k < n
        invariant
            k <= n,
            v@.len() == k,
            forall|i: int| 0 <= i < k ==> v@[i] == 0u64,
        decreases n - k,
    {
        v.push(0);
        k = k + 1;
    }
    v
}

/// A table of `n` recency bits, all clear.
fn flag_table(n: usize) -> (v: Vec<bool>)
    ensures
        v@.len() == n,
        forall|i: int| 0 <= i < n ==> v@[i] == false,
{
    let mut v: Vec<bool> = Vec::new();
    let mut k: usize = 0;
    while k < n
        invariant
            k <= n,
            v@.len() == k,
            forall|i: int| 0 <= i < k ==> v@[i] == false,
        decreases n - k,
    {
        v.push(false);
        k = k + 1;
    }
    v
}

/// YAGS with a direct-mapped override table and the simple XOR fold.
pub struct Yags1Bp {
    addr_bits: usize,
    dir_bits: usize,
    tag_bits: usize,
    history: u64,
    choice_pht: Vec<TwoBitCounter>,
    direction_pht: Vec<TwoBitCounter>,
    direction_tag: Vec<u64>,
    addr_mask: u64,
    dir_mask: u64,
    tag_mask: u64,
    misses: u64,
}

impl View for Yags1Bp {
    type V = YagsOneWayModel;

    closed spec fn view(&self) -> YagsOneWayModel {
        YagsOneWayModel {
            fold: YagsFold::Simple,
            addr_bits: self.addr_bits,
            dir_bits: self.dir_bits,
            tag_bits: self.tag_bits,
            history: self.history,
            choice: self.choice_pht@,
            dir: self.direction_pht@,
            tags: self.direction_tag@,
            misses: self.misses as nat,
        }
    }
}

impl Yags1Bp {
    pub fn new(addr_bits: usize, dir_bits: usize, tag_bits: usize) -> (r: Yags1Bp)
        requires
            addr_bits <= 24,
            dir_bits <= 24,
            tag_bits <= 24,
        ensures
            r.inv(),
            r.spec_misses() == 0,
            r@ == yags_one_way_fresh(YagsFold::Simple, addr_bits, dir_bits, tag_bits),
    {
        proof {
            lemma_masked_in_range(0, addr_bits);
            lemma_masked_in_range(0, dir_bits);
            lemma_masked_in_range(0, tag_bits);
        }
        let addr_size: u64 = 1u64 << (addr_bits as u64);
        let dir_size: u64 = 1u64 << (dir_bits as u64);
        let tag_size: u64 = 1u64 << (tag_bits as u64);
        let choice_pht = seeded_table(addr_size as usize, true);
        let direction_pht = seeded_table(dir_size as usize, true);
        let direction_tag = zero_table(dir_size as usize);
        let r = Yags1Bp {
            addr_bits,
            dir_bits,
            tag_bits,
            history: 0,
            choice_pht,
            direction_pht,
            direction_tag,
            addr_mask: addr_size - 1,
            dir_mask: dir_size - 1,
            tag_mask: tag_size - 1,
            misses: 0,
        };
        proof {
            let f = yags_one_way_fresh(YagsFold::Simple, addr_bits, dir_bits, tag_bits);
            assert(r@.choice =~= f.choice);
            assert(r@.dir =~= f.dir);
            assert(r@.tags =~= f.tags);
            assert(r@ =~= f);
        }
        r
    }
}

impl Predictor for Yags1Bp {
    closed spec fn inv(&self) -> bool {
        &&& yags_one_way_wf(self@)
        &&& self.addr_mask == mask_of(self.addr_bits)
        &&& self.dir_mask == mask_of(self.dir_bits)
        &&& self.tag_mask == mask_of(self.tag_bits)
    }

    closed spec fn spec_misses(&self) -> u64 {
        self.misses
    }

    open spec fn spec_predict(&self, addr: u64) -> bool {
        let m = self@;
        let hi = yags_hash_index(m.dir_bits, addr, m.history);
        let tag = yags_tag(m.fold, m.tag_bits, addr, m.history);
        if m.tags[hi] == tag {
            m.dir[hi].spec_value()
        } else {
            m.choice[yags_addr_index(m.addr_bits, addr)].spec_value()
        }
    }

    open spec fn step_ok(pre: Self, addr: u64, was_taken: bool, post: Self) -> bool {
        post@ == yags_one_way_step(pre@, addr, was_taken)
    }

    open spec fn report_ok(&self, r: (String, Vec<usize>, usize, u64)) -> bool {
        &&& r.0@ == "YAGS1"@
        &&& r.1@ == seq![self@.addr_bits, self@.dir_bits, self@.tag_bits]
        &&& r.2 == table_len(self@.addr_bits) * 2 + table_len(self@.dir_bits) * (2 + self@.tag_bits)
        &&& r.3 == self.spec_misses()
    }

    fn predict_and_update(&mut self, addr: u64, was_taken: bool) {
        proof {
            lemma_masked_in_range(addr >> 2, self.addr_bits);
            lemma_masked_in_range((addr >> 1) ^ self.history, self.dir_bits);
        }
        let addr_index: usize = ((addr >> 2) & self.addr_mask) as usize;
        let hash_index: usize = (((addr >> 1) ^ self.history) & self.dir_mask) as usize;
        let hash_tag: u64 = (addr >> 1) & self.tag_mask;

        let predicted: bool;
        if self.direction_tag[hash_index] == hash_tag {
            predicted = self.direction_pht[hash_index].value();
            let c = self.direction_pht[hash_index].stepped(was_taken);
            self.direction_pht[hash_index] = c;
        } else {
            predicted = self.choice_pht[addr_index].value();
            let c = self.choice_pht[addr_index].stepped(was_taken);
            self.choice_pht[addr_index] = c;
            // The choice still disagrees with the outcome: specialise an
            // override entry on this biased-minority branch.
            if self.choice_pht[addr_index].value() != was_taken {
                self.direction_tag[hash_index] = hash_tag;
                self.direction_pht[hash_index] = TwoBitCounter::seeded(was_taken);
            }
        }

        if predicted != was_taken {
            self.misses = self.misses + 1;
        }

        self.history = (self.history << 1) | (if was_taken { 1u64 } else { 0u64 });
        proof {
            let st = yags_one_way_step(old(self)@, addr, was_taken);
            assert(self@.choice =~= st.choice);
            assert(self@.dir =~= st.dir);
            assert(self@.tags =~= st.tags);
            assert(self@ =~= st);
        }
    }

    fn report(&self) -> (r: (String, Vec<usize>, usize, u64)) {
        proof {
            lemma_masked_in_range(0, self.addr_bits);
            lemma_masked_in_range(0, self.dir_bits);
            assert(self.direction_pht@.len() * (2 + self.tag_bits) <= 0x100_0000 * 26)
                by (nonlinear_arith)
                requires
                    self.direction_pht@.len() <= 0x100_0000,
                    self.tag_bits <= 24,
            ;
        }
        let size = self.choice_pht.len() * 2 + self.direction_pht.len() * (2 + self.tag_bits);
        let mut config: Vec<usize> = Vec::new();
        config.push(self.addr_bits);
        config.push(self.dir_bits);
        config.push(self.tag_bits);
        let r = (String::from_str("YAGS1"), config, size, self.misses);
        proof {
            assert(r.1@ =~= seq![self@.addr_bits, self@.dir_bits, self@.tag_bits]);
        }
        r
    }
}

/// YAGS with a direct-mapped override table and a richer, non-linear fold
/// of history into the tag, intended to reduce tag aliasing.
pub struct Yags2Bp {
    addr_bits: usize,
    dir_bits: usize,
    tag_bits: usize,
    history: u64,
    choice_pht: Vec<TwoBitCounter>,
    direction_pht: Vec<TwoBitCounter>,
    direction_tag: Vec<u64>,
    addr_mask: u64,
    dir_mask: u64,
    tag_mask: u64,
    misses: u64,
}

impl View for Yags2Bp {
    type V = YagsOneWayModel;

    closed spec fn view(&self) -> YagsOneWayModel {
        YagsOneWayModel {
            fold: YagsFold::Mixed,
            addr_bits: self.addr_bits,
            dir_bits: self.dir_bits,
            tag_bits: self.tag_bits,
            history: self.history,
            choice: self.choice_pht@,
            dir: self.direction_pht@,
            tags: self.direction_tag@,
            misses: self.misses as nat,
        }
    }
}

impl Yags2Bp {
    pub fn new(addr_bits: usize, dir_bits: usize, tag_bits: usize) -> (r: Yags2Bp)
        requires
            addr_bits <= 24,
            dir_bits <= 24,
            tag_bits <= 24,
        ensures
            r.inv(),
            r.spec_misses() == 0,
            r@ == yags_one_way_fresh(YagsFold::Mixed, addr_bits, dir_bits, tag_bits),
    {
        proof {
            lemma_masked_in_range(0, addr_bits);
            lemma_masked_in_range(0, dir_bits);
            lemma_masked_in_range(0, tag_bits);
        }
        let addr_size: u64 = 1u64 << (addr_bits as u64);
        let dir_size: u64 = 1u64 << (dir_bits as u64);
        let tag_size: u64 = 1u64 << (tag_bits as u64);
        let choice_pht = seeded_table(addr_size as usize, true);
        let direction_pht = seeded_table(dir_size as usize, true);
        let direction_tag = zero_table(dir_size as usize);
        let r = Yags2Bp {
            addr_bits,
            dir_bits,
            tag_bits,
            history: 0,
            choice_pht,
            direction_pht,
            direction_tag,
            addr_mask: addr_size - 1,
            dir_mask: dir_size - 1,
            tag_mask: tag_size - 1,
            misses: 0,
        };
        proof {
            let f = yags_one_way_fresh(YagsFold::Mixed, addr_bits, dir_bits, tag_bits);
            assert(r@.choice =~= f.choice);
            assert(r@.dir =~= f.dir);
            assert(r@.tags =~= f.tags);
            assert(r@ =~= f);
        }
        r
    }
}

impl Predictor for Yags2Bp {
    closed spec fn inv(&self) -> bool {
        &&& yags_one_way_wf(self@)
        &&& self.addr_mask == mask_of(self.addr_bits)
        &&& self.dir_mask == mask_of(self.dir_bits)
        &&& self.tag_mask == mask_of(self.tag_bits)
    }

    closed spec fn spec_misses(&self) -> u64 {
        self.misses
    }

    open spec fn spec_predict(&self, addr: u64) -> bool {
        let m = self@;
        let hi = yags_hash_index(m.dir_bits, addr, m.history);
        let tag = yags_tag(m.fold, m.tag_bits, addr, m.history);
        if m.tags[hi] == tag {
            m.dir[hi].spec_value()
        } else {
            m.choice[yags_addr_index(m.addr_bits, addr)].spec_value()
        }
    }

    open spec fn step_ok(pre: Self, addr: u64, was_taken: bool, post: Self) -> bool {
        post@ == yags_one_way_step(pre@, addr, was_taken)
    }

    open spec fn report_ok(&self, r: (String, Vec<usize>, usize, u64)) -> bool {
        &&& r.0@ == "YAGS2"@
        &&& r.1@ == seq![self@.addr_bits, self@.dir_bits, self@.tag_bits]
        &&& r.2 == table_len(self@.addr_bits) * 2 + table_len(self@.dir_bits) * (2 + self@.tag_bits)
        &&& r.3 == self.spec_misses()
    }

    fn predict_and_update(&mut self, addr: u64, was_taken: bool) {
        proof {
            lemma_masked_in_range(addr >> 2, self.addr_bits);
            lemma_masked_in_range((addr >> 1) ^ self.history, self.dir_bits);
        }
        let addr_index: usize = ((addr >> 2) & self.addr_mask) as usize;
        let hash_index: usize = (((addr >> 1) ^ self.history) & self.dir_mask) as usize;
        // Tag fold: address bits 1..4 kept apart from address bits 5..8
        // XORed with history.
        let hash_tag: u64 = ((((addr >> 1) & 30) << 4) | ((((addr >> 1) >> 5) ^ self.history) & 15))
            & self.tag_mask;

        let predicted: bool;
        if self.direction_tag[hash_index] == hash_tag {
            predicted = self.direction_pht[hash_index].value();
            let c = self.direction_pht[hash_index].stepped(was_taken);
            self.direction_pht[hash_index] = c;
        } else {
            predicted = self.choice_pht[addr_index].value();
            let c = self.choice_pht[addr_index].stepped(was_taken);
            self.choice_pht[addr_index] = c;
            if self.choice_pht[addr_index].value() != was_taken {
                self.direction_tag[hash_index] = hash_tag;
                self.direction_pht[hash_index] = TwoBitCounter::seeded(was_taken);
            }
        }

        if predicted != was_taken {
            self.misses = self.misses + 1;
        }

        self.history = (self.history << 1) | (if was_taken { 1u64 } else { 0u64 });
        proof {
            let st = yags_one_way_step(old(self)@, addr, was_taken);
            assert(self@.choice =~= st.choice);
            assert(self@.dir =~= st.dir);
            assert(self@.tags =~= st.tags);
            assert(self@ =~= st);
        }
    }

    fn report(&self) -> (r: (String, Vec<usize>, usize, u64)) {
        proof {
            lemma_masked_in_range(0, self.addr_bits);
            lemma_masked_in_range(0, self.dir_bits);
            assert(self.direction_pht@.len() * (2 + self.tag_bits) <= 0x100_0000 * 26)
                by (nonlinear_arith)
                requires
                    self.direction_pht@.len() <= 0x100_0000,
                    self.tag_bits <= 24,
            ;
        }
        let size = self.choice_pht.len() * 2 + self.direction_pht.len() * (2 + self.tag_bits);
        let mut config: Vec<usize> = Vec::new();
        config.push(self.addr_bits);
        config.push(self.dir_bits);
        config.push(self.tag_bits);
        let r = (String::from_str("YAGS2"), config, size, self.misses);
        proof {
            assert(r.1@ =~= seq![self@.addr_bits, self@.dir_bits, self@.tag_bits]);
        }
        r
    }
}

// ---------------------------------------------------------------------------
// Two-way override table (YAGS3 and YAGS4).
// ---------------------------------------------------------------------------

/// The mathematical state of a YAGS predictor with a 2-way associative
/// override table: two parallel slot arrays of {tag, counter,
/// recently-correct} entries.
#[verifier::ext_equal]
pub struct YagsTwoWayModel {
    pub fold: YagsFold,
    pub addr_bits: usize,
    pub dir_bits: usize,
    pub tag_bits: usize,
    pub history: u64,
    pub choice: Seq<TwoBitCounter>,
    pub dir0: Seq<TwoBitCounter>,
    pub dir1: Seq<TwoBitCounter>,
    pub tags0: Seq<u64>,
    pub tags1: Seq<u64>,
    pub u0: Seq<bool>,
    pub u1: Seq<bool>,
    pub misses: nat,
}

/// Well-formedness of a two-way YAGS model.
pub open spec fn yags_two_way_wf(m: YagsTwoWayModel) -> bool {
    &&& m.addr_bits <= 24
    &&& m.dir_bits <= 24
    &&& m.tag_bits <= 24
    &&& m.choice.len() == table_len(m.addr_bits)
    &&& m.dir0.len() == table_len(m.dir_bits)
    &&& m.dir1.len() == table_len(m.dir_bits)
    &&& m.tags0.len() == table_len(m.dir_bits)
    &&& m.tags1.len() == table_len(m.dir_bits)
    &&& m.u0.len() == table_len(m.dir_bits)
    &&& m.u1.len() == table_len(m.dir_bits)
    &&& wf_counters(m.choice)
    &&& wf_counters(m.dir0)
    &&& wf_counters(m.dir1)
}

/// The freshly constructed two-way model.
pub open spec fn yags_two_way_fresh(
    fold: YagsFold,
    addr_bits: usize,
    dir_bits: usize,
    tag_bits: usize,
) -> YagsTwoWayModel {
    YagsTwoWayModel {
        fold,
        addr_bits,
        dir_bits,
        tag_bits,
        history: 0,
        choice: Seq::new(table_len(addr_bits), |i: int| TwoBitCounter::spec_new(true)),
        dir0: Seq::new(table_len(dir_bits), |i: int| TwoBitCounter::spec_new(true)),
        dir1: Seq::new(table_len(dir_bits), |i: int| TwoBitCounter::spec_new(true)),
        tags0: Seq::new(table_len(dir_bits), |i: int| 0u64),
        tags1: Seq::new(table_len(dir_bits), |i: int| 0u64),
        u0: Seq::new(table_len(dir_bits), |i: int| false),
        u1: Seq::new(table_len(dir_bits), |i: int| false),
        misses: 0,
    }
}

/// One event absorbed by a two-way model. On a hit in either slot that
/// slot's counter predicts and is updated, and its recency bit records
/// whether the updated counter agrees with the outcome. Otherwise the
/// choice counter predicts and is updated; if it still disagrees with the
/// outcome a new entry is installed in the first slot whose recency bit is
/// clear, and if both slots were recently correct, both bits are cleared
/// and nothing is installed.
pub open spec fn yags_two_way_step(m: YagsTwoWayModel, addr: u64, was_taken: bool) -> YagsTwoWayModel {
    let ai = yags_addr_index(m.addr_bits, addr);
    let hi = yags_hash_index(m.dir_bits, addr, m.history);
    let tag = yags_tag(m.fold, m.tag_bits, addr, m.history);
    let hit0 = m.tags0[hi] == tag;
    let hit1 = !hit0 && m.tags1[hi] == tag;
    let predicted = if hit0 {
        m.dir0[hi].spec_value()
    } else if hit1 {
        m.dir1[hi].spec_value()
    } else {
        m.choice[ai].spec_value()
    };
    let m1 = if hit0 {
        let c1 = m.dir0[hi].spec_stepped(was_taken);
        YagsTwoWayModel {
            dir0: m.dir0.update(hi, c1),
            u0: m.u0.update(hi, c1.spec_value() == was_taken),
            ..m
        }
    } else if hit1 {
        let c1 = m.dir1[hi].spec_stepped(was_taken);
        YagsTwoWayModel {
            dir1: m.dir1.update(hi, c1),
            u1: m.u1.update(hi, c1.spec_value() == was_taken),
            ..m
        }
    } else {
        let c1 = m.choice[ai].spec_stepped(was_taken);
        let mc = YagsTwoWayModel { choice: m.choice.update(ai, c1), ..m };
        if c1.spec_value() != was_taken {
            if !m.u0[hi] {
                YagsTwoWayModel {
                    tags0: m.tags0.update(hi, tag),
                    dir0: m.dir0.update(hi, TwoBitCounter::spec_new(was_taken)),
                    ..mc
                }
            } else if !m.u1[hi] {
                YagsTwoWayModel {
                    tags1: m.tags1.update(hi, tag),
                    dir1: m.dir1.update(hi, TwoBitCounter::spec_new(was_taken)),
                    ..mc
                }
            } else {
                YagsTwoWayModel {
                    u0: m.u0.update(hi, false),
                    u1: m.u1.update(hi, false),
                    ..mc
                }
            }
        } else {
            mc
        }
    };
    YagsTwoWayModel {
        history: shift_history(m.history, was_taken),
        misses: m.misses + (if predicted != was_taken { 1nat } else { 0nat }),
        ..m1
    }
}

/// A two-way model after `n` identical events.
pub open spec fn yags_two_way_run(m: YagsTwoWayModel, addr: u64, was_taken: bool, n: nat) -> YagsTwoWayModel
    decreases n,
{
    if n == 0 {
        m
    } else {
        yags_two_way_step(yags_two_way_run(m, addr, was_taken, (n - 1) as nat), addr, was_taken)
    }
}

/// YAGS with a 2-way associative override table, recency bits, and the
/// simple XOR fold.
pub struct Yags3Bp {
    addr_bits: usize,
    dir_bits: usize,
    tag_bits: usize,
    history: u64,
    choice_pht: Vec<TwoBitCounter>,
    direction_pht0: Vec<TwoBitCounter>,
    direction_pht1: Vec<TwoBitCounter>,
    direction_tag0: Vec<u64>,
    direction_tag1: Vec<u64>,
    direction_u0: Vec<bool>,
    direction_u1: Vec<bool>,
    addr_mask: u64,
    dir_mask: u64,
    tag_mask: u64,
    misses: u64,
}

impl View for Yags3Bp {
    type V = YagsTwoWayModel;

    closed spec fn view(&self) -> YagsTwoWayModel {
        YagsTwoWayModel {
            fold: YagsFold::Simple,
            addr_bits: self.addr_bits,
            dir_bits: self.dir_bits,
            tag_bits: self.tag_bits,
            history: self.history,
            choice: self.choice_pht@,
            dir0: self.direction_pht0@,
            dir1: self.direction_pht1@,
            tags0: self.direction_tag0@,
            tags1: self.direction_tag1@,
            u0: self.direction_u0@,
            u1: self.direction_u1@,
            misses: self.misses as nat,
        }
    }
}

impl Yags3Bp {
    pub fn new(addr_bits: usize, dir_bits: usize, tag_bits: usize) -> (r: Yags3Bp)
        requires
            addr_bits <= 24,
            dir_bits <= 24,
            tag_bits <= 24,
        ensures
            r.inv(),
            r.spec_misses() == 0,
            r@ == yags_two_way_fresh(YagsFold::Simple, addr_bits, dir_bits, tag_bits),
    {
        proof {
            lemma_masked_in_range(0, addr_bits);
            lemma_masked_in_range(0, dir_bits);
            lemma_masked_in_range(0, tag_bits);
        }
        let addr_size: u64 = 1u64 << (addr_bits as u64);
        let dir_size: u64 = 1u64 << (dir_bits as u64);
        let tag_size: u64 = 1u64 << (tag_bits as u64);
        let r = Yags3Bp {
            addr_bits,
            dir_bits,
            tag_bits,
            history: 0,
            choice_pht: seeded_table(addr_size as usize, true),
            direction_pht0: seeded_table(dir_size as usize, true),
            direction_pht1: seeded_table(dir_size as usize, true),
            direction_tag0: zero_table(dir_size as usize),
            direction_tag1: zero_table(dir_size as usize),
            direction_u0: flag_table(dir_size as usize),
            direction_u1: flag_table(dir_size as usize),
            addr_mask: addr_size - 1,
            dir_mask: dir_size - 1,
            tag_mask: tag_size - 1,
            misses: 0,
        };
        proof {
            let f = yags_two_way_fresh(YagsFold::Simple, addr_bits, dir_bits, tag_bits);
            assert(r@.choice =~= f.choice);
            assert(r@.dir0 =~= f.dir0);
            assert(r@.dir1 =~= f.dir1);
            assert(r@.tags0 =~= f.tags0);
            assert(r@.tags1 =~= f.tags1);
            assert(r@.u0 =~= f.u0);
            assert(r@.u1 =~= f.u1);
            assert(r@ =~= f);
        }
        r
    }
}

impl Predictor for Yags3Bp {
    closed spec fn inv(&self) -> bool {
        &&& yags_two_way_wf(self@)
        &&& self.addr_mask == mask_of(self.addr_bits)
        &&& self.dir_mask == mask_of(self.dir_bits)
        &&& self.tag_mask == mask_of(self.tag_bits)
    }

    closed spec fn spec_misses(&self) -> u64 {
        self.misses
    }

    open spec fn spec_predict(&self, addr: u64) -> bool {
        let m = self@;
        let hi = yags_hash_index(m.dir_bits, addr, m.history);
        let tag = yags_tag(m.fold, m.tag_bits, addr, m.history);
        if m.tags0[hi] == tag {
            m.dir0[hi].spec_value()
        } else if m.tags1[hi] == tag {
            m.dir1[hi].spec_value()
        } else {
            m.choice[yags_addr_index(m.addr_bits, addr)].spec_value()
        }
    }

    open spec fn step_ok(pre: Self, addr: u64, was_taken: bool, post: Self) -> bool {
        post@ == yags_two_way_step(pre@, addr, was_taken)
    }

    open spec fn report_ok(&self, r: (String, Vec<usize>, usize, u64)) -> bool {
        &&& r.0@ == "YAGS3"@
        &&& r.1@ == seq![self@.addr_bits, self@.dir_bits, self@.tag_bits]
        &&& r.2 == table_len(self@.addr_bits) * 2
            + table_len(self@.dir_bits) * 2 * (3 + self@.tag_bits)
        &&& r.3 == self.spec_misses()
    }

    fn predict_and_update(&mut self, addr: u64, was_taken: bool) {
        proof {
            lemma_masked_in_range(addr >> 2, self.addr_bits);
            lemma_masked_in_range((addr >> 1) ^ self.history, self.dir_bits);
        }
        let addr_index: usize = ((addr >> 2) & self.addr_mask) as usize;
        let hash_index: usize = (((addr >> 1) ^ self.history) & self.dir_mask) as usize;
        let hash_tag: u64 = (addr >> 1) & self.tag_mask;

        let predicted: bool;
        if self.direction_tag0[hash_index] == hash_tag {
            predicted = self.direction_pht0[hash_index].value();
            let c = self.direction_pht0[hash_index].stepped(was_taken);
            self.direction_pht0[hash_index] = c;
            self.direction_u0[hash_index] = c.value() == was_taken;
        } else if self.direction_tag1[hash_index] == hash_tag {
            predicted = self.direction_pht1[hash_index].value();
            let c = self.direction_pht1[hash_index].stepped(was_taken);
            self.direction_pht1[hash_index] = c;
            self.direction_u1[hash_index] = c.value() == was_taken;
        } else {
            predicted = self.choice_pht[addr_index].value();
            let c = self.choice_pht[addr_index].stepped(was_taken);
            self.choice_pht[addr_index] = c;
            if self.choice_pht[addr_index].value() != was_taken {
                // Install into the first slot that was not recently
                // correct; if both were, clear both recency bits instead,
                // protecting recently-useful entries from eviction.
                if !self.direction_u0[hash_index] {
                    self.direction_tag0[hash_index] = hash_tag;
                    self.direction_pht0[hash_index] = TwoBitCounter::seeded(was_taken);
                } else if !self.direction_u1[hash_index] {
                    self.direction_tag1[hash_index] = hash_tag;
                    self.direction_pht1[hash_index] = TwoBitCounter::seeded(was_taken);
                } else {
                    self.direction_u0[hash_index] = false;
                    self.direction_u1[hash_index] = false;
                }
            }
        }

        if predicted != was_taken {
            self.misses = self.misses + 1;
        }

        self.history = (self.history << 1) | (if was_taken { 1u64 } else { 0u64 });
        proof {
            let st = yags_two_way_step(old(self)@, addr, was_taken);
            assert(self@.choice =~= st.choice);
            assert(self@.dir0 =~= st.dir0);
            assert(self@.dir1 =~= st.dir1);
            assert(self@.tags0 =~= st.tags0);
            assert(self@.tags1 =~= st.tags1);
            assert(self@.u0 =~= st.u0);
            assert(self@.u1 =~= st.u1);
            assert(self@ =~= st);
        }
    }

    fn report(&self) -> (r: (String, Vec<usize>, usize, u64)) {
        proof {
            lemma_masked_in_range(0, self.addr_bits);
            lemma_masked_in_range(0, self.dir_bits);
            assert(self.direction_pht0@.len() * 2 * (3 + self.tag_bits) <= 0x100_0000 * 2 * 27)
                by (nonlinear_arith)
                requires
                    self.direction_pht0@.len() <= 0x100_0000,
                    self.tag_bits <= 24,
            ;
        }
        let size = self.choice_pht.len() * 2 + self.direction_pht0.len() * 2 * (3 + self.tag_bits);
        let mut config: Vec<usize> = Vec::new();
        config.push(self.addr_bits);
        config.push(self.dir_bits);
        config.push(self.tag_bits);
        let r = (String::from_str("YAGS3"), config, size, self.misses);
        proof {
            assert(r.1@ =~= seq![self@.addr_bits, self@.dir_bits, self@.tag_bits]);
        }
        r
    }
}

/// YAGS combining the richer tag fold with the 2-way associative override
/// table and its recency-protected replacement policy.
pub struct Yags4Bp {
    addr_bits: usize,
    dir_bits: usize,
    tag_bits: usize,
    history: u64,
    choice_pht: Vec<TwoBitCounter>,
    direction_pht0: Vec<TwoBitCounter>,
    direction_pht1: Vec<TwoBitCounter>,
    direction_tag0: Vec<u64>,
    direction_tag1: Vec<u64>,
    direction_u0: Vec<bool>,
    direction_u1: Vec<bool>,
    addr_mask: u64,
    dir_mask: u64,
    tag_mask: u64,
    misses: u64,
}

impl View for Yags4Bp {
    type V = YagsTwoWayModel;

    closed spec fn view(&self) -> YagsTwoWayModel {
        YagsTwoWayModel {
            fold: YagsFold::Mixed,
            addr_bits: self.addr_bits,
            dir_bits: self.dir_bits,
            tag_bits: self.tag_bits,
            history: self.history,
            choice: self.choice_pht@,
            dir0: self.direction_pht0@,
            dir1: self.direction_pht1@,
            tags0: self.direction_tag0@,
            tags1: self.direction_tag1@,
            u0: self.direction_u0@,
            u1: self.direction_u1@,
            misses: self.misses as nat,
        }
    }
}

impl Yags4Bp {
    pub fn new(addr_bits: usize, dir_bits: usize, tag_bits: usize) -> (r: Yags4Bp)
        requires
            addr_bits <= 24,
            dir_bits <= 24,
            tag_bits <= 24,
        ensures
            r.inv(),
            r.spec_misses() == 0,
            r@ == yags_two_way_fresh(YagsFold::Mixed, addr_bits, dir_bits, tag_bits),
    {
        proof {
            lemma_masked_in_range(0, addr_bits);
            lemma_masked_in_range(0, dir_bits);
            lemma_masked_in_range(0, tag_bits);
        }
        let addr_size: u64 = 1u64 << (addr_bits as u64);
        let dir_size: u64 = 1u64 << (dir_bits as u64);
        let tag_size: u64 = 1u64 << (tag_bits as u64);
        let r = Yags4Bp {
            addr_bits,
            dir_bits,
            tag_bits,
            history: 0,
            choice_pht: seeded_table(addr_size as usize, true),
            direction_pht0: seeded_table(dir_size as usize, true),
            direction_pht1: seeded_table(dir_size as usize, true),
            direction_tag0: zero_table(dir_size as usize),
            direction_tag1: zero_table(dir_size as usize),
            direction_u0: flag_table(dir_size as usize),
            direction_u1: flag_table(dir_size as usize),
            addr_mask: addr_size - 1,
            dir_mask: dir_size - 1,
            tag_mask: tag_size - 1,
            misses: 0,
        };
        proof {
            let f = yags_two_way_fresh(YagsFold::Mixed, addr_bits, dir_bits, tag_bits);
            assert(r@.choice =~= f.choice);
            assert(r@.dir0 =~= f.dir0);
            assert(r@.dir1 =~= f.dir1);
            assert(r@.tags0 =~= f.tags0);
            assert(r@.tags1 =~= f.tags1);
            assert(r@.u0 =~= f.u0);
            assert(r@.u1 =~= f.u1);
            assert(r@ =~= f);
        }
        r
    }
}

impl Predictor for Yags4Bp {
    closed spec fn inv(&self) -> bool {
        &&& yags_two_way_wf(self@)
        &&& self.addr_mask == mask_of(self.addr_bits)
        &&& self.dir_mask == mask_of(self.dir_bits)
        &&& self.tag_mask == mask_of(self.tag_bits)
    }

    closed spec fn spec_misses(&self) -> u64 {
        self.misses
    }

    open spec fn spec_predict(&self, addr: u64) -> bool {
        let m = self@;
        let hi = yags_hash_index(m.dir_bits, addr, m.history);
        let tag = yags_tag(m.fold, m.tag_bits, addr, m.history);
        if m.tags0[hi] == tag {
            m.dir0[hi].spec_value()
        } else if m.tags1[hi] == tag {
            m.dir1[hi].spec_value()
        } else {
            m.choice[yags_addr_index(m.addr_bits, addr)].spec_value()
        }
    }

    open spec fn step_ok(pre: Self, addr: u64, was_taken: bool, post: Self) -> bool {
        post@ == yags_two_way_step(pre@, addr, was_taken)
    }

    open spec fn report_ok(&self, r: (String, Vec<usize>, usize, u64)) -> bool {
        &&& r.0@ == "YAGS4"@
        &&& r.1@ == seq![self@.addr_bits, self@.dir_bits, self@.tag_bits]
        &&& r.2 == table_len(self@.addr_bits) * 2
            + table_len(self@.dir_bits) * 2 * (3 + self@.tag_bits)
        &&& r.3 == self.spec_misses()
    }

    fn predict_and_update(&mut self, addr: u64, was_taken: bool) {
        proof {
            lemma_masked_in_range(addr >> 2, self.addr_bits);
            lemma_masked_in_range((addr >> 1) ^ self.history, self.dir_bits);
        }
        let addr_index: usize = ((addr >> 2) & self.addr_mask) as usize;
        let hash_index: usize = (((addr >> 1) ^ self.history) & self.dir_mask) as usize;
        let hash_tag: u64 = ((((addr >> 1) & 30) << 4) | ((((addr >> 1) >> 5) ^ self.history) & 15))
            & self.tag_mask;

        let predicted: bool;
        if self.direction_tag0[hash_index] == hash_tag {
            predicted = self.direction_pht0[hash_index].value();
            let c = self.direction_pht0[hash_index].stepped(was_taken);
            self.direction_pht0[hash_index] = c;
            self.direction_u0[hash_index] = c.value() == was_taken;
        } else if self.direction_tag1[hash_index] == hash_tag {
            predicted = self.direction_pht1[hash_index].value();
            let c = self.direction_pht1[hash_index].stepped(was_taken);
            self.direction_pht1[hash_index] = c;
            self.direction_u1[hash_index] = c.value() == was_taken;
        } else {
            predicted = self.choice_pht[addr_index].value();
            let c = self.choice_pht[addr_index].stepped(was_taken);
            self.choice_pht[addr_index] = c;
            if self.choice_pht[addr_index].value() != was_taken {
                if !self.direction_u0[hash_index] {
                    self.direction_tag0[hash_index] = hash_tag;
                    self.direction_pht0[hash_index] = TwoBitCounter::seeded(was_taken);
                } else if !self.direction_u1[hash_index] {
                    self.direction_tag1[hash_index] = hash_tag;
                    self.direction_pht1[hash_index] = TwoBitCounter::seeded(was_taken);
                } else {
                    self.direction_u0[hash_index] = false;
                    self.direction_u1[hash_index] = false;
                }
            }
        }

        if predicted != was_taken {
            self.misses = self.misses + 1;
        }

        self.history = (self.history << 1) | (if was_taken { 1u64 } else { 0u64 });
        proof {
            let st = yags_two_way_step(old(self)@, addr, was_taken);
            assert(self@.choice =~= st.choice);
            assert(self@.dir0 =~= st.dir0);
            assert(self@.dir1 =~= st.dir1);
            assert(self@.tags0 =~= st.tags0);
            assert(self@.tags1 =~= st.tags1);
            assert(self@.u0 =~= st.u0);
            assert(self@.u1 =~= st.u1);
            assert(self@ =~= st);
        }
    }

    fn report(&self) -> (r: (String, Vec<usize>, usize, u64)) {
        proof {
            lemma_masked_in_range(0, self.addr_bits);
            lemma_masked_in_range(0, self.dir_bits);
            assert(self.direction_pht0@.len() * 2 * (3 + self.tag_bits) <= 0x100_0000 * 2 * 27)
                by (nonlinear_arith)
                requires
                    self.direction_pht0@.len() <= 0x100_0000,
                    self.tag_bits <= 24,
            ;
        }
        let size = self.choice_pht.len() * 2 + self.direction_pht0.len() * 2 * (3 + self.tag_bits);
        let mut config: Vec<usize> = Vec::new();
        config.push(self.addr_bits);
        config.push(self.dir_bits);
        config.push(self.tag_bits);
        let r = (String::from_str("YAGS4"), config, size, self.misses);
        proof {
            assert(r.1@ =~= seq![self@.addr_bits, self@.dir_bits, self@.tag_bits]);
        }
        r
    }
}

// ---------------------------------------------------------------------------
// Laws of the YAGS step functions.
// ---------------------------------------------------------------------------

/// The computed indices stay within their tables.
proof fn lemma_yags_indices_in_range(addr_bits: usize, dir_bits: usize, addr: u64, h: u64)
    requires
        addr_bits <= 24,
        dir_bits <= 24,
    ensures
        0 <= yags_addr_index(addr_bits, addr) < table_len(addr_bits),
        0 <= yags_hash_index(dir_bits, addr, h) < table_len(dir_bits),
{
    lemma_masked_in_range(addr >> 2, addr_bits);
    lemma_masked_in_range((addr >> 1) ^ h, dir_bits);
}

/// An all-zero history register absorbs a not-taken outcome unchanged.
proof fn lemma_history_stays_zero()
    by (bit_vector)
    ensures
        shift_history(0u64, false) == 0u64,
{
}

/// Recency bookkeeping on a hit: when an event hits the override entry in
/// slot 0, that entry's recency bit afterwards equals whether the entry's
/// prediction after its update agrees with the outcome, and no stored tag
/// of either slot moves.
pub proof fn lemma_yags_two_way_hit0_recency(m: YagsTwoWayModel, addr: u64, was_taken: bool)
    requires
        yags_two_way_wf(m),
        m.tags0[yags_hash_index(m.dir_bits, addr, m.history)]
            == yags_tag(m.fold, m.tag_bits, addr, m.history),
    ensures
        ({
            let hi = yags_hash_index(m.dir_bits, addr, m.history);
            let p = yags_two_way_step(m, addr, was_taken);
            &&& p.u0[hi] == (m.dir0[hi].spec_stepped(was_taken).spec_value() == was_taken)
            &&& p.tags0 == m.tags0
            &&& p.tags1 == m.tags1
        }),
{
    lemma_yags_indices_in_range(m.addr_bits, m.dir_bits, addr, m.history);
}

/// Recency bookkeeping on a hit in slot 1 (slot 0's tag did not match).
pub proof fn lemma_yags_two_way_hit1_recency(m: YagsTwoWayModel, addr: u64, was_taken: bool)
    requires
        yags_two_way_wf(m),
        m.tags0[yags_hash_index(m.dir_bits, addr, m.history)]
            != yags_tag(m.fold, m.tag_bits, addr, m.history),
        m.tags1[yags_hash_index(m.dir_bits, addr, m.history)]
            == yags_tag(m.fold, m.tag_bits, addr, m.history),
    ensures
        ({
            let hi = yags_hash_index(m.dir_bits, addr, m.history);
            let p = yags_two_way_step(m, addr, was_taken);
            &&& p.u1[hi] == (m.dir1[hi].spec_stepped(was_taken).spec_value() == was_taken)
            &&& p.tags0 == m.tags0
            &&& p.tags1 == m.tags1
        }),
{
    lemma_yags_indices_in_range(m.addr_bits, m.dir_bits, addr, m.history);
}

/// Installation: when an event misses both slots and the updated choice
/// counter still disagrees with the outcome, a new entry (the computed tag
/// and a counter seeded from the outcome) lands in the first slot whose
/// recency bit is clear.
pub proof fn lemma_yags_two_way_install(m: YagsTwoWayModel, addr: u64, was_taken: bool)
    requires
        yags_two_way_wf(m),
        m.tags0[yags_hash_index(m.dir_bits, addr, m.history)]
            != yags_tag(m.fold, m.tag_bits, addr, m.history),
        m.tags1[yags_hash_index(m.dir_bits, addr, m.history)]
            != yags_tag(m.fold, m.tag_bits, addr, m.history),
        m.choice[yags_addr_index(m.addr_bits, addr)].spec_stepped(was_taken).spec_value()
            != was_taken,
    ensures
        ({
            let hi = yags_hash_index(m.dir_bits, addr, m.history);
            let tag = yags_tag(m.fold, m.tag_bits, addr, m.history);
            let p = yags_two_way_step(m, addr, was_taken);
            &&& !m.u0[hi] ==> p.tags0[hi] == tag
                && p.dir0[hi] == TwoBitCounter::spec_new(was_taken) && p.tags1 == m.tags1
            &&& m.u0[hi] && !m.u1[hi] ==> p.tags1[hi] == tag
                && p.dir1[hi] == TwoBitCounter::spec_new(was_taken) && p.tags0 == m.tags0
        }),
{
    lemma_yags_indices_in_range(m.addr_bits, m.dir_bits, addr, m.history);
}

/// Protection: when an event misses both slots, the updated choice counter
/// still disagrees with the outcome, and both slots were recently correct,
/// nothing is installed — both existing entries survive untouched and only
/// the two recency bits are cleared.
pub proof fn lemma_yags_two_way_both_recent_protect(m: YagsTwoWayModel, addr: u64, was_taken: bool)
    requires
        yags_two_way_wf(m),
        m.tags0[yags_hash_index(m.dir_bits, addr, m.history)]
            != yags_tag(m.fold, m.tag_bits, addr, m.history),
        m.tags1[yags_hash_index(m.dir_bits, addr, m.history)]
            != yags_tag(m.fold, m.tag_bits, addr, m.history),
        m.u0[yags_hash_index(m.dir_bits, addr, m.history)],
        m.u1[yags_hash_index(m.dir_bits, addr, m.history)],
        m.choice[yags_addr_index(m.addr_bits, addr)].spec_stepped(was_taken).spec_value()
            != was_taken,
    ensures
        ({
            let hi = yags_hash_index(m.dir_bits, addr, m.history);
            let p = yags_two_way_step(m, addr, was_taken);
            &&& p.tags0 == m.tags0
            &&& p.tags1 == m.tags1
            &&& p.dir0 == m.dir0
            &&& p.dir1 == m.dir1
            &&& !p.u0[hi]
            &&& !p.u1[hi]
        }),
{
    lemma_yags_indices_in_range(m.addr_bits, m.dir_bits, addr, m.history);
}

/// On a run of taken events from a fresh state, every counter of a one-way
/// YAGS keeps predicting taken, nothing is installed, and no miss is ever
/// recorded.
proof fn lemma_yags_one_way_all_taken(
    fold: YagsFold,
    addr_bits: usize,
    dir_bits: usize,
    tag_bits: usize,
    addr: u64,
    n: nat,
)
    requires
        addr_bits <= 24,
        dir_bits <= 24,
        tag_bits <= 24,
    ensures
        ({
            let m = yags_one_way_run(yags_one_way_fresh(fold, addr_bits, dir_bits, tag_bits), addr, true, n);
            &&& yags_one_way_wf(m)
            &&& m.fold == fold
            &&& m.addr_bits == addr_bits
            &&& m.dir_bits == dir_bits
            &&& m.tag_bits == tag_bits
            &&& all_counters(m.choice, true)
            &&& all_counters(m.dir, true)
            &&& m.misses == 0
        }),
    decreases n,
{
    let m0 = yags_one_way_fresh(fold, addr_bits, dir_bits, tag_bits);
    if n == 0 {
    } else {
        lemma_yags_one_way_all_taken(fold, addr_bits, dir_bits, tag_bits, addr, (n - 1) as nat);
        let m = yags_one_way_run(m0, addr, true, (n - 1) as nat);
        lemma_yags_indices_in_range(addr_bits, dir_bits, addr, m.history);
        let p = yags_one_way_step(m, addr, true);
        assert(yags_one_way_run(m0, addr, true, n) == p);
        let hi = yags_hash_index(dir_bits, addr, m.history);
        let ai = yags_addr_index(addr_bits, addr);
        assert(all_counters(p.choice, true)) by {
            assert(forall|j: int| 0 <= j < m.choice.len() && j != ai ==> p.choice[j] == m.choice[j]);
        }
        assert(all_counters(p.dir, true)) by {
            assert(forall|j: int| 0 <= j < m.dir.len() && j != hi ==> p.dir[j] == m.dir[j]);
        }
    }
}

/// On a run of not-taken events from a fresh state, a one-way YAGS settles
/// after its first event: the history stays clear, no entry is installed,
/// and whichever counter the fixed index consults predicts not-taken.
proof fn lemma_yags_one_way_settled_nt(
    fold: YagsFold,
    addr_bits: usize,
    dir_bits: usize,
    tag_bits: usize,
    addr: u64,
    n: nat,
)
    requires
        addr_bits <= 24,
        dir_bits <= 24,
        tag_bits <= 24,
        n >= 1,
    ensures
        ({
            let m = yags_one_way_run(yags_one_way_fresh(fold, addr_bits, dir_bits, tag_bits), addr, false, n);
            let ai0 = yags_addr_index(addr_bits, addr);
            let hi0 = yags_hash_index(dir_bits, addr, 0);
            let tag0 = yags_tag(fold, tag_bits, addr, 0);
            &&& yags_one_way_wf(m)
            &&& m.fold == fold
            &&& m.addr_bits == addr_bits
            &&& m.dir_bits == dir_bits
            &&& m.tag_bits == tag_bits
            &&& m.history == 0
            &&& m.tags[hi0] == 0
            &&& (tag0 == 0 ==> !m.dir[hi0].spec_value())
            &&& (tag0 != 0 ==> !m.choice[ai0].spec_value())
            &&& m.misses == yags_one_way_run(
                yags_one_way_fresh(fold, addr_bits, dir_bits, tag_bits), addr, false, 1).misses
        }),
    decreases n,
{
    let m0 = yags_one_way_fresh(fold, addr_bits, dir_bits, tag_bits);
    lemma_yags_indices_in_range(addr_bits, dir_bits, addr, 0);
    lemma_history_stays_zero();
    if n == 1 {
        assert(yags_one_way_run(m0, addr, false, 0) == m0);
        assert(yags_one_way_run(m0, addr, false, 1) == yags_one_way_step(m0, addr, false));
    } else {
        lemma_yags_one_way_settled_nt(fold, addr_bits, dir_bits, tag_bits, addr, (n - 1) as nat);
        let m = yags_one_way_run(m0, addr, false, (n - 1) as nat);
        assert(yags_one_way_run(m0, addr, false, n) == yags_one_way_step(m, addr, false));
    }
}

/// Saturation: feeding the same (address, outcome) pair repeatedly to a
/// fresh one-way YAGS predictor (either fold), the miss count stops
/// increasing after at most two events.
pub proof fn lemma_yags_one_way_repeat_saturates(
    fold: YagsFold,
    addr_bits: usize,
    dir_bits: usize,
    tag_bits: usize,
    addr: u64,
    was_taken: bool,
    n: nat,
)
    requires
        addr_bits <= 24,
        dir_bits <= 24,
        tag_bits <= 24,
        n >= 2,
    ensures
        yags_one_way_run(yags_one_way_fresh(fold, addr_bits, dir_bits, tag_bits), addr, was_taken, n).misses
            == yags_one_way_run(yags_one_way_fresh(fold, addr_bits, dir_bits, tag_bits), addr, was_taken, 2).misses,
{
    if was_taken {
        lemma_yags_one_way_all_taken(fold, addr_bits, dir_bits, tag_bits, addr, n);
        lemma_yags_one_way_all_taken(fold, addr_bits, dir_bits, tag_bits, addr, 2);
    } else {
        lemma_yags_one_way_settled_nt(fold, addr_bits, dir_bits, tag_bits, addr, n);
        lemma_yags_one_way_settled_nt(fold, addr_bits, dir_bits, tag_bits, addr, 2);
    }
}

/// A one-way model after `n` rounds of a two-branch pattern: one event at
/// `a`, always taken, then one at `b`, never taken.
pub open spec fn yags_one_way_alt_run(m: YagsOneWayModel, a: u64, b: u64, n: nat) -> YagsOneWayModel
    decreases n,
{
    if n == 0 {
        m
    } else {
        yags_one_way_step(
            yags_one_way_step(yags_one_way_alt_run(m, a, b, (n - 1) as nat), a, true),
            b,
            false,
        )
    }
}

/// The concrete tags and choice indices that the two-branch pattern at
/// addresses 0x246 and 0x46A produces under the simple fold with a 2-bit
/// choice table and 4-bit tags: two distinct non-zero tags, two distinct
/// choice entries.
proof fn lemma_yags_alt_consts()
    by (bit_vector)
    ensures
        (0x246u64 >> 1) & mask_of(4) == 3,
        (0x46Au64 >> 1) & mask_of(4) == 5,
        (0x246u64 >> 2) & mask_of(2) == 1,
        (0x46Au64 >> 2) & mask_of(2) == 2,
        (1u64 << 2) == 4,
{
}

/// After every round of the pattern, the small one-way YAGS is settled: no
/// override entry was ever installed (both tags are non-zero, so nothing
/// hits the zeroed table, and the choice counters never stay wrong after
/// their update), the two choice entries predict their branches, and only
/// the one cold-start miss of the first round has been recorded.
proof fn lemma_yags1_alternating_settled(n: nat)
    requires
        n >= 1,
    ensures
        ({
            let m = yags_one_way_alt_run(
                yags_one_way_fresh(YagsFold::Simple, 2, 2, 4), 0x246, 0x46A, n);
            &&& yags_one_way_wf(m)
            &&& m.fold == YagsFold::Simple
            &&& m.addr_bits == 2
            &&& m.dir_bits == 2
            &&& m.tag_bits == 4
            &&& forall|i: int| 0 <= i < m.tags.len() ==> m.tags[i] == 0
            &&& m.choice[1].inv() && m.choice[1].spec_value()
            &&& m.choice[2].inv() && !m.choice[2].spec_value()
            &&& m.misses == 1
        }),
    decreases n,
{
    let m0 = yags_one_way_fresh(YagsFold::Simple, 2, 2, 4);
    lemma_yags_alt_consts();
    if n == 1 {
        assert(yags_one_way_alt_run(m0, 0x246, 0x46A, 0) == m0);
        lemma_yags_indices_in_range(2, 2, 0x246, m0.history);
        let ma = yags_one_way_step(m0, 0x246, true);
        lemma_yags_indices_in_range(2, 2, 0x46A, ma.history);
        assert(yags_one_way_alt_run(m0, 0x246, 0x46A, 1) == yags_one_way_step(ma, 0x46A, false));
    } else {
        lemma_yags1_alternating_settled((n - 1) as nat);
        let m = yags_one_way_alt_run(m0, 0x246, 0x46A, (n - 1) as nat);
        lemma_yags_indices_in_range(2, 2, 0x246, m.history);
        let ma = yags_one_way_step(m, 0x246, true);
        lemma_yags_indices_in_range(2, 2, 0x46A, ma.history);
        assert(yags_one_way_alt_run(m0, 0x246, 0x46A, n) == yags_one_way_step(ma, 0x46A, false));
    }
}

/// Convergence on a perfectly predictable two-branch pattern: replaying
/// rounds of one always-taken branch and one never-taken branch against a
/// fresh small one-way YAGS, the cold start costs a single miss and the
/// miss count never grows past two, however long the trace runs.
pub proof fn lemma_yags1_alternating_converges(n: nat)
    ensures
        yags_one_way_alt_run(
            yags_one_way_fresh(YagsFold::Simple, 2, 2, 4), 0x246, 0x46A, n).misses <= 2,
{
    if n == 0 {
        assert(yags_one_way_alt_run(
            yags_one_way_fresh(YagsFold::Simple, 2, 2, 4), 0x246, 0x46A, 0)
            == yags_one_way_fresh(YagsFold::Simple, 2, 2, 4));
    } else {
        lemma_yags1_alternating_settled(n);
    }
}

/// On a run of taken events from a fresh state, every counter of a two-way
/// YAGS keeps predicting taken and no miss is ever recorded.
proof fn lemma_yags_two_way_all_taken(
    fold: YagsFold,
    addr_bits: usize,
    dir_bits: usize,
    tag_bits: usize,
    addr: u64,
    n: nat,
)
    requires
        addr_bits <= 24,
        dir_bits <= 24,
        tag_bits <= 24,
    ensures
        ({
            let m = yags_two_way_run(yags_two_way_fresh(fold, addr_bits, dir_bits, tag_bits), addr, true, n);
            &&& yags_two_way_wf(m)
            &&& m.fold == fold
            &&& m.addr_bits == addr_bits
            &&& m.dir_bits == dir_bits
            &&& m.tag_bits == tag_bits
            &&& all_counters(m.choice, true)
            &&& all_counters(m.dir0, true)
            &&& all_counters(m.dir1, true)
            &&& m.misses == 0
        }),
    decreases n,
{
    let m0 = yags_two_way_fresh(fold, addr_bits, dir_bits, tag_bits);
    if n == 0 {
    } else {
        lemma_yags_two_way_all_taken(fold, addr_bits, dir_bits, tag_bits, addr, (n - 1) as nat);
        let m = yags_two_way_run(m0, addr, true, (n - 1) as nat);
        lemma_yags_indices_in_range(addr_bits, dir_bits, addr, m.history);
        let p = yags_two_way_step(m, addr, true);
        assert(yags_two_way_run(m0, addr, true, n) == p);
        let hi = yags_hash_index(dir_bits, addr, m.history);
        let ai = yags_addr_index(addr_bits, addr);
        assert(all_counters(p.choice, true)) by {
            assert(forall|j: int| 0 <= j < m.choice.len() && j != ai ==> p.choice[j] == m.choice[j]);
        }
        assert(all_counters(p.dir0, true)) by {
            assert(forall|j: int| 0 <= j < m.dir0.len() && j != hi ==> p.dir0[j] == m.dir0[j]);
        }
        assert(all_counters(p.dir1, true)) by {
            assert(forall|j: int| 0 <= j < m.dir1.len() && j != hi ==> p.dir1[j] == m.dir1[j]);
        }
    }
}

/// On a run of not-taken events from a fresh state, a two-way YAGS settles
/// after its first event, exactly as the one-way table does.
proof fn lemma_yags_two_way_settled_nt(
    fold: YagsFold,
    addr_bits: usize,
    dir_bits: usize,
    tag_bits: usize,
    addr: u64,
    n: nat,
)
    requires
        addr_bits <= 24,
        dir_bits <= 24,
        tag_bits <= 24,
        n >= 1,
    ensures
        ({
            let m = yags_two_way_run(yags_two_way_fresh(fold, addr_bits, dir_bits, tag_bits), addr, false, n);
            let ai0 = yags_addr_index(addr_bits, addr);
            let hi0 = yags_hash_index(dir_bits, addr, 0);
            let tag0 = yags_tag(fold, tag_bits, addr, 0);
            &&& yags_two_way_wf(m)
            &&& m.fold == fold
            &&& m.addr_bits == addr_bits
            &&& m.dir_bits == dir_bits
            &&& m.tag_bits == tag_bits
            &&& m.history == 0
            &&& m.tags0[hi0] == 0
            &&& m.tags1[hi0] == 0
            &&& (tag0 == 0 ==> !m.dir0[hi0].spec_value())
            &&& (tag0 != 0 ==> !m.choice[ai0].spec_value())
            &&& m.misses == yags_two_way_run(
                yags_two_way_fresh(fold, addr_bits, dir_bits, tag_bits), addr, false, 1).misses
        }),
    decreases n,
{
    let m0 = yags_two_way_fresh(fold, addr_bits, dir_bits, tag_bits);
    lemma_yags_indices_in_range(addr_bits, dir_bits, addr, 0);
    lemma_history_stays_zero();
    if n == 1 {
        assert(yags_two_way_run(m0, addr, false, 0) == m0);
        assert(yags_two_way_run(m0, addr, false, 1) == yags_two_way_step(m0, addr, false));
    } else {
        lemma_yags_two_way_settled_nt(fold, addr_bits, dir_bits, tag_bits, addr, (n - 1) as nat);
        let m = yags_two_way_run(m0, addr, false, (n - 1) as nat);
        assert(yags_two_way_run(m0, addr, false, n) == yags_two_way_step(m, addr, false));
    }
}

/// Saturation: feeding the same (address, outcome) pair repeatedly to a
/// fresh two-way YAGS predictor (either fold), the miss count stops
/// increasing after at most two events.
pub proof fn lemma_yags_two_way_repeat_saturates(
    fold: YagsFold,
    addr_bits: usize,
    dir_bits: usize,
    tag_bits: usize,
    addr: u64,
    was_taken: bool,
    n: nat,
)
    requires
        addr_bits <= 24,
        dir_bits <= 24,
        tag_bits <= 24,
        n >= 2,
    ensures
        yags_two_way_run(yags_two_way_fresh(fold, addr_bits, dir_bits, tag_bits), addr, was_taken, n).misses
            == yags_two_way_run(yags_two_way_fresh(fold, addr_bits, dir_bits, tag_bits), addr, was_taken, 2).misses,
{
    if was_taken {
        lemma_yags_two_way_all_taken(fold, addr_bits, dir_bits, tag_bits, addr, n);
        lemma_yags_two_way_all_taken(fold, addr_bits, dir_bits, tag_bits, addr, 2);
    } else {
        lemma_yags_two_way_settled_nt(fold, addr_bits, dir_bits, tag_bits, addr, n);
        lemma_yags_two_way_settled_nt(fold, addr_bits, dir_bits, tag_bits, addr, 2);
    }
}

} // verus!
