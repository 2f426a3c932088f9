use bpsim::predictor::{BimodalBp, GshareBp, LocalBp, NoneTakenBp, Predictor};
use bpsim::yags::{Yags1Bp, Yags2Bp, Yags3Bp, Yags4Bp};

fn repeat_misses<P: Predictor>(p: &mut P, addr: u64, taken: bool, n: usize) -> u64 {
    for _ in 0..n {
        p.predict_and_update(addr, taken);
    }
    p.report().3
}

#[test]
fn none_taken_counts_taken_events() {
    // The baseline misses exactly on the taken events.
    let mut p = NoneTakenBp::new();
    let outcomes = [true, false, true, true, false, false, false, true, true];
    for &t in outcomes.iter() {
        p.predict_and_update(0x40, t);
    }
    let taken = outcomes.iter().filter(|&&t| t).count() as u64;
    assert_eq!(p.report().3, taken);
    assert_eq!(taken, 5);
}

#[test]
fn local_repeat_saturates() {
    for &taken in [false, true].iter() {
        let mut p = LocalBp::new(4);
        let after2 = repeat_misses(&mut p, 0x1234, taken, 2);
        let after10 = repeat_misses(&mut p, 0x1234, taken, 8);
        assert_eq!(after2, after10);
    }
}

#[test]
fn gshare_repeat_saturates() {
    for &taken in [false, true].iter() {
        let mut p = GshareBp::new(4);
        let after2 = repeat_misses(&mut p, 0x1234, taken, 2);
        let after10 = repeat_misses(&mut p, 0x1234, taken, 8);
        assert_eq!(after2, after10);
    }
}

#[test]
fn bimodal_repeat_saturates() {
    for &taken in [false, true].iter() {
        let mut p = BimodalBp::new(4);
        let after2 = repeat_misses(&mut p, 0x1234, taken, 2);
        let after10 = repeat_misses(&mut p, 0x1234, taken, 8);
        assert_eq!(after2, after10);
    }
}

#[test]
fn yags_repeat_saturates() {
    for &taken in [false, true].iter() {
        let mut p = Yags1Bp::new(4, 4, 6);
        let after2 = repeat_misses(&mut p, 0x1234, taken, 2);
        let after10 = repeat_misses(&mut p, 0x1234, taken, 8);
        assert_eq!(after2, after10);

        let mut p = Yags2Bp::new(4, 4, 6);
        let after2 = repeat_misses(&mut p, 0x1234, taken, 2);
        let after10 = repeat_misses(&mut p, 0x1234, taken, 8);
        assert_eq!(after2, after10);

        let mut p = Yags3Bp::new(4, 4, 6);
        let after2 = repeat_misses(&mut p, 0x1234, taken, 2);
        let after10 = repeat_misses(&mut p, 0x1234, taken, 8);
        assert_eq!(after2, after10);

        let mut p = Yags4Bp::new(4, 4, 6);
        let after2 = repeat_misses(&mut p, 0x1234, taken, 2);
        let after10 = repeat_misses(&mut p, 0x1234, taken, 8);
        assert_eq!(after2, after10);
    }
}

#[test]
fn bimodal_two_cold_misses_not_taken() {
    // A fresh bimodal predictor pays exactly two cold misses on a
    // constantly not-taken branch: one through the taken-biased table and
    // one through the not-taken-biased table, then it is settled.
    let mut p = BimodalBp::new(6);
    p.predict_and_update(0x80, false);
    assert_eq!(p.report().3, 1);
    p.predict_and_update(0x80, false);
    assert_eq!(p.report().3, 2);
    for _ in 0..20 {
        p.predict_and_update(0x80, false);
    }
    assert_eq!(p.report().3, 2);
}

#[test]
fn report_names_configs_and_sizes() {
    let (name, config, size, misses) = NoneTakenBp::new().report();
    assert_eq!(name, "NoneTaken");
    assert!(config.is_empty());
    assert_eq!(size, 0);
    assert_eq!(misses, 0);

    let (name, config, size, _) = LocalBp::new(14).report();
    assert_eq!(name, "Two-level");
    assert_eq!(config, vec![14]);
    assert_eq!(size, (1 << 14) * 2);

    let (name, config, size, _) = GshareBp::new(12).report();
    assert_eq!(name, "Gshare");
    assert_eq!(config, vec![12]);
    assert_eq!(size, (1 << 12) * 2);

    let (name, config, size, _) = BimodalBp::new(10).report();
    assert_eq!(name, "Bimodal");
    assert_eq!(config, vec![10]);
    assert_eq!(size, 3 * (1 << 10) * 2);

    let (name, config, size, _) = Yags1Bp::new(13, 12, 6).report();
    assert_eq!(name, "YAGS1");
    assert_eq!(config, vec![13, 12, 6]);
    assert_eq!(size, (1 << 13) * 2 + (1 << 12) * (2 + 6));

    let (name, config, size, _) = Yags2Bp::new(13, 12, 6).report();
    assert_eq!(name, "YAGS2");
    assert_eq!(config, vec![13, 12, 6]);
    assert_eq!(size, (1 << 13) * 2 + (1 << 12) * (2 + 6));

    let (name, config, size, _) = Yags3Bp::new(13, 12, 6).report();
    assert_eq!(name, "YAGS3");
    assert_eq!(config, vec![13, 12, 6]);
    assert_eq!(size, (1 << 13) * 2 + (1 << 12) * 2 * (3 + 6));

    let (name, config, size, _) = Yags4Bp::new(13, 12, 6).report();
    assert_eq!(name, "YAGS4");
    assert_eq!(config, vec![13, 12, 6]);
    assert_eq!(size, (1 << 13) * 2 + (1 << 12) * 2 * (3 + 6));
}

#[test]
fn yags3_recency_protects_installed_entries() {
    // A single-entry override table (dir_bits = 0) shared by three branch
    // tags. The first two install entries into the two slots and each is
    // then hit, marking both slots recently correct. The third tag's
    // installation attempt must clear the recency bits and install
    // nothing, so the first two entries survive and keep predicting.
    let mut p = Yags3Bp::new(4, 0, 8);
    let a: u64 = 0x24; // tag 0x12, choice index 9
    let b: u64 = 0x58; // tag 0x2C, choice index 6
    let c: u64 = 0xB2; // tag 0x59, choice index 12

    // Drive A's choice counter to strongly-not-taken, then surprise it:
    // the miss installs {tag A} into slot 0.
    p.predict_and_update(a, false); // miss 1 (cold choice counter)
    p.predict_and_update(a, false);
    p.predict_and_update(a, true); // miss 2, installs into slot 0
    p.predict_and_update(a, true); // override hit, correct: slot 0 recent
    assert_eq!(p.report().3, 2);

    // Same story for B: installs into slot 1 and marks it recent.
    p.predict_and_update(b, false); // miss 3
    p.predict_and_update(b, false);
    p.predict_and_update(b, true); // miss 4, installs into slot 1
    p.predict_and_update(b, true); // override hit, correct: slot 1 recent
    assert_eq!(p.report().3, 4);

    // C collides with both recently-correct slots: its installation is
    // refused (only the recency bits clear).
    p.predict_and_update(c, false); // miss 5
    p.predict_and_update(c, false);
    p.predict_and_update(c, true); // miss 6, installs nothing
    assert_eq!(p.report().3, 6);

    // Both original entries survived: A and B still hit their override
    // counters and predict correctly.
    p.predict_and_update(a, true);
    p.predict_and_update(b, true);
    assert_eq!(p.report().3, 6);
}
