use bpsim::decoder::decode_event;
use bpsim::driver::{gen_predictors, AnyPredictor, Driver};
use bpsim::predictor::{GshareBp, NoneTakenBp, Predictor};
use bpsim::yags::Yags1Bp;

fn encode_record(addr: u64, taken: bool, delta: u16) -> [u8; 8] {
    let mut e: u64 = addr & 0xFFFF_FFFF_FFFF;
    e |= ((delta as u64) & 0x7FFF) << 48;
    if taken {
        e |= 1 << 63;
    }
    e.to_le_bytes()
}

#[test]
fn driver_counts_events_and_instructions() {
    let mut driver = Driver::new(vec![AnyPredictor::NoneTaken(NoneTakenBp::new())]);
    driver.process_event(decode_event(&encode_record(0x40, true, 3)));
    driver.process_event(decode_event(&encode_record(0x40, false, 0)));
    driver.process_event(decode_event(&encode_record(0x80, true, 10)));
    assert_eq!(driver.event_count(), 3);
    // Each event retires its delta plus the branch itself.
    assert_eq!(driver.instret_count(), 4 + 1 + 11);
    let reports = driver.reports();
    assert_eq!(reports.len(), 1);
    assert_eq!(reports[0].3, 2);
}

#[test]
fn synthetic_trace_converges() {
    // A 2000-event trace alternating two perfectly predictable branches:
    // one always taken, one never taken. Gshare and YAGS1 converge after
    // their cold-start misses, while the baseline misses every taken
    // event.
    let a: u64 = 0x246; // always taken
    let b: u64 = 0x46A; // never taken

    let mut driver = Driver::new(vec![
        AnyPredictor::NoneTaken(NoneTakenBp::new()),
        AnyPredictor::Gshare(GshareBp::new(1)),
        AnyPredictor::Yags1(Yags1Bp::new(2, 2, 4)),
    ]);

    for _ in 0..1000 {
        driver.process_event(decode_event(&encode_record(a, true, 0)));
        driver.process_event(decode_event(&encode_record(b, false, 0)));
    }

    assert_eq!(driver.event_count(), 2000);
    assert_eq!(driver.instret_count(), 2000);

    let reports = driver.reports();
    assert_eq!(reports.len(), 3);
    let none_taken_misses = reports[0].3;
    let gshare_misses = reports[1].3;
    let yags1_misses = reports[2].3;

    // The baseline misses exactly on the 1000 taken events at address A.
    assert_eq!(none_taken_misses, 1000);
    assert!(gshare_misses <= 2);
    assert!(yags1_misses <= 2);
}

#[test]
fn gen_predictors_default_mix() {
    let predictors = gen_predictors();
    assert_eq!(predictors.len(), 20);

    let mut driver = Driver::new(predictors);
    driver.process_event(decode_event(&encode_record(0x246, true, 0)));
    let reports = driver.reports();
    assert_eq!(reports.len(), 20);
    for d in 0..5usize {
        let expected = [
            ("YAGS1", (1usize << 13) * 2 + (1usize << (13 - d)) * (2 + 6)),
            ("YAGS2", (1usize << 13) * 2 + (1usize << (13 - d)) * (2 + 6)),
            ("YAGS3", (1usize << 13) * 2 + (1usize << (13 - d)) * 2 * (3 + 6)),
            ("YAGS4", (1usize << 13) * 2 + (1usize << (13 - d)) * 2 * (3 + 6)),
        ];
        for k in 0..4usize {
            let (name, config, size, _) = &reports[4 * d + k];
            assert_eq!(name, expected[k].0);
            assert_eq!(config, &vec![13, 13 - d, 6]);
            assert_eq!(*size, expected[k].1);
        }
    }
}

#[test]
fn predictors_are_independent() {
    // Two copies of the same algorithm in one driver stay in lockstep,
    // and a third predictor between them does not disturb either.
    let mut driver = Driver::new(vec![
        AnyPredictor::Yags1(Yags1Bp::new(4, 4, 6)),
        AnyPredictor::NoneTaken(NoneTakenBp::new()),
        AnyPredictor::Yags1(Yags1Bp::new(4, 4, 6)),
    ]);
    let pattern = [true, false, true, true, false, true, false, false];
    for (k, &t) in pattern.iter().cycle().take(200).enumerate() {
        let addr = if k % 2 == 0 { 0x24 } else { 0x58 };
        driver.process_event(decode_event(&encode_record(addr, t, 1)));
    }
    let reports = driver.reports();
    assert_eq!(reports[0].3, reports[2].3);
}
