use bpsim::weighted_bool::{Boolish, Confidence, ProbablyBool, RandomWalkCounter, TwoBitCounter};

#[test]
fn idempodence() {
    // Level 0 sanity - idempodence
    assert!(!TwoBitCounter::new(false).value());
    assert!(TwoBitCounter::new(true).value());
}

#[test]
fn strengthening() {
    // Level 1 sanity - strengthening
    let mut c = TwoBitCounter::new(false);
    c.update(false);
    assert!(!c.value());

    let mut c = TwoBitCounter::new(true);
    c.update(true);
    assert!(c.value());
}

#[test]
fn weak_update() {
    // Level 2 sanity - weak + change
    let mut c = TwoBitCounter::new(false);
    c.update(true);
    assert!(c.value());

    let mut c = TwoBitCounter::new(true);
    c.update(false);
    assert!(!c.value());
}

#[test]
fn strong_update() {
    // Level 3 sanity - strong + change
    let mut c = TwoBitCounter::new(false);
    c.update(false);
    c.update(true);
    assert!(!c.value());

    let mut c = TwoBitCounter::new(true);
    c.update(true);
    c.update(false);
    assert!(c.value());

    // Level 4 sanity - strong + change*2
    let mut c = TwoBitCounter::new(false);
    c.update(false);
    c.update(true);
    c.update(true);
    assert!(c.value());

    let mut c = TwoBitCounter::new(true);
    c.update(true);
    c.update(false);
    c.update(false);
    assert!(!c.value());
}

#[test]
fn probably_bool_idempodence() {
    assert!(!ProbablyBool::new(false).value());
    assert!(ProbablyBool::new(true).value());
}

#[test]
fn probably_bool_strengthening() {
    let mut c = ProbablyBool::new(false);
    c.update(false);
    assert!(!c.value());

    let mut c = ProbablyBool::new(true);
    c.update(true);
    assert!(c.value());
}

#[test]
fn probably_bool_weak_flip() {
    let mut c = ProbablyBool::new(false);
    c.update(true);
    assert!(c.value());

    let mut c = ProbablyBool::new(true);
    c.update(false);
    assert!(!c.value());
}

#[test]
fn probably_bool_strong_resistance() {
    // One agreeing update reinforces; one contrary update then weakens
    // without flipping, and only a second contrary update flips.
    let mut c = ProbablyBool::new(true);
    c.update(true);
    c.update(false);
    assert!(c.value());
    c.update(false);
    assert!(!c.value());

    let mut c = ProbablyBool::new(false);
    c.update(false);
    c.update(true);
    assert!(!c.value());
    c.update(true);
    assert!(c.value());
}

#[test]
fn probably_bool_confidence_ranks() {
    // A fresh counter sits at the weakest rank; deterministic escalation
    // out of it, then roll-gated escalation through the higher ranks.
    let mut c = ProbablyBool::seeded(true);
    assert!(c.value());
    assert!(!c.confident());
    c.update_with_rolls(true, false, false);
    assert!(c.confident());
    assert!(!c.highly_confident());

    // Denied rolls keep the counter below the top rank.
    c.update_with_rolls(true, false, false);
    c.update_with_rolls(true, false, false);
    assert!(!c.highly_confident());

    // Lucky rolls escalate rank by rank to conviction.
    c.update_with_rolls(true, true, false);
    c.update_with_rolls(true, false, true);
    assert!(c.highly_confident());

    // Any disagreement falls out of the high ranks at once.
    c.update_with_rolls(false, false, false);
    assert!(c.value());
    assert!(c.confident());
    assert!(!c.highly_confident());
}

#[test]
fn confidence_is_copy() {
    let a = Confidence::Strong;
    let b = a;
    let _ = a;
    assert!(matches!(b, Confidence::Strong));
}

#[test]
fn random_walk_idempodence() {
    assert!(!RandomWalkCounter::new(false).value());
    assert!(RandomWalkCounter::new(true).value());
}

#[test]
fn random_walk_strengthening() {
    let mut c = RandomWalkCounter::new(false);
    c.update(false);
    assert!(!c.value());

    let mut c = RandomWalkCounter::new(true);
    c.update(true);
    assert!(c.value());
}

#[test]
fn random_walk_weak_flip() {
    let mut c = RandomWalkCounter::new(false);
    c.update(true);
    assert!(c.value());

    let mut c = RandomWalkCounter::new(true);
    c.update(false);
    assert!(!c.value());
}

#[test]
fn random_walk_strong_resistance() {
    let mut c = RandomWalkCounter::new(true);
    c.update(true);
    c.update(false);
    assert!(c.value());
    c.update(false);
    assert!(!c.value());

    let mut c = RandomWalkCounter::new(false);
    c.update(false);
    c.update(true);
    assert!(!c.value());
    c.update(true);
    assert!(c.value());
}

#[test]
fn random_walk_promotion_roll() {
    // Walk a taken-seeded counter up to the 99-confidence state; a denied
    // roll leaves it there (three contrary steps flip it), a granted roll
    // promotes it to the 100-extreme (four contrary steps needed).
    let mut denied = RandomWalkCounter::seeded(true);
    denied.update_with_roll(true, false);
    denied.update_with_roll(true, false);
    denied.update_with_roll(true, false);
    denied.update_with_roll(false, false);
    denied.update_with_roll(false, false);
    assert!(denied.value());
    denied.update_with_roll(false, false);
    assert!(!denied.value());

    let mut granted = RandomWalkCounter::seeded(true);
    granted.update_with_roll(true, false);
    granted.update_with_roll(true, false);
    granted.update_with_roll(true, true);
    granted.update_with_roll(false, false);
    granted.update_with_roll(false, false);
    granted.update_with_roll(false, false);
    assert!(granted.value());
    granted.update_with_roll(false, false);
    assert!(!granted.value());
}
