use ping_exporter::addr::Address;
use ping_exporter::probe::{ProbeOutcome, Round};
use ping_exporter::target::Target;

fn at(id: &str, bits: u32) -> Target {
    Target { identity: id.to_string(), address: Some(Address::V4(bits)) }
}

fn named(id: &str) -> Target {
    Target { identity: id.to_string(), address: None }
}

fn describe(o: &ProbeOutcome) -> String {
    match o {
        ProbeOutcome::Success { target, rtt_us } => format!("{} ok {}", target.identity, rtt_us),
        ProbeOutcome::Timeout { target } => format!("{} timeout", target.identity),
        ProbeOutcome::TransportError { target, cause } => {
            format!("{} error {}", target.identity, cause)
        }
    }
}

fn summary(outcomes: &[ProbeOutcome]) -> Vec<String> {
    outcomes.iter().map(describe).collect()
}

#[test]
fn a_round_starts_with_every_target_pending() {
    let round = Round::begin(&vec![at("a", 1), named("b")]);
    assert_eq!(round.len(), 2);
    assert!(round.is_pending(0) && round.is_pending(1));
    assert_eq!(round.address(0), Some(Address::V4(1)));
    assert_eq!(round.address(1), None);
    assert_eq!(round.target(1).identity, "b");
    assert!(!round.is_complete());
}

#[test]
fn an_empty_round_is_complete() {
    let round = Round::begin(&Vec::new());
    assert!(round.is_complete());
    assert!(round.finish().is_empty());
}

#[test]
fn every_target_yields_exactly_one_outcome() {
    let targets = vec![at("a", 1), at("b", 2), named("c"), at("d", 4)];
    let mut round = Round::begin(&targets);
    assert!(round.reply(Address::V4(2), 1_500));
    assert!(round.idle(Address::V4(1)));
    round.fail(2, "no such host".to_string());
    let outcomes = round.finish();
    assert_eq!(outcomes.len(), targets.len());
    for (o, t) in outcomes.iter().zip(targets.iter()) {
        assert_eq!(o.target().identity, t.identity);
        assert_eq!(o.target().address, t.address);
    }
    assert_eq!(
        summary(&outcomes),
        vec!["a timeout", "b ok 1500", "c error no such host", "d timeout"]
    );
}

#[test]
fn the_first_word_on_a_target_stands() {
    let mut round = Round::begin(&vec![at("a", 1)]);
    assert!(round.reply(Address::V4(1), 10));
    assert!(!round.reply(Address::V4(1), 99));
    assert!(!round.idle(Address::V4(1)));
    round.fail(0, "late".to_string());
    assert!(round.is_complete());
    assert_eq!(summary(&round.finish()), vec!["a ok 10"]);
}

#[test]
fn a_reply_from_an_unknown_address_is_not_taken() {
    let mut round = Round::begin(&vec![at("a", 1)]);
    assert!(!round.reply(Address::V4(2), 10));
    assert!(!round.reply(Address::V6(1), 10));
    assert!(!round.idle(Address::V4(3)));
    assert!(round.is_pending(0));
    assert_eq!(summary(&round.finish()), vec!["a timeout"]);
}

#[test]
fn a_resolved_name_takes_replies_at_its_address() {
    let mut round = Round::begin(&vec![named("gw"), at("10.0.0.9", 9)]);
    round.resolve(0, Address::V4(9));
    round.resolve(1, Address::V4(77));
    assert_eq!(round.address(0), Some(Address::V4(9)));
    assert_eq!(round.address(1), Some(Address::V4(9)));
    assert!(round.reply(Address::V4(9), 250));
    assert!(round.is_complete());
    assert_eq!(summary(&round.finish()), vec!["gw ok 250", "10.0.0.9 ok 250"]);
}

#[test]
fn an_unresolved_name_times_out_unless_it_failed() {
    let mut round = Round::begin(&vec![named("x"), named("y")]);
    round.fail(1, "lookup failed".to_string());
    assert!(!round.is_complete());
    assert_eq!(summary(&round.finish()), vec!["x timeout", "y error lookup failed"]);
}

#[test]
fn idle_marks_only_pending_slots_at_the_address() {
    let mut round = Round::begin(&vec![at("a", 1), at("b", 2), at("c", 1)]);
    assert!(round.idle(Address::V4(1)));
    assert!(!round.is_pending(0));
    assert!(round.is_pending(1));
    assert!(!round.is_pending(2));
    assert!(round.reply(Address::V4(2), 0));
    assert!(round.is_complete());
    assert_eq!(summary(&round.finish()), vec!["a timeout", "b ok 0", "c timeout"]);
}

#[test]
fn the_round_keeps_its_own_targets() {
    let mut targets = vec![at("a", 1)];
    let round = Round::begin(&targets);
    targets.push(at("b", 2));
    targets[0].identity = "changed".to_string();
    assert_eq!(round.len(), 1);
    assert_eq!(summary(&round.finish()), vec!["a timeout"]);
}
