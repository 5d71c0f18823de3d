use cw721_rate_limited_proxy::cadence::attempts_due;
use cw721_rate_limited_proxy::payload::encode;
use cw721_rate_limited_proxy::random::rate_from_draw;
use cw721_rate_limited_proxy::{
    AdmissionEngine, AdmissionState, Delivery, Dispatch, InvalidPolicy, Rate, RateLimitExceeded,
    RateLimitedProxy, Relay, RelayError, RelayGateway, RelayNotification,
};
use std::cmp::Ordering;

fn outcomes(engine: &mut AdmissionEngine, ticks: &[u64]) -> Vec<bool> {
    ticks.iter().map(|t| engine.try_admit(*t).is_ok()).collect()
}

#[test]
fn zero_is_no_policy() {
    assert_eq!(Rate::per_block(0), Err(InvalidPolicy));
    assert_eq!(Rate::blocks(0), Err(InvalidPolicy));
    assert_eq!(Rate::per_block(3), Ok(Rate::PerBlock(3)));
    assert_eq!(Rate::blocks(1), Ok(Rate::Blocks(1)));
    assert!(!Rate::PerBlock(0).is_valid());
    assert!(!Rate::Blocks(0).is_valid());
    assert!(Rate::PerBlock(1).is_valid());
    assert!(Rate::Blocks(u64::MAX).is_valid());
}

#[test]
fn no_engine_for_an_invalid_policy() {
    assert_eq!(AdmissionEngine::new(Rate::PerBlock(0), 5), Err(InvalidPolicy));
    assert_eq!(AdmissionEngine::new(Rate::Blocks(0), 5), Err(InvalidPolicy));
    let state = AdmissionState { last_tick: 1, count_in_tick: 1 };
    assert_eq!(AdmissionEngine::restore(Rate::Blocks(0), state), Err(InvalidPolicy));
    assert!(RateLimitedProxy::new(Rate::PerBlock(0), None, 0).is_err());
}

#[test]
fn new_engine_holds_its_tick_and_no_count() {
    let engine = AdmissionEngine::new(Rate::PerBlock(2), 17).unwrap();
    assert_eq!(engine.policy(), Rate::PerBlock(2));
    assert_eq!(engine.state(), AdmissionState { last_tick: 17, count_in_tick: 0 });
}

#[test]
fn restored_engine_goes_on_from_its_state() {
    let state = AdmissionState { last_tick: 9, count_in_tick: 2 };
    let mut engine = AdmissionEngine::restore(Rate::PerBlock(2), state).unwrap();
    assert_eq!(engine.state(), state);
    assert_eq!(engine.try_admit(9), Err(RateLimitExceeded));
    assert_eq!(engine.try_admit(10), Ok(()));
    assert_eq!(engine.state(), AdmissionState { last_tick: 10, count_in_tick: 1 });
}

#[test]
fn per_block_counts_within_a_tick_and_resets_on_the_next() {
    let mut engine = AdmissionEngine::new(Rate::PerBlock(2), 0).unwrap();
    assert_eq!(engine.try_admit(0), Ok(()));
    assert_eq!(engine.state(), AdmissionState { last_tick: 0, count_in_tick: 1 });
    assert_eq!(engine.try_admit(0), Ok(()));
    assert_eq!(engine.state(), AdmissionState { last_tick: 0, count_in_tick: 2 });
    assert_eq!(engine.try_admit(0), Err(RateLimitExceeded));
    assert_eq!(engine.state(), AdmissionState { last_tick: 0, count_in_tick: 2 });
    assert_eq!(engine.try_admit(3), Ok(()));
    assert_eq!(engine.state(), AdmissionState { last_tick: 3, count_in_tick: 1 });
}

#[test]
fn per_block_admits_at_most_n_in_each_tick() {
    let mut engine = AdmissionEngine::new(Rate::PerBlock(3), 4).unwrap();
    let ticks = [4, 4, 4, 4, 4, 5, 7, 7, 7, 7, 7, 7, 9];
    let got = outcomes(&mut engine, &ticks);
    for t in [4u64, 5, 7, 9] {
        let admitted = ticks.iter().zip(got.iter()).filter(|(x, ok)| **x == t && **ok).count();
        let asked = ticks.iter().filter(|x| **x == t).count();
        assert_eq!(admitted, asked.min(3));
    }
    assert_eq!(
        got,
        vec![true, true, true, false, false, true, true, true, true, false, false, false, true]
    );
}

#[test]
fn blocks_starts_closed_and_opens_after_its_spacing() {
    let mut engine = AdmissionEngine::new(Rate::Blocks(3), 10).unwrap();
    assert_eq!(engine.try_admit(10), Err(RateLimitExceeded));
    assert_eq!(engine.try_admit(12), Err(RateLimitExceeded));
    assert_eq!(engine.state(), AdmissionState { last_tick: 10, count_in_tick: 0 });
    assert_eq!(engine.try_admit(13), Ok(()));
    assert_eq!(engine.state(), AdmissionState { last_tick: 13, count_in_tick: 0 });
    assert_eq!(engine.try_admit(15), Err(RateLimitExceeded));
    assert_eq!(engine.try_admit(16), Ok(()));
}

#[test]
fn blocks_keeps_admissions_apart() {
    let b = 4;
    let mut engine = AdmissionEngine::new(Rate::Blocks(b), 0).unwrap();
    let ticks: Vec<u64> = (0..40).map(|i| i + i / 7).collect();
    let got = outcomes(&mut engine, &ticks);
    let admitted: Vec<u64> =
        ticks.iter().zip(got.iter()).filter(|(_, ok)| **ok).map(|(t, _)| *t).collect();
    assert!(admitted.len() > 2);
    for pair in admitted.windows(2) {
        assert!(pair[1] - pair[0] >= b);
    }
}

#[test]
fn rejected_attempt_leaves_the_engine_as_it_was() {
    for policy in [Rate::PerBlock(1), Rate::Blocks(5)] {
        let mut engine = AdmissionEngine::new(policy, 100).unwrap();
        let _ = engine.try_admit(105);
        let before = engine;
        assert_eq!(engine.try_admit(105), Err(RateLimitExceeded));
        assert_eq!(engine, before);
    }
}

#[test]
fn one_per_block_and_every_block_decide_alike() {
    let ticks = [1u64, 1, 2, 3, 3, 3, 6, 7, 7, 20];
    let mut per_block = AdmissionEngine::new(Rate::PerBlock(1), 0).unwrap();
    let mut blocks = AdmissionEngine::new(Rate::Blocks(1), 0).unwrap();
    assert_eq!(outcomes(&mut per_block, &ticks), outcomes(&mut blocks, &ticks));
    assert_eq!(per_block.state().last_tick, blocks.state().last_tick);
}

#[test]
fn one_per_block_and_every_block_differ_at_the_tick_of_creation() {
    let mut per_block = AdmissionEngine::new(Rate::PerBlock(1), 0).unwrap();
    let mut blocks = AdmissionEngine::new(Rate::Blocks(1), 0).unwrap();
    assert_eq!(per_block.try_admit(0), Ok(()));
    assert_eq!(blocks.try_admit(0), Err(RateLimitExceeded));
}

#[test]
fn rates_are_ordered_by_speed() {
    assert!(Rate::PerBlock(3) > Rate::PerBlock(2));
    assert!(Rate::Blocks(2) > Rate::Blocks(3));
    assert!(Rate::PerBlock(2) > Rate::Blocks(1));
    assert!(Rate::PerBlock(1) > Rate::Blocks(2));
    assert!(Rate::Blocks(2) < Rate::PerBlock(1));
    assert!(!(Rate::PerBlock(1) > Rate::Blocks(1)));
    assert!(!(Rate::Blocks(1) > Rate::PerBlock(1)));
    assert_eq!(Rate::PerBlock(1).partial_cmp(&Rate::Blocks(1)), None);
    assert_eq!(Rate::Blocks(4).partial_cmp(&Rate::Blocks(4)), Some(Ordering::Equal));
    assert_eq!(Rate::Blocks(4).partial_cmp(&Rate::PerBlock(1)), Some(Ordering::Less));
    assert_eq!(Rate::PerBlock(u64::MAX).partial_cmp(&Rate::Blocks(u64::MAX)), Some(Ordering::Greater));
    assert!(Rate::PerBlock(2).exceeds(&Rate::PerBlock(1)));
    assert!(!Rate::PerBlock(1).exceeds(&Rate::PerBlock(1)));
    assert!(Rate::Blocks(0).exceeds(&Rate::PerBlock(u64::MAX)));
    assert!(!Rate::PerBlock(0).exceeds(&Rate::Blocks(u64::MAX)));
}

#[test]
fn attempts_fall_due_by_cadence() {
    for offset in 0..10 {
        assert_eq!(attempts_due(Rate::PerBlock(3), offset), 3);
        assert_eq!(attempts_due(Rate::PerBlock(0), offset), 0);
        assert_eq!(attempts_due(Rate::Blocks(1), offset), 1);
        assert_eq!(attempts_due(Rate::Blocks(4), offset), if offset % 4 == 0 { 1 } else { 0 });
    }
}

#[test]
fn a_draw_names_its_rate() {
    assert_eq!(rate_from_draw(true, 3), Rate::Blocks(3));
    assert_eq!(rate_from_draw(false, 3), Rate::PerBlock(3));
}

#[test]
fn gateway_without_origin_skips_the_relay() {
    let gateway = RelayGateway::new(None);
    assert_eq!(gateway.origin(), &None);
    assert_eq!(gateway.on_admitted("alice".to_string(), vec![1u8, 2]), Relay::Skipped);
}

#[test]
fn gateway_sends_sender_and_payload_untouched_to_its_origin() {
    let gateway = RelayGateway::new(Some("origin".to_string()));
    assert_eq!(
        gateway.on_admitted("alice".to_string(), vec![1u8, 2, 3]),
        Relay::Send(Dispatch {
            origin: "origin".to_string(),
            notification: RelayNotification {
                sender_identity: "alice".to_string(),
                payload: vec![1u8, 2, 3],
            },
        })
    );
}

#[test]
fn each_delivery_has_its_result() {
    assert_eq!(RelayGateway::on_delivery(Delivery::Delivered), Ok(()));
    assert_eq!(
        RelayGateway::on_delivery(Delivery::Unreachable),
        Err(RelayError::OriginUnreachable)
    );
    assert_eq!(
        RelayGateway::on_delivery(Delivery::Rejected),
        Err(RelayError::OriginRejected)
    );
}

#[test]
fn proxy_relays_what_it_admits_and_nothing_else() {
    let mut proxy = RateLimitedProxy::new(Rate::PerBlock(1), Some("origin".to_string()), 3).unwrap();
    assert_eq!(proxy.engine().policy(), Rate::PerBlock(1));
    assert_eq!(proxy.gateway().origin(), &Some("origin".to_string()));
    let first = proxy.receive(3, "alice".to_string(), 7u32);
    assert_eq!(
        first,
        Ok(Relay::Send(Dispatch {
            origin: "origin".to_string(),
            notification: RelayNotification { sender_identity: "alice".to_string(), payload: 7u32 },
        }))
    );
    let before = proxy.clone();
    // The budget is shared: another sender in the same tick is rejected.
    assert_eq!(proxy.receive(3, "bob".to_string(), 8u32), Err(RateLimitExceeded));
    assert_eq!(proxy, before);
    assert!(proxy.receive(4, "bob".to_string(), 8u32).is_ok());
}

#[test]
fn metering_proxy_admits_without_relaying() {
    let mut proxy = RateLimitedProxy::new(Rate::Blocks(2), None, 0).unwrap();
    assert_eq!(proxy.receive(1, "alice".to_string(), ()), Err(RateLimitExceeded));
    assert_eq!(proxy.receive(2, "alice".to_string(), ()), Ok(Relay::Skipped));
    assert_eq!(proxy.engine().state(), AdmissionState { last_tick: 2, count_in_tick: 0 });
}

#[test]
fn text_is_encoded_as_quoted_and_escaped_json() {
    assert_eq!(encode("hello"), b"\"hello\"".to_vec());
    assert_eq!(encode(""), b"\"\"".to_vec());
    assert_eq!(encode("a\"b\\c\n"), b"\"a\\\"b\\\\c\\n\"".to_vec());
}

#[test]
fn restored_proxy_keeps_policy_state_and_origin() {
    let state = AdmissionState { last_tick: 40, count_in_tick: 0 };
    let mut proxy =
        RateLimitedProxy::restore(Rate::Blocks(10), state, Some("origin".to_string())).unwrap();
    assert_eq!(proxy.engine().policy(), Rate::Blocks(10));
    assert_eq!(proxy.engine().state(), state);
    assert_eq!(proxy.gateway().origin(), &Some("origin".to_string()));
    assert_eq!(proxy.receive(49, "alice".to_string(), 1u8), Err(RateLimitExceeded));
    assert!(proxy.receive(50, "alice".to_string(), 1u8).is_ok());
    assert!(RateLimitedProxy::restore(Rate::PerBlock(0), state, None).is_err());
}
