use cw721_rate_limited_proxy::decimal::decimal;
use cw721_rate_limited_proxy::random_rate;
use cw721_rate_limited_proxy::{App, Rate, RateLimitExceeded, ReceiveMsg, Test, START_HEIGHT};

#[test]
fn simple_send() {
    let mut test = Test::new(1, Rate::Blocks(1));
    test.send_nft_and_check_received(test.cw721s[0].clone())
        .unwrap()
}

#[test]
fn test_simple() {
    let rng = &mut rand::thread_rng();
    let expected = Rate::PerBlock(2);
    let actual = Rate::Blocks(1);
    let mut test = Test::new(10, expected);
    test.send_nfts_at_rate(rng, actual, 1).unwrap();
}

#[test]
fn fuzz_rate_limiting() {
    let iterations = 500;
    let max = 5;
    let range = 1..max;
    let rng = &mut rand::thread_rng();

    let limit = random_rate(rng, range.clone());
    let mut test = Test::new(max as usize, limit);

    for _ in 0..iterations {
        let actual = random_rate(rng, range.clone());
        let res = test.send_nfts_at_rate(rng, actual, max as usize);
        let pass = match actual > limit {
            true => res.is_err(),
            false => res.is_ok(),
        };
        if !pass {
            panic!(
                "test failed on (limit, actual) = ({:?}, {:?})",
                limit, actual
            )
        }

        // Open state for next iteration.
        if let Rate::Blocks(blocks) = limit {
            test.app.advance(blocks);
        } else {
            test.app.next_block()
        }
    }
}

#[test]
fn every_pair_of_small_rates_fails_exactly_when_it_exceeds() {
    let rng = &mut rand::thread_rng();
    let max: u64 = 5;
    let mut rates = Vec::new();
    for v in 1..max {
        rates.push(Rate::PerBlock(v));
        rates.push(Rate::Blocks(v));
    }
    for limit in rates.iter() {
        for actual in rates.iter() {
            let mut test = Test::new(max as usize, *limit);
            let res = test.send_nfts_at_rate(rng, *actual, max as usize);
            assert_eq!(
                res.is_err(),
                actual.exceeds(limit),
                "limit {:?}, actual {:?}",
                limit,
                actual
            );
            if let Err(e) = res {
                assert_eq!(e, RateLimitExceeded);
            }
        }
    }
}

#[test]
fn new_bench_starts_open_with_named_collections() {
    let test = Test::new(3, Rate::Blocks(4));
    assert_eq!(START_HEIGHT, 12_345);
    assert_eq!(test.app.height(), START_HEIGHT + 4);
    assert_eq!(test.minter, "minter");
    assert_eq!(test.rate_limiter, "rate_limiter");
    assert_eq!(test.mock_receiver, "proxy_tester");
    assert_eq!(test.cw721s, vec!["cw721 0", "cw721 1", "cw721 2"]);
    assert_eq!(test.nfts_minted, 0);
    assert!(test.app.last_msg().is_none());
    let proxy = test.app.rate_limiter();
    assert_eq!(proxy.engine().policy(), Rate::Blocks(4));
    assert_eq!(proxy.engine().state().last_tick, START_HEIGHT);
    assert_eq!(proxy.engine().state().count_in_tick, 0);
    assert_eq!(
        proxy.gateway().origin().as_deref(),
        Some("proxy_tester")
    );
}

#[test]
fn bench_without_collections_can_still_be_built() {
    let test = Test::new(0, Rate::PerBlock(1));
    assert!(test.cw721s.is_empty());
}

#[test]
fn receiver_gets_sender_token_and_encoded_payload() {
    let mut test = Test::new(2, Rate::PerBlock(5));
    test.send_nft_and_check_received(test.cw721s[1].clone())
        .unwrap();
    let got = test.app.last_msg().clone().unwrap();
    assert_eq!(got.sender_identity, "cw721 1");
    assert_eq!(got.payload.sender, "minter");
    assert_eq!(got.payload.token_id, "1");
    // The payload is the JSON text of the string, quotes included.
    assert_eq!(got.payload.msg, b"\"hello\"".to_vec());
    assert_ne!(got.payload.msg, b"hello".to_vec());

    test.send_nft_and_check_received(test.cw721s[0].clone())
        .unwrap();
    let got = test.app.last_msg().clone().unwrap();
    assert_eq!(got.sender_identity, "cw721 0");
    assert_eq!(got.payload.token_id, "2");
    assert_eq!(test.nfts_minted, 2);
}

#[test]
fn rejected_send_leaves_the_chain_alone_but_counts_the_token() {
    let mut test = Test::new(1, Rate::PerBlock(1));
    test.send_nft_and_check_received(test.cw721s[0].clone())
        .unwrap();
    let before = test.app.clone();
    let res = test.send_nft_and_check_received(test.cw721s[0].clone());
    assert_eq!(res, Err(RateLimitExceeded));
    assert_eq!(test.app, before);
    assert_eq!(test.nfts_minted, 2);
    assert_eq!(
        test.app.last_msg().clone().unwrap().payload.token_id,
        "1"
    );
}

#[test]
fn scenario_spacing_of_one_admits_one_attempt_in_each_of_four_ticks() {
    let mut test = Test::new(1, Rate::Blocks(1));
    let start = test.app.height();
    for tick in 0..4u64 {
        assert_eq!(test.app.height(), start + tick);
        assert_eq!(
            test.send_nft_and_check_received(test.cw721s[0].clone()),
            Ok(())
        );
        test.app.next_block();
    }
    assert_eq!(test.nfts_minted, 4);
}

#[test]
fn scenario_two_per_tick_rejects_the_third_attempt_of_a_tick() {
    let mut test = Test::new(1, Rate::PerBlock(2));
    assert_eq!(
        test.send_nft_and_check_received(test.cw721s[0].clone()),
        Ok(())
    );
    assert_eq!(
        test.send_nft_and_check_received(test.cw721s[0].clone()),
        Ok(())
    );
    assert_eq!(
        test.send_nft_and_check_received(test.cw721s[0].clone()),
        Err(RateLimitExceeded)
    );
}

#[test]
fn scenario_spacing_of_two_rejects_the_tick_after_an_admission() {
    let mut test = Test::new(1, Rate::Blocks(2));
    assert_eq!(
        test.send_nft_and_check_received(test.cw721s[0].clone()),
        Ok(())
    );
    test.app.next_block();
    assert_eq!(
        test.send_nft_and_check_received(test.cw721s[0].clone()),
        Err(RateLimitExceeded)
    );
}

#[test]
fn drive_stops_at_the_tick_of_the_rejected_attempt() {
    let rng = &mut rand::thread_rng();
    let mut test = Test::new(3, Rate::Blocks(3));
    let start = test.app.height();
    // Attempts fall due at offsets 0, 2, 4; the one at offset 2 is too early.
    let res = test.send_nfts_at_rate(rng, Rate::Blocks(2), 5);
    assert_eq!(res, Err(RateLimitExceeded));
    assert_eq!(test.app.height(), start + 2);
    assert_eq!(test.nfts_minted, 2);
    assert_eq!(test.app.rate_limiter().engine().state().last_tick, start);
    assert_eq!(
        test.app.last_msg().clone().unwrap().payload.token_id,
        "1"
    );
}

#[test]
fn drive_within_the_limit_runs_to_its_end() {
    let rng = &mut rand::thread_rng();
    let mut test = Test::new(3, Rate::PerBlock(3));
    assert_eq!(test.app.height(), START_HEIGHT);
    let res = test.send_nfts_at_rate(rng, Rate::PerBlock(2), 4);
    assert_eq!(res, Ok(()));
    assert_eq!(test.app.height(), START_HEIGHT + 4);
    assert_eq!(test.nfts_minted, 8);
    let state = test.app.rate_limiter().engine().state();
    assert_eq!(state.last_tick, START_HEIGHT + 3);
    assert_eq!(state.count_in_tick, 2);
    let got = test.app.last_msg().clone().unwrap();
    assert_eq!(got.payload.token_id, "8");
    assert!(test.cw721s.contains(&got.sender_identity));
}

#[test]
fn drive_of_no_ticks_does_nothing() {
    let rng = &mut rand::thread_rng();
    let mut test = Test::new(0, Rate::PerBlock(1));
    let before = test.clone();
    assert_eq!(test.send_nfts_at_rate(rng, Rate::PerBlock(7), 0), Ok(()));
    assert_eq!(test, before);
}

#[test]
fn picks_come_from_the_collections_and_vary() {
    let rng = &mut rand::thread_rng();
    let mut test = Test::new(4, Rate::PerBlock(1));
    let mut seen = Vec::new();
    for _ in 0..200 {
        test.send_nfts_at_rate(rng, Rate::PerBlock(1), 1).unwrap();
        let got = test.app.last_msg().clone().unwrap();
        assert!(test.cw721s.contains(&got.sender_identity));
        if !seen.contains(&got.sender_identity) {
            seen.push(got.sender_identity);
        }
    }
    assert!(seen.len() > 1);
}

#[test]
fn fresh_chain_has_its_proxy_closed_under_a_spacing() {
    let mut app = App::new(Rate::Blocks(3), "receiver".to_string()).unwrap();
    assert_eq!(app.height(), START_HEIGHT);
    assert_eq!(app.rate_limiter().engine().state().last_tick, START_HEIGHT);
    let msg = ReceiveMsg {
        sender: "minter".to_string(),
        token_id: "1".to_string(),
        msg: vec![1, 2, 3],
    };
    assert_eq!(
        app.send_nft("collection".to_string(), msg.clone()),
        Err(RateLimitExceeded)
    );
    assert!(app.last_msg().is_none());
    app.advance(2);
    assert_eq!(
        app.send_nft("collection".to_string(), msg.clone()),
        Err(RateLimitExceeded)
    );
    app.next_block();
    assert_eq!(app.send_nft("collection".to_string(), msg.clone()), Ok(()));
    let got = app.last_msg().clone().unwrap();
    assert_eq!(got.sender_identity, "collection");
    assert_eq!(got.payload, msg);
    assert!(App::new(Rate::Blocks(0), "receiver".to_string()).is_err());
}

#[test]
fn fresh_chain_has_its_proxy_open_under_a_count() {
    let mut app = App::new(Rate::PerBlock(1), "receiver".to_string()).unwrap();
    let msg = ReceiveMsg {
        sender: "minter".to_string(),
        token_id: "1".to_string(),
        msg: Vec::new(),
    };
    assert_eq!(app.send_nft("collection".to_string(), msg.clone()), Ok(()));
    assert_eq!(
        app.send_nft("collection".to_string(), msg),
        Err(RateLimitExceeded)
    );
}

#[test]
fn bench_starts_open_whatever_its_rate() {
    for rate in [
        Rate::PerBlock(1),
        Rate::PerBlock(u64::MAX),
        Rate::Blocks(1),
        Rate::Blocks(7),
        Rate::Blocks(START_HEIGHT + 1),
        Rate::Blocks(u64::MAX - START_HEIGHT),
    ] {
        let mut test = Test::new(1, rate);
        let waited = match rate {
            Rate::PerBlock(_) => 0,
            Rate::Blocks(b) => b,
        };
        assert_eq!(test.app.height(), START_HEIGHT + waited);
        assert_eq!(
            test.app.rate_limiter().engine().state().last_tick,
            START_HEIGHT
        );
        assert_eq!(
            test.send_nft_and_check_received(test.cw721s[0].clone()),
            Ok(())
        );
    }
}

#[test]
fn collections_have_names_of_their_own() {
    let test = Test::new(12, Rate::PerBlock(2));
    assert_eq!(test.cw721s.len(), 12);
    assert_eq!(test.cw721s[9], "cw721 9");
    assert_eq!(test.cw721s[10], "cw721 10");
    assert_eq!(test.cw721s[11], "cw721 11");
    let mut all = test.cw721s.clone();
    all.push(test.minter.clone());
    all.push(test.rate_limiter.clone());
    all.push(test.mock_receiver.clone());
    for i in 0..all.len() {
        for j in 0..i {
            assert_ne!(all[i], all[j]);
        }
    }
}

#[test]
fn drive_within_the_limit_goes_through_at_any_length() {
    let rng = &mut rand::thread_rng();
    for for_blocks in 0..12 {
        let mut test = Test::new(2, Rate::Blocks(3));
        assert_eq!(
            test.send_nfts_at_rate(rng, Rate::Blocks(4), for_blocks),
            Ok(())
        );
        let mut test = Test::new(2, Rate::PerBlock(2));
        assert_eq!(
            test.send_nfts_at_rate(rng, Rate::PerBlock(2), for_blocks),
            Ok(())
        );
    }
}

#[test]
fn drive_above_the_limit_fails_once_it_is_long_enough() {
    let rng = &mut rand::thread_rng();
    for for_blocks in 0..12 {
        // A spacing of 2 against a limit of 3: the second attempt, at offset
        // 2, is the first that can be rejected.
        let mut test = Test::new(2, Rate::Blocks(3));
        let res = test.send_nfts_at_rate(rng, Rate::Blocks(2), for_blocks);
        assert_eq!(res.is_err(), for_blocks > 2);
        // One a tick against a spacing of 2: rejected in the second tick.
        let mut test = Test::new(2, Rate::Blocks(2));
        let res = test.send_nfts_at_rate(rng, Rate::PerBlock(1), for_blocks);
        assert_eq!(res.is_err(), for_blocks >= 2);
    }
}

#[test]
fn tokens_are_numbered_in_decimal() {
    assert_eq!(decimal(0), "0");
    assert_eq!(decimal(7), "7");
    assert_eq!(decimal(10), "10");
    assert_eq!(decimal(1_203_405), "1203405");
    assert_eq!(decimal(usize::MAX), usize::MAX.to_string());
    for n in 0..2_000usize {
        assert_eq!(decimal(n), n.to_string());
    }
}

#[test]
fn one_per_block_bench_and_every_block_bench_get_as_far() {
    let rng = &mut rand::thread_rng();
    for rate in [Rate::PerBlock(1), Rate::Blocks(1), Rate::PerBlock(2), Rate::Blocks(3)] {
        let mut a = Test::new(2, Rate::PerBlock(1));
        let mut b = Test::new(2, Rate::Blocks(1));
        let (start_a, start_b) = (a.app.height(), b.app.height());
        let res_a = a.send_nfts_at_rate(rng, rate, 6);
        let res_b = b.send_nfts_at_rate(rng, rate, 6);
        assert_eq!(res_a, res_b);
        assert_eq!(a.nfts_minted, b.nfts_minted);
        assert_eq!(a.app.height() - start_a, b.app.height() - start_b);
    }
}

#[test]
fn random_rates_lie_in_their_range_and_vary() {
    let rng = &mut rand::thread_rng();
    let mut values = Vec::new();
    let mut spacing = 0;
    let mut counting = 0;
    for _ in 0..400 {
        let (v, is_spacing) = match random_rate(rng, 1..5) {
            Rate::Blocks(v) => (v, true),
            Rate::PerBlock(v) => (v, false),
        };
        assert!((1..5).contains(&v));
        if is_spacing {
            spacing += 1;
        } else {
            counting += 1;
        }
        if !values.contains(&v) {
            values.push(v);
        }
    }
    assert!(values.len() > 1);
    assert!(spacing > 0 && counting > 0);
    match random_rate(rng, 7..8) {
        Rate::Blocks(v) | Rate::PerBlock(v) => assert_eq!(v, 7),
    }
}
