use endpoint_accounts::user_traffic::json::escape_json_into;
use endpoint_accounts::user_traffic::{render_json, Usage, UserTraffic};
use std::sync::Arc;

fn user(name: &str) -> Arc<str> {
    Arc::from(name)
}

fn usage_of(drained: &[(Arc<str>, Usage)], name: &str) -> Option<Usage> {
    drained
        .iter()
        .find(|(u, _)| &**u == name)
        .map(|(_, usage)| *usage)
}

#[test]
fn renders_usage_as_json() {
    let rendered = render_json(&[(
        user("alice"),
        Usage {
            uplink: 10,
            downlink: 20,
        },
    )]);
    assert_eq!(rendered, r#"{"alice":{"uplink":10,"downlink":20}}"#);
}

#[test]
fn renders_nothing_as_an_empty_object() {
    // A quiet minute is normal and must not read as a broken response.
    assert_eq!(render_json(&[]), "{}");
}

#[test]
fn a_username_cannot_break_out_of_the_json() {
    // Usernames come from an operator, so they are untrusted text as far as this formatter is
    // concerned: one containing a quote must not be able to forge extra fields.
    let rendered = render_json(&[(
        user(r#"ev"il\x"#),
        Usage {
            uplink: 1,
            downlink: 2,
        },
    )]);
    assert_eq!(rendered, r#"{"ev\"il\\x":{"uplink":1,"downlink":2}}"#);
}

#[test]
fn control_characters_are_escaped() {
    let rendered = render_json(&[(user("a\nb\u{1}"), Usage::default())]);
    assert_eq!(rendered, r#"{"a\nb\u0001":{"uplink":0,"downlink":0}}"#);
}

#[test]
fn every_kind_of_escape_is_written() {
    let rendered = render_json(&[(user("\r\t\u{1f}\u{b}\u{7f}é€😀/"), Usage::default())]);
    assert_eq!(
        rendered,
        "{\"\\r\\t\\u001f\\u000b\u{7f}é€😀/\":{\"uplink\":0,\"downlink\":0}}"
    );
}

#[test]
fn escaping_goes_text_by_text() {
    let mut whole = String::from("kept:");
    escape_json_into("a\"\u{2}\\b\n", &mut whole);
    let mut parts = String::from("kept:");
    for part in ["a\"", "", "\u{2}\\", "b\n"] {
        escape_json_into(part, &mut parts);
    }
    assert_eq!(whole, r#"kept:a\"\u0002\\b\n"#);
    assert_eq!(parts, whole);
}

#[test]
fn members_are_separated_by_commas() {
    let rendered = render_json(&[
        (
            user("a"),
            Usage {
                uplink: 9,
                downlink: 10,
            },
        ),
        (
            user(""),
            Usage {
                uplink: u64::MAX,
                downlink: 1_000_000,
            },
        ),
        (user("c"), Usage::default()),
    ]);
    assert_eq!(
        rendered,
        concat_rows(&[
            r#""a":{"uplink":9,"downlink":10}"#,
            r#""":{"uplink":18446744073709551615,"downlink":1000000}"#,
            r#""c":{"uplink":0,"downlink":0}"#,
        ])
    );
}

fn concat_rows(rows: &[&str]) -> String {
    format!("{{{}}}", rows.join(","))
}

#[test]
fn only_a_usage_without_bytes_is_zero() {
    assert!(Usage::default().is_zero());
    let up = Usage {
        uplink: 1,
        downlink: 0,
    };
    let down = Usage {
        uplink: 0,
        downlink: 1,
    };
    assert!(!up.is_zero());
    assert!(!down.is_zero());
}

#[test]
fn counts_each_direction_separately() {
    let mut traffic = UserTraffic::new();
    let alice = traffic.counter_for(&user("alice"));

    traffic.counter(&alice).add_uplink(100);
    traffic.counter(&alice).add_downlink(900);

    let drained = traffic.drain();
    assert_eq!(
        usage_of(&drained, "alice"),
        Some(Usage {
            uplink: 100,
            downlink: 900
        })
    );
}

#[test]
fn traffic_from_two_connections_by_one_user_adds_up() {
    let mut traffic = UserTraffic::new();
    let name = user("alice");

    // Two connections, each taking its own handle.
    let first = traffic.counter_for(&name);
    let second = traffic.counter_for(&name);
    traffic.counter(&first).add_uplink(10);
    traffic.counter(&second).add_uplink(32);

    assert_eq!(
        usage_of(&traffic.drain(), "alice").map(|u| u.uplink),
        Some(42)
    );
}

#[test]
fn a_drain_takes_everything_once() {
    let mut traffic = UserTraffic::new();
    let alice = traffic.counter_for(&user("alice"));
    traffic.counter(&alice).add_uplink(50);

    assert_eq!(
        usage_of(&traffic.drain(), "alice").map(|u| u.uplink),
        Some(50)
    );
    // The whole point: a panel that asks twice must not be told 50 twice.
    assert_eq!(usage_of(&traffic.drain(), "alice"), None);
}

#[test]
fn a_live_connection_keeps_counting_after_a_drain() {
    let mut traffic = UserTraffic::new();
    let alice = traffic.counter_for(&user("alice"));

    traffic.counter(&alice).add_uplink(10);
    traffic.drain();
    traffic.counter(&alice).add_uplink(7);

    assert_eq!(
        usage_of(&traffic.drain(), "alice").map(|u| u.uplink),
        Some(7)
    );
}

#[test]
fn a_departed_user_stops_costing_memory() {
    let mut traffic = UserTraffic::new();
    {
        let alice = traffic.counter_for(&user("alice"));
        traffic.counter(&alice).add_uplink(10);
        traffic.release(alice);
    } // connection ends, handle given back

    // The first drain still reports the traffic...
    assert_eq!(
        usage_of(&traffic.drain(), "alice").map(|u| u.uplink),
        Some(10)
    );
    // ...and then the entry goes, rather than accumulating one per user the endpoint has ever
    // seen.
    assert_eq!(traffic.tracked_users(), 0);
}

#[test]
fn a_connected_user_is_kept_even_with_nothing_to_report() {
    let mut traffic = UserTraffic::new();
    let _alice = traffic.counter_for(&user("alice"));

    assert!(traffic.drain().is_empty());
    // Still connected, so the handle must stay valid to add to.
    assert_eq!(traffic.tracked_users(), 1);
}

#[test]
fn users_are_kept_apart() {
    let mut traffic = UserTraffic::new();
    let alice = traffic.counter_for(&user("alice"));
    traffic.counter(&alice).add_uplink(1);
    traffic.release(alice);
    let bob = traffic.counter_for(&user("bob"));
    traffic.counter(&bob).add_uplink(2);
    traffic.release(bob);

    let drained = traffic.drain();
    assert_eq!(usage_of(&drained, "alice").map(|u| u.uplink), Some(1));
    assert_eq!(usage_of(&drained, "bob").map(|u| u.uplink), Some(2));
}

#[test]
fn every_byte_is_reported_once_whenever_a_drain_lands() {
    let mut traffic = UserTraffic::new();
    let name = user("alice");
    let mut total = 0;
    for round in 0..100u64 {
        let first = traffic.counter_for(&name);
        let second = traffic.counter_for(&name);
        traffic.counter(&first).add_uplink(round);
        if round % 3 == 0 {
            total += traffic.drain().iter().map(|(_, u)| u.uplink).sum::<u64>();
        }
        traffic.counter(&second).add_uplink(1);
        traffic.release(first);
        if round % 7 == 0 {
            total += traffic.drain().iter().map(|(_, u)| u.uplink).sum::<u64>();
        }
        traffic.counter(&second).add_uplink(2);
        traffic.release(second);
    }
    total += traffic.drain().iter().map(|(_, u)| u.uplink).sum::<u64>();
    assert_eq!(total, 4950 + 300);
    assert_eq!(traffic.tracked_users(), 0);
}

#[test]
fn a_counter_wraps_round() {
    let mut traffic = UserTraffic::default();
    let alice = traffic.counter_for(&user("alice"));
    traffic.counter(&alice).add_uplink(u64::MAX);
    traffic.counter(&alice).add_uplink(6);
    traffic.counter(&alice).add_downlink(u64::MAX);
    assert_eq!(
        usage_of(&traffic.drain(), "alice"),
        Some(Usage {
            uplink: 5,
            downlink: u64::MAX
        })
    );
}

#[test]
fn a_snapshot_resets_nothing() {
    let mut traffic = UserTraffic::new();
    let alice = traffic.counter_for(&user("alice"));
    let _bob = traffic.counter_for(&user("bob"));
    traffic.counter(&alice).add_downlink(3);

    for _ in 0..2 {
        let rows = traffic.snapshot();
        assert_eq!(rows.len(), 2);
        assert_eq!(usage_of(&rows, "bob"), Some(Usage::default()));
        assert_eq!(
            usage_of(&rows, "alice"),
            Some(Usage {
                uplink: 0,
                downlink: 3
            })
        );
    }
    assert_eq!(traffic.drain().len(), 1);
}

#[test]
fn a_free_place_is_used_again_without_mixing_users() {
    let mut traffic = UserTraffic::new();
    let alice = traffic.counter_for(&user("alice"));
    let bob = traffic.counter_for(&user("bob"));
    traffic.counter(&alice).add_uplink(1);
    traffic.release(alice);
    assert_eq!(traffic.drain().len(), 1);

    let carol = traffic.counter_for(&user("carol"));
    traffic.counter(&carol).add_uplink(5);
    traffic.counter(&bob).add_uplink(7);
    assert_eq!(traffic.tracked_users(), 2);
    let drained = traffic.drain();
    assert_eq!(usage_of(&drained, "alice"), None);
    assert_eq!(usage_of(&drained, "bob").map(|u| u.uplink), Some(7));
    assert_eq!(usage_of(&drained, "carol").map(|u| u.uplink), Some(5));
}

#[test]
fn a_new_connection_joins_the_counter_of_a_drained_one() {
    let mut traffic = UserTraffic::new();
    let old = traffic.counter_for(&user("alice"));
    traffic.counter(&old).add_uplink(1);
    for _ in 0..3 {
        traffic.drain();
    }
    let fresh = traffic.counter_for(&user("alice"));
    traffic.counter(&old).add_uplink(2);
    traffic.counter(&fresh).add_uplink(3);
    let drained = traffic.drain();
    assert_eq!(drained.len(), 1);
    assert_eq!(usage_of(&drained, "alice").map(|u| u.uplink), Some(5));
}

#[test]
fn a_drain_keeps_exactly_the_connected() {
    let mut traffic = UserTraffic::new();
    let first = traffic.counter_for(&user("alice"));
    let second = traffic.counter_for(&user("alice"));
    let bob = traffic.counter_for(&user("bob"));
    traffic.drain();
    traffic.release(first);
    traffic.release(bob);
    traffic.drain();
    let rows = traffic.snapshot();
    assert_eq!(rows.len(), 1);
    assert_eq!(usage_of(&rows, "alice"), Some(Usage::default()));
    traffic.release(second);
    traffic.drain();
    assert!(traffic.snapshot().is_empty());
}

#[test]
fn connections_are_counted_per_user() {
    let mut traffic = UserTraffic::new();
    assert_eq!(traffic.connections("alice"), 0);
    let first = traffic.counter_for(&user("alice"));
    let second = traffic.counter_for(&user("alice"));
    assert_eq!(traffic.connections("alice"), 2);
    assert_eq!(traffic.connections("bob"), 0);
    traffic.release(first);
    traffic.drain();
    assert_eq!(traffic.connections("alice"), 1);
    traffic.release(second);
    assert_eq!(traffic.connections("alice"), 0);
    assert_eq!(traffic.tracked_users(), 1);
    traffic.drain();
    assert_eq!(traffic.tracked_users(), 0);
}
