use mimo_desktop_bridge::usage::{ModelUsage, Tally, Usage, UsageNote, UsageStore};

#[test]
fn usage_is_counted_per_model() {
    let mut u = Usage::load(None);
    assert!(u.record("a", 3, 4, false));
    assert!(u.record("b", 1, 1, false));
    assert!(u.record("a", 9, 9, true));
    assert!(u.record_tokens("a", 10, 20));
    let s = u.snapshot();
    let a = s.get("a");
    assert_eq!((a.requests, a.errors), (1, 1));
    assert_eq!((a.prompt_tokens, a.completion_tokens, a.total_tokens), (13, 24, 37));
    assert!(a.last_used_ms.unwrap() > 1_600_000_000_000);
    assert_eq!((s.total().requests, s.total().errors, s.total().total_tokens), (2, 1, 39));
    assert_eq!(s.get("c"), ModelUsage::default());
    assert_eq!(s.entries().len(), 2);
}

#[test]
fn usage_totals_add_up() {
    let mut u = Usage::load(None);
    for i in 0..20u64 {
        let model = if i % 3 == 0 { "x" } else { "y" };
        u.record(model, i, 2 * i, i % 5 == 0);
        u.record_tokens(model, 1, 1);
    }
    let s = u.snapshot();
    let sum = |f: fn(&ModelUsage) -> u64| s.entries().iter().map(|(_, m)| f(m)).sum::<u64>();
    assert_eq!(s.total().requests, sum(|m| m.requests));
    assert_eq!(s.total().errors, sum(|m| m.errors));
    assert_eq!(s.total().total_tokens, sum(|m| m.total_tokens));
    assert_eq!(s.total().total_tokens, s.total().prompt_tokens + s.total().completion_tokens);
}

#[test]
fn usage_goes_on_from_what_was_kept() {
    let mut kept = UsageStore::default();
    kept.count(
        "m",
        Tally { prompt_tokens: 5, completion_tokens: 6, error: false, count_request: true, now: 1 },
    );
    assert_eq!(kept.get("m").last_used_ms, Some(1));
    let mut u = Usage::load(Some(kept));
    assert!(u.apply("m", UsageNote::Tokens { prompt_tokens: 1, completion_tokens: 1 }));
    assert!(u.apply(
        "m",
        UsageNote::Request { prompt_tokens: 1, completion_tokens: 1, error: false }
    ));
    let m = u.snapshot().get("m");
    assert_eq!((m.requests, m.total_tokens), (2, 15));
}

#[test]
fn full_counters_stay() {
    let mut u = Usage::load(None);
    assert!(u.record("m", u64::MAX - 1, 0, false));
    assert!(!u.record("m", 1, 1, false));
    assert_eq!(u.snapshot().get("m").requests, 1);
    assert!(u.record("m", 0, 1, false));
}

#[test]
fn a_later_entry_of_a_model_stands_for_an_earlier_one() {
    let counters = |n: u64| ModelUsage { requests: n, ..ModelUsage::default() };
    let entries = vec![
        ("a".to_string(), counters(1)),
        ("b".to_string(), counters(2)),
        ("a".to_string(), counters(3)),
    ];
    let kept = UsageStore::from_parts(entries, counters(5));
    assert_eq!(kept.entries().len(), 2);
    assert_eq!(kept.get("a").requests, 3);
    assert_eq!(kept.get("b").requests, 2);
    assert_eq!(kept.total().requests, 5);
    let again = UsageStore::from_parts(kept.entries().clone(), kept.total());
    assert_eq!(again.entries(), kept.entries());
    let mut u = Usage::load(Some(again));
    assert!(u.record("a", 0, 0, false));
    assert!(u.record("c", 0, 0, false));
    let names: Vec<String> = u.snapshot().entries().iter().map(|(n, _)| n.clone()).collect();
    assert_eq!(names, vec!["a", "b", "c"]);
}
