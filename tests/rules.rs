use ngs_log_action::conf::{Action, ActionType, If, ItemCount, Target};
use ngs_log_action::counter::{Counter, ItemCounter};
use ngs_log_action::error::NgsLogActionError;
use ngs_log_action::ngs_log::{ChatLog, ItemCategory, ItemLog, NgsLog, NgsLogChannel, Timestamp};
use ngs_log_action::rules::{apply_log_action, do_action, rule_fires};

fn ts(secs: i64) -> Timestamp {
    Timestamp { secs, nanos: 0, offset: 32400 }
}

fn chat(channel: NgsLogChannel, name: &str, body: &str) -> NgsLog {
    NgsLog::ChatLog(ChatLog {
        datetime: ts(100),
        log_id: 1,
        channel,
        player_id: 5,
        name: name.to_string(),
        body: body.to_string(),
    })
}

fn item(item: &str, count: u32) -> NgsLog {
    NgsLog::ItemLog(ItemLog {
        datetime: ts(100),
        log_id: 1,
        category: ItemCategory::Pickup,
        player_id: 5,
        name: "A".to_string(),
        item: item.to_string(),
        count,
    })
}

fn no_action() -> Action {
    Action {
        show: None,
        command: None,
        get: None,
        post: None,
        sound: None,
        count: None,
        show_item_counts: None,
        reset_item_counts: None,
    }
}

fn show_action() -> Action {
    Action { show: Some(true), ..no_action() }
}

fn rule() -> If {
    If {
        names: None,
        channels: None,
        keywords: None,
        regex: None,
        ignore_names: None,
        ignore_keywords: None,
        ignore_regex: None,
        action: Some(show_action()),
        target: None,
        item_counts: None,
    }
}

#[test]
fn counter_crossing_threshold() {
    assert!(Counter { prev: 8, current: 12 }.crossed(10));
    assert!(!Counter { prev: 11, current: 12 }.crossed(10));
    assert!(Counter { prev: 9, current: 10 }.crossed(10));
    assert!(Counter { prev: 0, current: 25 }.crossed(10));
}

#[test]
fn counter_add_assign_keeps_previous() {
    let mut c = Counter { prev: 0, current: 3 };
    c.add_assign(4);
    assert_eq!(c, Counter { prev: 3, current: 7 });
    assert_eq!(c.cmp(&Counter { prev: 0, current: 9 }), std::cmp::Ordering::Less);
    assert_eq!(c.cmp(&Counter { prev: 1, current: 7 }), std::cmp::Ordering::Equal);
    assert_eq!(c.cmp(&Counter { prev: 0, current: 2 }), std::cmp::Ordering::Greater);
}

#[test]
fn store_counts_items_and_resets() {
    let mut store = ItemCounter::new(ts(0));
    store.count(&item("Meseta", 12)).unwrap();
    store.count(&item("Meseta", 30)).unwrap();
    store.count(&item("Monomate", 1)).unwrap();
    store.count(&chat(NgsLogChannel::Public, "A", "hi")).unwrap();
    let snap = store.snapshot();
    assert_eq!(snap.len(), 2);
    assert_eq!(snap[0].0, "Meseta");
    assert_eq!(snap[0].1, Counter { prev: 12, current: 42 });
    assert_eq!(snap[1].0, "Monomate");
    assert_eq!(snap[1].1, Counter { prev: 0, current: 1 });
    assert_eq!(store.current_of("Meseta"), 42);
    assert_eq!(store.current_of("Dimate"), 0);
    store.reset(ts(50));
    assert_eq!(store.snapshot().len(), 0);
    assert_eq!(store.begin(), ts(50));
}

#[test]
fn store_refuses_overflow() {
    let mut store = ItemCounter::new(ts(0));
    store.count(&item("Meseta", u32::MAX)).unwrap();
    assert_eq!(store.count(&item("Meseta", 1)), Err(NgsLogActionError::CounterOverflow));
    assert_eq!(store.current_of("Meseta"), u32::MAX);
}

#[test]
fn display_fires_once_for_two_matching_rules() {
    let log = chat(NgsLogChannel::Public, "A", "hello");
    let counters = Vec::new();
    let mut finished = Vec::new();
    let first = apply_log_action(&rule(), &log, &counters, &mut finished).unwrap();
    let second = apply_log_action(&rule(), &log, &counters, &mut finished).unwrap();
    assert_eq!(first, vec![ActionType::Show]);
    assert!(second.is_empty());
    assert_eq!(finished, vec![ActionType::Show]);
}

#[test]
fn do_action_orders_and_skips_finished() {
    let a = Action {
        show: Some(true),
        command: Some(vec!["echo".to_string()]),
        sound: Some("a.wav".to_string()),
        count: Some(true),
        reset_item_counts: Some(false),
        ..no_action()
    };
    let mut finished = vec![ActionType::Sound];
    let r = do_action(&a, &mut finished);
    assert_eq!(r, vec![ActionType::Show, ActionType::Command, ActionType::Count]);
    assert_eq!(
        finished,
        vec![ActionType::Sound, ActionType::Show, ActionType::Command, ActionType::Count]
    );
}

#[test]
fn filters_select_entries() {
    let counters = Vec::new();
    let log = chat(NgsLogChannel::Party, "Alice", "need help at boss");
    let by_target = If { target: Some(Target::Item), ..rule() };
    assert_eq!(rule_fires(&by_target, &log, &counters), Ok(false));
    let by_channel = If { channels: Some(vec![NgsLogChannel::Guild]), ..rule() };
    assert_eq!(rule_fires(&by_channel, &log, &counters), Ok(false));
    let by_channel_ok = If { channels: Some(vec![NgsLogChannel::Party]), ..rule() };
    assert_eq!(rule_fires(&by_channel_ok, &log, &counters), Ok(true));
    let by_name = If { names: Some(vec!["Bob".to_string()]), ..rule() };
    assert_eq!(rule_fires(&by_name, &log, &counters), Ok(false));
    let by_keyword = If { keywords: Some(vec!["xyz".to_string(), "boss".to_string()]), ..rule() };
    assert_eq!(rule_fires(&by_keyword, &log, &counters), Ok(true));
    let by_regex = If { regex: Some("^need .* boss$".to_string()), ..rule() };
    assert_eq!(rule_fires(&by_regex, &log, &counters), Ok(true));
    let ignored_name = If { ignore_names: Some(vec!["Alice".to_string()]), ..rule() };
    assert_eq!(rule_fires(&ignored_name, &log, &counters), Ok(false));
    let ignored_keyword = If { ignore_keywords: Some(vec!["help".to_string()]), ..rule() };
    assert_eq!(rule_fires(&ignored_keyword, &log, &counters), Ok(false));
    let ignored_regex = If { ignore_regex: Some("b.ss".to_string()), ..rule() };
    assert_eq!(rule_fires(&ignored_regex, &log, &counters), Ok(false));
    let channel_on_item = If { channels: Some(vec![NgsLogChannel::Guild]), ..rule() };
    assert_eq!(rule_fires(&channel_on_item, &item("Meseta", 1), &counters), Ok(true));
}

#[test]
fn bad_regex_aborts_the_rule() {
    let log = chat(NgsLogChannel::Party, "Alice", "text");
    let bad = If { regex: Some("(".to_string()), ..rule() };
    let mut finished = Vec::new();
    assert_eq!(
        apply_log_action(&bad, &log, &Vec::new(), &mut finished),
        Err(NgsLogActionError::InvalidRegex)
    );
    assert!(finished.is_empty());
}

#[test]
fn item_count_trigger_fires_on_crossing() {
    let log = item("Meseta", 4);
    let trig = If {
        item_counts: Some(vec![ItemCount { keywords: Some(vec!["Mes".to_string()]), regex: None, every: Some(10) }]),
        ..rule()
    };
    let crossed = vec![("Meseta".to_string(), Counter { prev: 8, current: 12 })];
    let not_crossed = vec![("Meseta".to_string(), Counter { prev: 11, current: 12 })];
    let other_item = vec![("Dimate".to_string(), Counter { prev: 8, current: 12 })];
    assert_eq!(rule_fires(&trig, &log, &crossed), Ok(true));
    assert_eq!(rule_fires(&trig, &log, &not_crossed), Ok(false));
    assert_eq!(rule_fires(&trig, &log, &other_item), Ok(false));
    assert_eq!(rule_fires(&trig, &log, &Vec::new()), Ok(false));
}
