use ngs_log_action::error::NgsLogActionError;
use ngs_log_action::ngs_log::{ItemCategory, NgsLog, NgsLogChannel, Timestamp};
use ngs_log_action::tail::{
    collect_new_logs, get_new_action_logs, get_new_chat_logs, get_new_reward_logs,
    latest_with_prefix, next_watermark, sort_by_time, LogFileEntry,
};

const OFFSET: &str = "+09:00";

fn epoch() -> Timestamp {
    Timestamp { secs: 0, nanos: 0, offset: 0 }
}

fn lines(v: &[&str]) -> Vec<String> {
    v.iter().map(|s| s.to_string()).collect()
}

fn item_of(log: &NgsLog) -> (String, u32, ItemCategory) {
    match log {
        NgsLog::ItemLog(l) => (l.item.clone(), l.count, l.category),
        NgsLog::ChatLog(_) => panic!("expected an item entry"),
    }
}

fn body_of(log: &NgsLog) -> String {
    match log {
        NgsLog::ChatLog(l) => l.body.clone(),
        NgsLog::ItemLog(_) => panic!("expected a chat entry"),
    }
}

#[test]
fn pickup_item_with_num() {
    let ls = lines(&["2021-08-19T20:40:17\t243\t[Pickup]\t15161621\tL,A.M.\tN-グラインダー\tNum(1)"]);
    let r = get_new_action_logs(&ls, OFFSET, &epoch()).unwrap();
    assert_eq!(r.len(), 1);
    assert_eq!(item_of(&r[0]), ("N-グラインダー".to_string(), 1, ItemCategory::Pickup));
    match &r[0] {
        NgsLog::ItemLog(l) => {
            assert_eq!(l.log_id, 243);
            assert_eq!(l.player_id, 15161621);
            assert_eq!(l.name, "L,A.M.");
            assert_eq!(l.datetime.secs, 1629373217);
            assert_eq!(l.datetime.offset, 9 * 3600);
        }
        NgsLog::ChatLog(_) => panic!("expected an item entry"),
    }
}

#[test]
fn pickup_meseta() {
    let ls = lines(&["2021-08-19T20:40:56\t250\t[Pickup]\t15161621\tL,A.M.\t\tMeseta(12)\tCurrentMeseta(26029094)"]);
    let r = get_new_action_logs(&ls, OFFSET, &epoch()).unwrap();
    assert_eq!(r.len(), 1);
    assert_eq!(item_of(&r[0]), ("Meseta".to_string(), 12, ItemCategory::Pickup));
}

#[test]
fn pickup_variants() {
    let ls = lines(&[
        "2021-08-19T20:40:56\t249\t[Pickup]\t15161621\tL,A.M.\tツヴィアアーマ",
        "2021-08-19T20:55:51\t406\t[Pickup]\t15161621\tL,A.M.\tツヴィアダガー\tattr:NONE(0)",
        "2021-08-19T20:55:52\t407\t[Pickup]\t15161621\tL,A.M.\tモノメイト\tCurrentNum(7)",
        "2021-08-19T20:55:53\t408\t[Pickup]\t15161621\tL,A.M.\tディメイト\tNum(5)",
        "2021-08-19T20:55:54\t409\t[Discard]\t15161621\tL,A.M.\tディメイト\tNum(5)",
        "2021-08-19T20:55:55\t410\t[Pickup]\t15161621\tL,A.M.\tディメイト\tNum(x)",
    ]);
    let r = get_new_action_logs(&ls, OFFSET, &epoch()).unwrap();
    let got: Vec<(String, u32)> = r.iter().map(|l| { let (i, c, _) = item_of(l); (i, c) }).collect();
    assert_eq!(
        got,
        vec![
            ("ツヴィアアーマ".to_string(), 1),
            ("ツヴィアダガー".to_string(), 1),
            ("モノメイト".to_string(), 1),
            ("ディメイト".to_string(), 5),
        ]
    );
}

#[test]
fn pickup_unrecognized_tail_fails_the_pass() {
    let ls = lines(&["2021-08-19T20:40:56\t250\t[Pickup]\t15161621\tL,A.M.\t\tSomething(12)"]);
    assert_eq!(
        get_new_action_logs(&ls, OFFSET, &epoch()).err(),
        Some(NgsLogActionError::UnrecognizedFormat)
    );
}

#[test]
fn reward_backpack_and_meseta() {
    let ls = lines(&[
        "2021-08-19T21:00:00\t1\tx\tL,A.M.\tBackpack\tItemX\tNum(3)",
        "2021-08-19T21:00:01\t2\tx\tL,A.M.\tMeseta\tNum(150)",
        "2021-08-19T21:00:02\t3\tx\tL,A.M.\tBackpack\tItemY\tNum(3",
        "2021-08-19T21:00:03\t4\tx\tL,A.M.\tStorage\tItemZ\tNum(3)",
    ]);
    let r = get_new_reward_logs(&ls, OFFSET, &epoch()).unwrap();
    assert_eq!(r.len(), 2);
    assert_eq!(item_of(&r[0]), ("ItemX".to_string(), 3, ItemCategory::Reward));
    assert_eq!(item_of(&r[1]), ("Meseta".to_string(), 150, ItemCategory::Reward));
    match &r[0] {
        NgsLog::ItemLog(l) => {
            assert_eq!(l.player_id, 0);
            assert_eq!(l.name, "L,A.M.");
        }
        NgsLog::ChatLog(_) => panic!("expected an item entry"),
    }
}

#[test]
fn reward_missing_close_paren_is_dropped() {
    let ls = lines(&["2021-08-19T21:00:02\t3\tx\tL,A.M.\tBackpack\tItemX\tNum(3"]);
    let r = get_new_reward_logs(&ls, OFFSET, &epoch()).unwrap();
    assert_eq!(r.len(), 0);
}

#[test]
fn chat_single_line() {
    let ls = lines(&["2021-08-19T20:00:00\t7\tPARTY\t15161621\tL,A.M.\thello \"\"world\"\""]);
    let r = get_new_chat_logs(&ls, OFFSET, &epoch()).unwrap();
    assert_eq!(r.len(), 1);
    match &r[0] {
        NgsLog::ChatLog(l) => {
            assert_eq!(l.channel, NgsLogChannel::Party);
            assert_eq!(l.log_id, 7);
            assert_eq!(l.body, "hello \"world\"");
        }
        NgsLog::ItemLog(_) => panic!("expected a chat entry"),
    }
}

#[test]
fn chat_multi_line_body() {
    let ls = lines(&[
        "2021-08-19T20:00:00\t7\tPUBLIC\t15161621\tL,A.M.\t\"first",
        "second\"\"",
        "third\"",
    ]);
    let r = get_new_chat_logs(&ls, OFFSET, &epoch()).unwrap();
    assert_eq!(r.len(), 1);
    assert_eq!(body_of(&r[0]), "first\nsecond\"\nthird");
}

#[test]
fn chat_multi_line_with_leading_escaped_quote() {
    let ls = lines(&[
        "2021-08-19T20:00:00\t7\tPUBLIC\t15161621\tL,A.M.\t\"\"\"first",
        "second\"\"",
        "third\"",
    ]);
    let r = get_new_chat_logs(&ls, OFFSET, &epoch()).unwrap();
    assert_eq!(body_of(&r[0]), "\"\"first\nsecond\"\nthird");
}

#[test]
fn chat_lone_quote_opens_empty_body() {
    let ls = lines(&["2021-08-19T20:00:00\t7\tGUILD\t1\tA\t\"", "line\""]);
    let r = get_new_chat_logs(&ls, OFFSET, &epoch()).unwrap();
    assert_eq!(body_of(&r[0]), "\n\nline");
}

#[test]
fn chat_continuation_without_entry_is_discarded() {
    let ls = lines(&["orphan line\"", "2021-08-19T20:00:00\t7\tREPLY\t1\tA\tok"]);
    let r = get_new_chat_logs(&ls, OFFSET, &epoch()).unwrap();
    assert_eq!(r.len(), 1);
    assert_eq!(body_of(&r[0]), "ok");
}

#[test]
fn chat_unknown_channel_fails_the_pass() {
    let ls = lines(&["2021-08-19T20:00:00\t7\tWORLD\t1\tA\tok"]);
    assert_eq!(
        get_new_chat_logs(&ls, OFFSET, &epoch()).err(),
        Some(NgsLogActionError::UnrecognizedFormat)
    );
}

#[test]
fn chat_bad_number_drops_the_entry() {
    let ls = lines(&[
        "2021-08-19T20:00:00\tx7\tGROUP\t1\tA\tdropped",
        "2021-08-19T20:00:01\t8\tGROUP\t1\tA\tkept",
    ]);
    let r = get_new_chat_logs(&ls, OFFSET, &epoch()).unwrap();
    assert_eq!(r.len(), 1);
    assert_eq!(body_of(&r[0]), "kept");
}

#[test]
fn watermark_filters_old_entries() {
    let ls = lines(&[
        "2021-08-19T20:00:00\t7\tPUBLIC\t1\tA\told",
        "2021-08-19T20:00:01\t8\tPUBLIC\t1\tA\tsame",
        "2021-08-19T20:00:02\t9\tPUBLIC\t1\tA\tnew",
    ]);
    let w = Timestamp { secs: 1629370801, nanos: 0, offset: 0 };
    let r = get_new_chat_logs(&ls, OFFSET, &w).unwrap();
    assert_eq!(r.len(), 1);
    assert_eq!(body_of(&r[0]), "new");
}

#[test]
fn merge_sorts_across_sources() {
    let chat = lines(&["2021-08-19T12:00:05\t1\tPUBLIC\t1\tA\tchat"]);
    let action = lines(&["2021-08-19T12:00:01\t2\t[Pickup]\t1\tA\tItemP\tNum(2)"]);
    let reward = lines(&["2021-08-19T12:00:03\t3\tx\tA\tBackpack\tItemR\tNum(4)"]);
    let r = collect_new_logs(&chat, &action, &reward, OFFSET, &epoch()).unwrap();
    assert_eq!(r.len(), 3);
    assert_eq!(item_of(&r[0]).0, "ItemP");
    assert_eq!(item_of(&r[1]).0, "ItemR");
    assert_eq!(body_of(&r[2]), "chat");
}

#[test]
fn merge_keeps_order_of_equal_times() {
    let chat = lines(&[
        "2021-08-19T12:00:05\t1\tPUBLIC\t1\tA\tfirst",
        "2021-08-19T12:00:05\t2\tPUBLIC\t1\tA\tsecond",
        "2021-08-19T12:00:01\t3\tPUBLIC\t1\tA\tearliest",
    ]);
    let r = get_new_chat_logs(&chat, OFFSET, &epoch()).unwrap();
    let r = sort_by_time(r);
    let bodies: Vec<String> = r.iter().map(body_of).collect();
    assert_eq!(bodies, vec!["earliest", "first", "second"]);
}

#[test]
fn repoll_after_watermark_is_empty() {
    let chat = lines(&["2021-08-19T12:00:05\t1\tPUBLIC\t1\tA\tchat"]);
    let action = lines(&["2021-08-19T12:00:01\t2\t[Pickup]\t1\tA\tItemP\tNum(2)"]);
    let reward = lines(&["2021-08-19T12:00:03\t3\tx\tA\tBackpack\tItemR\tNum(4)"]);
    let first = collect_new_logs(&chat, &action, &reward, OFFSET, &epoch()).unwrap();
    let w = next_watermark(&first, &epoch());
    assert_eq!(w, *first.last().unwrap().get_datetime());
    assert_eq!(next_watermark(&Vec::new(), &w), w);
    let again = collect_new_logs(&chat, &action, &reward, OFFSET, &w).unwrap();
    assert!(again.is_empty());
}

#[test]
fn latest_file_by_prefix() {
    let entries = vec![
        LogFileEntry { name: "ChatLog20210818_00.txt".to_string(), modified_nanos: 10 },
        LogFileEntry { name: "ActionLog20210819_00.txt".to_string(), modified_nanos: 30 },
        LogFileEntry { name: "ChatLog20210819_00.txt".to_string(), modified_nanos: 20 },
        LogFileEntry { name: "ChatLog20210819_01.txt".to_string(), modified_nanos: 20 },
    ];
    assert_eq!(latest_with_prefix(&entries, "ChatLog"), Some(2));
    assert_eq!(latest_with_prefix(&entries, "ActionLog"), Some(1));
    assert_eq!(latest_with_prefix(&entries, "RewardLog"), None);
}
