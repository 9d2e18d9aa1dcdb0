use ngs_log_action::conf::{Conf, Global};
use ngs_log_action::counter::Counter;
use ngs_log_action::display::{format_datetime, item_count_header, item_count_lines, show_line};
use ngs_log_action::ngs_log::{ChatLog, ItemCategory, ItemLog, NgsLog, NgsLogChannel, Timestamp};
use ngs_log_action::request::{get_url, post_request, replace_all};

fn ts() -> Timestamp {
    // 2021-08-19T20:40:17+09:00
    Timestamp { secs: 1629373217, nanos: 0, offset: 32400 }
}

fn chat() -> NgsLog {
    NgsLog::ChatLog(ChatLog {
        datetime: ts(),
        log_id: 1,
        channel: NgsLogChannel::Public,
        player_id: 5,
        name: "A".to_string(),
        body: "a b".to_string(),
    })
}

fn item(count: u32) -> NgsLog {
    NgsLog::ItemLog(ItemLog {
        datetime: ts(),
        log_id: 1,
        category: ItemCategory::Reward,
        player_id: 0,
        name: "A".to_string(),
        item: "Meseta".to_string(),
        count,
    })
}

fn global() -> Global {
    Global {
        show_action_pattern: None,
        datetime_format: None,
        show_channel: None,
        column_separator: None,
        name_padding_width: None,
        channel_padding_width: None,
        color_public: None,
        color_party: None,
        color_guild: None,
        color_group: None,
        color_reply: None,
        color_item: None,
        color_system: None,
    }
}

#[test]
fn show_line_with_defaults() {
    let conf = Conf { global: None, rules: None };
    let line = show_line(&conf, &chat()).unwrap();
    let expected = format!(" 2021-08-19 20:40:17 +09:00 PUBLIC A{} a b", " ".repeat(29));
    assert_eq!(line, expected);
}

#[test]
fn show_line_with_options() {
    let conf = Conf {
        global: Some(Global {
            show_action_pattern: Some(true),
            datetime_format: Some("%H:%M".to_string()),
            column_separator: Some("|".to_string()),
            name_padding_width: Some(3),
            channel_padding_width: Some(8),
            ..global()
        }),
        rules: None,
    };
    let line = show_line(&conf, &item(1234567)).unwrap();
    assert_eq!(line, "[Action::Show]|20:40|REWARD  |A  |Meseta × 1,234,567");
    let hidden = Conf { global: Some(Global { show_channel: Some(false), datetime_format: Some(String::new()), ..global() }), rules: None };
    let line = show_line(&hidden, &item(5)).unwrap();
    assert_eq!(line, format!("  A{} Meseta × 5", " ".repeat(29)));
}

#[test]
fn name_padding_counts_columns() {
    let mut log = chat();
    if let NgsLog::ChatLog(l) = &mut log {
        l.name = "エー".to_string();
    }
    let conf = Conf { global: Some(Global { datetime_format: Some(String::new()), name_padding_width: Some(6), ..global() }), rules: None };
    assert_eq!(show_line(&conf, &log).unwrap(), "  PUBLIC エー   a b");
}

#[test]
fn datetime_formats() {
    let none = Conf { global: None, rules: None };
    assert_eq!(format_datetime(&none, &ts()).unwrap(), "2021-08-19 20:40:17 +09:00");
    let empty = Conf { global: Some(Global { datetime_format: Some(String::new()), ..global() }), rules: None };
    assert_eq!(format_datetime(&empty, &ts()).unwrap(), "");
    let custom = Conf { global: Some(Global { datetime_format: Some("%Y/%m/%d".to_string()), ..global() }), rules: None };
    assert_eq!(format_datetime(&custom, &ts()).unwrap(), "2021/08/19");
}

#[test]
fn count_table_lines() {
    let counters = vec![
        ("Meseta".to_string(), Counter { prev: 1000, current: 1234 }),
        ("モノメイト".to_string(), Counter { prev: 4, current: 5 }),
        ("Dimate".to_string(), Counter { prev: 1, current: 1234 }),
    ];
    let lines = item_count_lines(counters);
    assert_eq!(
        lines,
        vec![
            "Meseta     ×  1234".to_string(),
            "Dimate     ×  1234".to_string(),
            "モノメイト ×     5".to_string(),
        ]
    );
}

#[test]
fn count_table_header() {
    let conf = Conf { global: Some(Global { datetime_format: Some("%H:%M:%S".to_string()), ..global() }), rules: None };
    let begin = ts();
    let now = Timestamp { secs: ts().secs + 3725, nanos: 0, offset: 32400 };
    assert_eq!(
        item_count_header(&conf, &begin, &now).unwrap(),
        "=== 取得アイテム集計: 20:40:17 -> 21:42:22 ( 01°62'3725\" ) ==="
    );
}

#[test]
fn get_url_substitutes_tokens() {
    let url = get_url("http://x/?b={body}&n={name}&c={channel}&d={datetime}", &chat()).unwrap();
    assert_eq!(url, "http://x/?b=a%20b&n=A&c=%22Public%22&d=2021-08-19T20%3A40%3A17%2B09%3A00");
    let url = get_url("http://x/{channel}/{body}", &item(3)).unwrap();
    assert_eq!(url, "http://x/%22ITEM%22/Meseta%20%C3%97%203");
}

#[test]
fn post_request_parts() {
    let p = post_request(&item(1000)).unwrap();
    assert_eq!(p.name, "A");
    assert_eq!(p.channel, "\"ITEM\"");
    assert_eq!(p.datetime, "2021-08-19 20:40:17 +09:00");
    assert_eq!(p.body, "Meseta × 1,000");
}

#[test]
fn replace_all_cases() {
    assert_eq!(replace_all("aXbXc", "X", "--"), "a--b--c");
    assert_eq!(replace_all("aaa", "aa", "b"), "ba");
    assert_eq!(replace_all("none", "{x}", "y"), "none");
    assert_eq!(replace_all("", "{x}", "y"), "");
}
