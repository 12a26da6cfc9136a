use tg_s3_bot::chatbot::{
    after_poll, get_updates_url, is_admin, is_enabled, next_offset, next_poll, outgoing_text,
    poll_query, reply_body, route, send_message_url, PollNext, Polled, Route, API_BASE,
    FIRST_OFFSET, MAX_CHARS, NO_FILE,
};
use tg_s3_bot::http::is_success;
use tg_s3_bot::json::{parse, Json};
use tg_s3_bot::update::{read_updates, updates_in, Document, Message, Update};

fn admins() -> Vec<String> {
    vec!["42".to_string(), "-7".to_string()]
}

fn message(from: i64) -> Message<String> {
    Message {
        from_id: Some(from),
        chat_id: Some(99),
        document: None,
        caption: None,
        text: None,
        replied_document: None,
    }
}

fn file(id: Option<&str>, size: Option<i64>) -> Option<Document<String>> {
    Some(Document { file_id: id.map(|s| s.to_string()), file_size: size })
}

fn update(m: Message<String>) -> Update<String> {
    Update { update_id: Some(1), message: Some(m) }
}

fn restore(id: &str) -> Route<String> {
    Route::Restore { chat_id: 99, file_id: id.to_string() }
}

#[test]
fn addresses_and_query() {
    assert_eq!(get_updates_url(API_BASE, "T"), "https://api.telegram.org/botT/getUpdates");
    assert_eq!(send_message_url("http://local:8081", "T"), "http://local:8081/botT/sendMessage");
    let q = poll_query(-3);
    let q: Vec<(&str, &str)> = q.iter().map(|(a, b)| (a.as_str(), b.as_str())).collect();
    assert_eq!(q, vec![("timeout", "30"), ("offset", "-3"), ("allowed_updates", r#"["message"]"#)]);
}

#[test]
fn the_interface_needs_someone_to_serve() {
    assert!(!is_enabled(&vec![]));
    assert!(is_enabled(&admins()));
}

#[test]
fn whitelist() {
    assert!(is_admin(&admins(), 42));
    assert!(is_admin(&admins(), -7));
    assert!(!is_admin(&admins(), 4));
    assert!(!is_admin(&admins(), 7));
    assert!(!is_admin(&vec![], 42));
}

#[test]
fn offsets_move_past_updates() {
    let mut u = update(message(42));
    assert_eq!(next_offset(5, &u), 2);
    u.update_id = Some(i64::MAX - 1);
    assert_eq!(next_offset(5, &u), i64::MAX);
    u.update_id = None;
    assert_eq!(next_offset(5, &u), 5);
}

#[test]
fn polling_goes_on_after_the_last_update() {
    assert_eq!(FIRST_OFFSET, 0);
    let plain = |id: Option<i64>| Update { update_id: id, message: None };
    let serve = PollNext::Serve {
        updates: vec![plain(Some(7)), update(message(1)), plain(Some(9)), plain(None)],
    };
    assert_eq!(next_poll(FIRST_OFFSET, &serve), 10);
    assert_eq!(next_poll(10, &PollNext::Serve { updates: vec![] }), 10);
    assert_eq!(next_poll(10, &PollNext::Again), 10);
    assert_eq!(next_poll(10, &PollNext::Wait { seconds: 15 }), 10);
    assert_eq!(poll_query(10)[1].1, "10");
}

#[test]
fn strangers_are_ignored() {
    let mut m = message(41);
    m.text = Some("/help".to_string());
    assert_eq!(route(&admins(), update(m)), Route::Ignore);
    let mut m = message(41);
    m.document = file(Some("f"), Some(1));
    m.caption = Some("/restore".to_string());
    assert_eq!(route(&admins(), update(m)), Route::Ignore);
    let mut m = message(42);
    m.from_id = None;
    m.text = Some("/help".to_string());
    assert_eq!(route(&admins(), update(m)), Route::Ignore);
    assert_eq!(route(&admins(), Update { update_id: Some(1), message: None }), Route::Ignore);
}

#[test]
fn texts_are_commands() {
    let mut m = message(42);
    m.text = Some("/help".to_string());
    assert_eq!(
        route(&admins(), update(m)),
        Route::Command { chat_id: 99, text: "/help".to_string() }
    );
    let mut m = message(42);
    m.chat_id = None;
    m.text = Some("hi".to_string());
    assert_eq!(route(&admins(), update(m)), Route::Command { chat_id: 0, text: "hi".to_string() });
    assert_eq!(route(&admins(), update(message(42))), Route::Ignore);
}

#[test]
fn captioned_files_are_restored() {
    for caption in [
        "/restore",
        "restore",
        "  //RESTORE please",
        "\u{3000}/restore\nnow",
        "/restore@tgbot",
        "/Restore@TgBot now",
        "/restore, please",
        "/restore，谢谢",
    ] {
        let mut m = message(42);
        m.document = file(Some("f"), Some(536870912));
        m.caption = Some(caption.to_string());
        assert_eq!(route(&admins(), update(m)), restore("f"), "{}", caption);
    }
    for caption in ["", "/ restore", "please /restore", "/restored", "/restore_all", "/restore2", "restored copy of May notes"] {
        let mut m = message(42);
        m.document = file(Some("f"), None);
        m.caption = Some(caption.to_string());
        assert_eq!(route(&admins(), update(m)), Route::Ignore, "{}", caption);
    }
}

#[test]
fn a_restore_command_that_replies_to_a_file_restores_it() {
    let mut m = message(42);
    m.text = Some(" /Restore now".to_string());
    m.replied_document = file(Some("g"), Some(10));
    assert_eq!(route(&admins(), update(m)), restore("g"));
    let mut m = message(42);
    m.text = Some("/status".to_string());
    m.replied_document = file(Some("g"), Some(10));
    assert_eq!(
        route(&admins(), update(m)),
        Route::Command { chat_id: 99, text: "/status".to_string() }
    );
    let mut m = message(42);
    m.text = Some("/restore".to_string());
    assert_eq!(
        route(&admins(), update(m)),
        Route::Command { chat_id: 99, text: "/restore".to_string() }
    );
}

#[test]
fn files_without_content_or_too_large_are_refused() {
    let mut m = message(42);
    m.document = file(None, Some(1));
    m.caption = Some("/restore".to_string());
    assert_eq!(
        route(&admins(), update(m)),
        Route::Reply { chat_id: 99, text: NO_FILE.to_string() }
    );
    let mut m = message(42);
    m.document = file(Some("f"), Some(536870913));
    m.caption = Some("/restore".to_string());
    assert_eq!(
        route(&admins(), update(m)),
        Route::Reply {
            chat_id: 99,
            text: "❌ 文件过大（512.00 MiB），不像合法的数据库备份".to_string()
        }
    );
}

#[test]
fn answers_are_cut_at_the_limit() {
    assert_eq!(outgoing_text(""), None);
    assert_eq!(outgoing_text("好"), Some("好".to_string()));
    let whole = "库".repeat(MAX_CHARS);
    assert_eq!(outgoing_text(&whole), Some(whole.clone()));
    let long = "库".repeat(MAX_CHARS + 1);
    assert_eq!(outgoing_text(&long), Some(format!("{}…", whole)));
}

#[test]
fn basic_characters_keep_within_the_limit() {
    let sent = outgoing_text(&"库".repeat(10_000)).unwrap();
    assert_eq!(sent.encode_utf16().count(), 3801);
    let mixed = format!("{}{}", "💾".repeat(295), "库".repeat(10_000));
    assert_eq!(outgoing_text(&mixed).unwrap(), format!("{}{}…", "💾".repeat(295), "库".repeat(3505)));
}

#[test]
fn any_mix_of_characters_keeps_within_the_limit() {
    let sent = outgoing_text(&"💾".repeat(3800)).unwrap();
    assert_eq!(sent, format!("{}…", "💾".repeat(2047)));
    assert_eq!(sent.encode_utf16().count(), 4095);
    let whole = "💾".repeat(2048);
    assert_eq!(outgoing_text(&whole), Some(whole.clone()));
    let sent = outgoing_text(&format!("a{}", whole)).unwrap();
    assert_eq!(sent, format!("a{}…", "💾".repeat(2047)));
    assert_eq!(sent.encode_utf16().count(), 4096);
    for n in 0..400usize {
        let text = format!("{}{}{}", "库".repeat(n * 7), "💾".repeat(n * 11), "x".repeat(n * 13));
        if let Some(sent) = outgoing_text(&text) {
            assert!(sent.encode_utf16().count() <= 4096 && sent.chars().count() <= 3801);
            let cut = text.chars().count() > 3800 || text.encode_utf16().count() > 4096;
            assert_eq!(cut, sent != text);
            assert!(!cut || text.starts_with(sent.strip_suffix('…').unwrap()));
        }
    }
    let body = reply_body(1, &"💾".repeat(10_000)).unwrap();
    let text = body.field("text").and_then(|v| v.text()).unwrap();
    assert_eq!(text.encode_utf16().count(), 4095);
}

#[test]
fn reply_bodies_name_chat_and_text() {
    assert!(reply_body(5, "").is_none());
    let body = reply_body(-100, "好").unwrap();
    assert_eq!(body.field("chat_id").and_then(|v| v.integer()), Some(-100));
    assert_eq!(body.field("text").and_then(|v| v.text()), Some("好".to_string()));
}

#[test]
fn json_is_read_as_it_is_written() {
    let j = parse(br#"{"a":[1,-2,2.5,18446744073709551615,true,null,"xA"],"b":{}}"#).unwrap();
    let a = j.field("a").unwrap().items().unwrap();
    assert_eq!(a.len(), 7);
    assert_eq!(a[0].integer(), Some(1));
    assert_eq!(a[1].integer(), Some(-2));
    assert_eq!(a[2].integer(), None);
    assert_eq!(a[3].integer(), None);
    assert!(matches!(a[4], Json::Bool(true)));
    assert!(matches!(a[5], Json::Null));
    assert_eq!(a[6].text(), Some("xA".to_string()));
    assert!(j.field("b").unwrap().field("c").is_none());
    assert!(j.field("c").is_none());
    assert!(j.integer().is_none() && j.text().is_none() && j.items().is_none());
    assert!(parse(b"{").is_none());
    assert!(parse(b"").is_none());
    assert!(parse(b"1 2").is_none());
}

#[test]
fn later_fields_of_a_name_replace_earlier_ones() {
    let j = parse(br#"{"a":1,"a":2}"#).unwrap();
    assert_eq!(j.field("a").and_then(|v| v.integer()), Some(2));
}

#[test]
fn updates_are_read() {
    let body = br#"{"ok":true,"result":[
        {"update_id":10,"message":{"from":{"id":42},"chat":{"id":-5},"text":"/help"}},
        {"update_id":"x","message":{"from":{},"document":{"file_id":"F","file_size":3},"caption":"/restore"}},
        {"update_id":12},
        {"message":{"text":"/restore","document":null,"reply_to_message":{"document":{"file_id":"G"}}}}]}"#;
    let u = read_updates(body).unwrap();
    assert_eq!(u.len(), 4);
    assert_eq!(u[0].update_id, Some(10));
    let m = u[0].message.as_ref().unwrap();
    assert_eq!((m.from_id, m.chat_id, m.text.as_deref()), (Some(42), Some(-5), Some("/help")));
    assert!(m.document.is_none() && m.caption.is_none() && m.replied_document.is_none());
    assert_eq!(u[1].update_id, None);
    let m = u[1].message.as_ref().unwrap();
    assert_eq!((m.from_id, m.chat_id, m.caption.as_deref()), (None, None, Some("/restore")));
    let d = m.document.as_ref().unwrap();
    assert_eq!((d.file_id.as_deref(), d.file_size), (Some("F"), Some(3)));
    assert!(u[2].message.is_none());
    let m = u[3].message.as_ref().unwrap();
    let d = m.document.as_ref().unwrap();
    assert_eq!((d.file_id.as_deref(), d.file_size), (None, None));
    let d = m.replied_document.as_ref().unwrap();
    assert_eq!((d.file_id.as_deref(), d.file_size), (Some("G"), None));
}

#[test]
fn answers_without_a_list_hold_no_updates() {
    assert!(read_updates(b"not json").is_none());
    assert!(read_updates(b"{}").is_none());
    assert!(read_updates(br#"{"result":{}}"#).is_none());
    assert_eq!(read_updates(br#"{"result":[]}"#).unwrap().len(), 0);
    assert!(updates_in(&Json::Null).is_none());
    let answer = Json::Object(vec![("result".to_string(), Json::Array(vec![Json::Null]))]);
    assert_eq!(updates_in(&answer).unwrap().len(), 1);
}

#[test]
fn polls_are_repeated() {
    assert!(matches!(after_poll(Polled::Unanswered), PollNext::Wait { seconds: 15 }));
    assert!(matches!(after_poll(Polled::Unread), PollNext::Again));
    assert!(matches!(after_poll(Polled::Body(b"[]".to_vec())), PollNext::Again));
    match after_poll(Polled::Body(br#"{"result":[{"update_id":3}]}"#.to_vec())) {
        PollNext::Serve { updates } => assert_eq!(updates[0].update_id, Some(3)),
        _ => panic!("no updates"),
    }
}

#[test]
fn status_codes_of_success() {
    for status in 0u16..1000 {
        assert_eq!(is_success(status), (200..300).contains(&status));
    }
}
