use tg_s3_bot::chatbot::{route, Route};
use tg_s3_bot::cli::{Cli, Cmd, CredAction, DEFAULT_STALE_HOURS};
use tg_s3_bot::keys::{bytes_for_new_key, entry, list, make_key, Credential};
use tg_s3_bot::names::{fresh_restore_name, fresh_stage_name, restore_file_name, stage_dir_name};
use tg_s3_bot::session::{
    begin, handle, set_setting, step, Action, Download, Event, Task, ASK_FILE, DATABASE_ERROR, HELP,
    NOT_SAVED, NO_SUCH_KEY, UNKNOWN_COMMAND,
};
use tg_s3_bot::settings::{check, describe, row_name, Defaults, Setting};
use tg_s3_bot::status::{status, Report, Stats};
use tg_s3_bot::update::read_updates;

fn defaults() -> Defaults {
    Defaults { concurrency: 6, backup_interval_secs: 21600, backup_keep: 14 }
}

fn sent(text: &str) -> (Task<String>, Action<String>) {
    (Task::Finished, Action::Send { text: text.to_string() })
}

fn next(task: Task<String>, event: Event) -> (Task<String>, Action<String>) {
    step(&defaults(), task, event)
}

fn s(text: &str) -> String {
    text.to_string()
}

#[test]
fn help_is_the_menu() {
    for text in ["/help", "help", " //HELP extra words", "/start"] {
        assert_eq!(handle(text), sent(HELP));
    }
    assert!(HELP.starts_with("📖 管理命令\n/status -- 运行参数 + 存储统计\n/keys -- 列出所有访问密钥\n"));
    assert!(HELP.contains("-- 密钥对全部重置\n\n💾 备份\n/backup"));
    assert!(HELP.contains("（或回复该文件发 /restore）\n  · 恢复前自动生成回滚点，校验失败不动数据库\n\n⚙️ 参数设置"));
    assert!(HELP.ends_with("/set <参数名> -- 查看当前值"));
    assert_eq!(HELP.lines().count(), 16);
}

#[test]
fn unknown_commands() {
    for text in ["", "   ", "hello", "/rotate", "/rekey", "/set", "/helpme", "/ help"] {
        assert_eq!(handle(text), sent(UNKNOWN_COMMAND), "{}", text);
    }
    assert_eq!(handle("/restore"), sent(ASK_FILE));
}

#[test]
fn routes_begin_their_commands() {
    assert_eq!(begin(Route::Ignore), (Task::Finished, Action::Nothing));
    assert_eq!(begin(Route::Reply { chat_id: 1, text: s("x") }), sent("x"));
    assert_eq!(begin(Route::Command { chat_id: 1, text: s("/help") }), sent(HELP));
    assert_eq!(
        begin(Route::Restore { chat_id: 1, file_id: s("F") }),
        (Task::NameRestore { file_id: s("F") }, Action::NameRestore)
    );
}

#[test]
fn rotation() {
    let (t, a) = handle("/rotate root12");
    assert_eq!(a, Action::MakeHex { bytes: 30 });
    let (t, a) = next(t, Event::Hex(s("abcd")));
    assert_eq!(a, Action::Rotate { access_key: s("root12"), secret_key: s("abcd") });
    let (t, a) = next(t, Event::Changed(Some(true)));
    assert_eq!(
        a,
        Action::SyncRootFile { access_key: s("root12"), replaced_by: None, secret_key: s("abcd") }
    );
    assert_eq!(next(t, Event::Synced), sent("✅ 已换 secret（access_key 不变）\nsecret_key: abcd"));
}

#[test]
fn rotation_of_nothing() {
    let task = || Task::Rotate { access_key: s("k"), secret_key: s("x") };
    assert_eq!(next(task(), Event::Changed(Some(false))), sent(NO_SUCH_KEY));
    assert_eq!(next(task(), Event::Changed(None)), sent(DATABASE_ERROR));
    let task = || Task::Rekey { access_key: s("k"), new_key: s("n"), secret_key: s("x") };
    assert_eq!(next(task(), Event::Changed(Some(false))), sent(NO_SUCH_KEY));
    assert_eq!(next(task(), Event::Changed(None)), sent(DATABASE_ERROR));
}

#[test]
fn reset() {
    for (old, bytes, new) in [("root12", 10, "rootff"), ("keyab", 8, "keyff"), ("Root", 8, "keyff")] {
        let (t, a) = handle(&format!("/rekey {}", old));
        assert_eq!(a, Action::MakeHex { bytes });
        let (t, a) = next(t, Event::Hex(s("ff")));
        assert_eq!(a, Action::MakeHex { bytes: 30 });
        let (t, a) = next(t, Event::Hex(s("beef")));
        assert_eq!(a, Action::Rekey { access_key: s(old), new_key: s(new), secret_key: s("beef") });
        let (t, a) = next(t, Event::Changed(Some(true)));
        assert_eq!(
            a,
            Action::SyncRootFile {
                access_key: s(old),
                replaced_by: Some(s(new)),
                secret_key: s("beef")
            }
        );
        let text = format!("✅ 已全部重置（旧密钥作废）\naccess_key: {}\nsecret_key: beef", new);
        assert_eq!(next(t, Event::Synced), sent(&text));
    }
    assert_eq!(bytes_for_new_key("root"), 10);
    assert_eq!(bytes_for_new_key("roo"), 8);
    assert_eq!(make_key("root", "0"), "root0");
}

#[test]
fn backups_are_sent() {
    let (t, a) = handle("/backup");
    assert_eq!(a, Action::TakeBackup);
    let (t, a) = next(t, Event::BackedUp(Ok((s("/d/b.sqlite"), s("b.sqlite")))));
    assert_eq!(a, Action::SendFile { path: s("/d/b.sqlite"), name: s("b.sqlite") });
    assert_eq!(next(t, Event::FileSent(Ok(()))), sent(""));
    assert_eq!(
        next(Task::SendFile { path: s("/p") }, Event::FileSent(Err(s("boom")))),
        sent("⚠️ 备份已生成但发送失败：boom\n文件在服务器：/p")
    );
    assert_eq!(next(Task::Backup, Event::BackedUp(Err(s("disk")))), sent("❌ 备份失败：disk"));
}

#[test]
fn restores_replace_the_database() {
    let (t, _) = begin(Route::Restore { chat_id: 1, file_id: s("F") });
    let (t, a) = next(t, Event::Named(s("n.sqlite")));
    assert_eq!(a, Action::Download { file_id: s("F"), name: s("n.sqlite") });
    let (t, a) = next(t, Event::Downloaded(Download::Saved(2048)));
    assert_eq!(a, Action::Recover { name: s("n.sqlite") });
    let (t, a) = next(t, Event::Recovered(Ok(())));
    assert_eq!(a, Action::Discard { name: s("n.sqlite") });
    assert_eq!(
        next(t, Event::Discarded),
        sent("✅ 数据库已恢复（2.00 KiB）。\n\n🛟 回滚点：admin 桶 backup/ 里刚生成的 *-pre-restore.sqlite，恢复前的完整状态。如异常可再发它 + /restore 回去。")
    );
}

#[test]
fn failed_restores_leave_the_database() {
    let task = || Task::Download { name: s("n") };
    assert_eq!(
        next(task(), Event::Downloaded(Download::Refused(s("404 Not Found")))),
        sent("❌ 下载失败：HTTP 404 Not Found")
    );
    assert_eq!(next(task(), Event::Downloaded(Download::Failed(s("e")))), sent("❌ 下载失败：e"));
    let (t, a) = next(Task::Recover { name: s("n"), size: 1 }, Event::Recovered(Err(s("corrupt"))));
    assert_eq!(a, Action::Discard { name: s("n") });
    assert_eq!(
        next(t, Event::Discarded),
        sent("❌ 恢复已中止，数据库未做任何改动：\ncorrupt")
    );
}

#[test]
fn unexpected_events_change_nothing() {
    assert_eq!(next(Task::Backup, Event::Synced), (Task::Backup, Action::Nothing));
    assert_eq!(next(Task::Finished, Event::Discarded), (Task::Finished, Action::Nothing));
}

#[test]
fn settings_in_range_are_stored() {
    for (key, value, setting, row) in [
        ("concurrency", "1", Setting::Concurrency, "concurrency"),
        ("CONCURRENCY", "+32", Setting::Concurrency, "concurrency"),
        ("backup_interval", "0", Setting::BackupInterval, "backup_interval_secs"),
        ("backup_interval_secs", "18446744073709551615", Setting::BackupInterval, "backup_interval_secs"),
        ("backup_keep", "365", Setting::BackupKeep, "backup_keep"),
    ] {
        assert_eq!(
            handle(&format!("/set {} {} ignored", key, value)),
            (
                Task::WriteSetting { setting, value: s(value) },
                Action::WriteSetting { row: s(row), value: s(value) }
            )
        );
    }
}

#[test]
fn settings_out_of_range_are_refused() {
    for value in ["0", "33", "-1", "x", "99999999999999999999999"] {
        assert_eq!(
            handle(&format!("/set concurrency {}", value)),
            sent("concurrency 需要 1-32 的整数")
        );
    }
    for value in ["-1", "1.5", "18446744073709551616"] {
        assert_eq!(
            handle(&format!("/set backup_interval {}", value)),
            sent("backup_interval 需要 ≥0 的秒数（0=关闭自动备份）")
        );
    }
    for value in ["0", "366"] {
        assert_eq!(
            handle(&format!("/set backup_keep {}", value)),
            sent("backup_keep 需要 1-365 的整数")
        );
    }
    assert_eq!(
        handle("/set colour 1"),
        sent("未知参数 colour，可用：concurrency / backup_interval / backup_keep")
    );
    assert_eq!(check("colour", "1"), None);
    assert_eq!(check("backup_keep", "7"), Some(Setting::BackupKeep));
}

#[test]
fn stored_settings_are_confirmed() {
    let (t, a) = next(
        Task::WriteSetting { setting: Setting::Concurrency, value: s("+8") },
        Event::Written(true),
    );
    assert_eq!(a, Action::SetPermits { permits: 8 });
    assert_eq!(
        next(t, Event::Permits(7)),
        sent("✅ concurrency = +8（立即生效，当前许可 7；已持久化，重启保留）")
    );
    let interval = |v: &str| {
        next(Task::WriteSetting { setting: Setting::BackupInterval, value: s(v) }, Event::Written(true))
    };
    assert_eq!(
        interval("0"),
        sent("✅ backup_interval = 0，自动备份已关闭；调度器下一轮起按新间隔运行")
    );
    assert_eq!(
        interval("05400"),
        sent("✅ backup_interval = 5400，每 5400 秒备份一次（约 1.5 小时）；调度器下一轮起按新间隔运行")
    );
    assert_eq!(
        next(Task::WriteSetting { setting: Setting::BackupKeep, value: s("30") }, Event::Written(true)),
        sent("✅ backup_keep = 30（下一轮备份起生效；已持久化，重启保留）")
    );
    assert_eq!(
        next(Task::WriteSetting { setting: Setting::BackupKeep, value: s("30") }, Event::Written(false)),
        sent(NOT_SAVED)
    );
}

#[test]
fn a_stored_value_is_shown_under_every_name() {
    for key in ["backup_interval", "backup_interval_secs"] {
        let (t, a) = handle(&format!("/set {}", key));
        assert_eq!(a, Action::ReadSetting { row: s("backup_interval_secs") });
        assert_eq!(
            next(t, Event::Setting(Some(s("60")))),
            sent(&format!("{} = 60（自定义）", key))
        );
    }
    assert_eq!(row_name("backup_keep"), "backup_keep");
}

#[test]
fn a_value_is_shown_as_it_was_stored() {
    let (t, a) = handle("/set Backup_Interval 0090");
    let Action::WriteSetting { row, value } = a else { panic!("{:?}", a) };
    next(t, Event::Written(true));
    let report = Report { stats: None, overrides: Some(vec![(row.clone(), value.clone())]), backups: vec![] };
    assert!(status(&defaults(), &report).contains("备份间隔：0090（自定义）"));
    let (t, a) = handle("/set backup_interval_secs");
    assert_eq!(a, Action::ReadSetting { row });
    assert_eq!(next(t, Event::Setting(Some(value))), sent("backup_interval_secs = 0090（自定义）"));
}

#[test]
fn strangers_get_nothing() {
    let body = br#"{"result":[{"update_id":1,"message":{"from":{"id":8},"chat":{"id":8},"text":"/keys"}}]}"#;
    for update in read_updates(body).unwrap() {
        let (t, a) = begin(route(&vec![s("80")], update));
        assert_eq!((t, a), (Task::Finished, Action::Nothing));
    }
    for update in read_updates(body).unwrap() {
        let (t, a) = begin(route(&vec![s("8")], update));
        assert_eq!((t, a), (Task::ListKeys, Action::ListKeys));
    }
}

#[test]
fn questions_for_settings() {
    let (t, a) = set_setting(s("concurrency"), s(""));
    assert_eq!(a, Action::ReadSetting { row: s("concurrency") });
    assert_eq!(next(t, Event::Setting(None)), sent("concurrency = 6（默认）"));
    assert_eq!(describe(&defaults(), "backup_keep", None), "backup_keep = 14（默认）");
    assert_eq!(describe(&defaults(), "backup_interval", None), "backup_interval = 21600（默认）");
    assert_eq!(
        describe(&defaults(), "colour", None),
        "未知参数 colour，可用：concurrency / backup_interval / backup_keep"
    );
    assert_eq!(describe(&defaults(), "colour", Some(s("red"))), "colour = red（自定义）");
}

#[test]
fn letter_case_of_a_key_makes_no_difference() {
    for key in ["concurrency", "CONCURRENCY", "Concurrency"] {
        for value in ["", "8", "33"] {
            let expected = set_setting(s("concurrency"), s(value));
            assert_eq!(set_setting(s(key), s(value)), expected);
            assert_eq!(handle(&format!("/set {} {}", key, value)), expected);
        }
    }
    assert_eq!(set_setting(s("CONCURRENCY"), s("33")), sent("concurrency 需要 1-32 的整数"));
    assert_eq!(
        set_setting(s("COLOUR"), s("1")),
        sent("未知参数 colour，可用：concurrency / backup_interval / backup_keep")
    );
    let (t, _) = set_setting(s("BACKUP_KEEP"), s(""));
    assert_eq!(next(t, Event::Setting(None)), sent("backup_keep = 14（默认）"));
}

#[test]
fn keys_are_listed() {
    let creds = vec![
        Credential { access_key: s("root1"), is_root: true, bucket: None, prefix: None },
        Credential {
            access_key: s("key2"),
            is_root: false,
            bucket: Some(s("a\"b")),
            prefix: Some(s("")),
        },
    ];
    let expected = format!(
        "[root] root1\n  bucket={:?} prefix={:?}\nkey2\n  bucket={:?} prefix={:?}",
        None::<String>,
        None::<String>,
        Some("a\"b"),
        Some("")
    );
    assert_eq!(list(&creds), expected);
    assert_eq!(list(&vec![]), "");
    assert_eq!(entry(false, "k", "B", "P"), "k\n  bucket=B prefix=P");
    let (t, a) = handle("/keys");
    assert_eq!(a, Action::ListKeys);
    assert_eq!(next(t, Event::Keys(Some(creds))), sent(&expected));
    assert_eq!(next(Task::ListKeys, Event::Keys(None)), sent(DATABASE_ERROR));
}

#[test]
fn status_of_a_store() {
    let report = Report {
        stats: Some(Stats {
            objects: 3,
            bytes: 1536,
            chunks: 4,
            buckets: 2,
            keys: 5,
            mp_active: 1,
        }),
        overrides: Some(vec![(s("backup_interval_secs"), s("60")), (s("concurrency"), s("9"))]),
        backups: vec![(s("old.sqlite"), 1), (s("new.sqlite"), 2048)],
    };
    let expected = "📊 存储统计\n  对象 3 个 / 1.50 KiB\n  分片 4 条\n  桶 2 个，密钥 5 把\n  进行中分片上传 1\n\n⚙️ 运行参数\n  下载并发：9（自定义）\n  备份间隔：60（自定义）\n  备份保留：14（默认）\n  自定义项：\n  backup_interval_secs = 60\n  concurrency = 9\n\n💾 备份\n  现有 2 份，最新：new.sqlite（2.00 KiB）";
    assert_eq!(status(&defaults(), &report), expected);
    let (t, a) = handle("/status");
    assert_eq!(a, Action::ReadStatus);
    assert_eq!(next(t, Event::Status(report)), sent(expected));
}

#[test]
fn status_of_nothing() {
    for overrides in [None, Some(vec![])] {
        let report = Report { stats: None, overrides, backups: vec![] };
        assert_eq!(
            status(&defaults(), &report),
            "📊 存储统计\n  对象 0 个 / 0 B\n  分片 0 条\n  桶 0 个，密钥 0 把\n  进行中分片上传 0\n\n⚙️ 运行参数\n  下载并发：6（默认）\n  备份间隔：21600（默认）\n  备份保留：14（默认）\n  自定义项：\n无（全部使用默认值）\n\n💾 备份\n  现有 0 份，最新：无"
        );
    }
}

#[test]
fn names_carry_time_and_chance() {
    assert_eq!(restore_file_name("20250102T030405Z"), "tg-s3-restore-20250102T030405Z.sqlite");
    let name = fresh_restore_name();
    let stamp = name.strip_prefix("tg-s3-restore-").unwrap().strip_suffix(".sqlite").unwrap();
    assert!(!name.contains('/'));
    assert!(stamp.len() >= 16 && stamp.ends_with('Z'));
    assert_eq!(stamp.as_bytes()[stamp.len() - 8], b'T');
    assert!(stamp.chars().filter(|c| c.is_ascii_digit()).count() >= 14);
    assert_eq!(stage_dir_name("x"), "consolidate-x");
    let (a, b) = (fresh_stage_name(), fresh_stage_name());
    assert_ne!(a, b);
    assert!(!a.contains('/'));
    let id = a.strip_prefix("consolidate-").unwrap();
    assert_eq!(id.len(), 36);
    for (i, c) in id.chars().enumerate() {
        match i {
            8 | 13 | 18 | 23 => assert_eq!(c, '-'),
            14 => assert_eq!(c, '4'),
            19 => assert!("89ab".contains(c)),
            _ => assert!(c.is_ascii_digit() || ('a'..='f').contains(&c)),
        }
    }
}

#[test]
fn serving_is_the_default() {
    assert_eq!(Cli { cmd: None }.command(), Cmd::Serve);
    let cmd = Cmd::Credential { action: CredAction::List };
    assert_eq!(Cli { cmd: Some(cmd) }.command(), Cmd::Credential { action: CredAction::List });
    assert_eq!(DEFAULT_STALE_HOURS, 24);
}
