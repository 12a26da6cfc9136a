//! One command, from the message to the answer: the work it asks for, step by step, and what is
//! made of each outcome.

use vstd::prelude::*;

use crate::amount::{hour_tenths, human_bytes, human_text, one_decimal};
use crate::chatbot::{
    command_name, name_of_command, route_of, strangers_are_ignored, whitelisted, Route,
};
use crate::keys::{
    bytes_for_new_key, is_root_key, list, list_text, make_key, new_key, new_key_bytes,
    replacement_keeps_the_kind, root_keys_begin_with_root, Credential, SECRET_BYTES,
};
use crate::settings::{
    acceptable, check, concurrency_saved, concurrency_saved_text, current_text, describe,
    interval_saved, interval_saved_text, keep_saved, keep_saved_text, names_share_the_row, number_in,
    number_of, refusal, refusal_text, row_name, row_of, setting_of, Defaults, Setting, CUSTOM,
};
use crate::status::{effective, find_value, status, status_text, Report};
use crate::text::{
    dec, digits_stand_in_their_places, lower, lower_char, numbers_are_read,
    other_texts_are_no_numbers, same_text, split_words, to_lower, views, word,
};
use crate::update::{opt_text, Update};

verus! {

/// The menu of commands.
pub const HELP: &'static str = "\
    📖 管理命令\n\
    /status -- 运行参数 + 存储统计\n\
    /keys -- 列出所有访问密钥\n\
    /rotate <access_key> -- 换密钥（保留 key 不变）\n\
    /rekey <access_key> -- 密钥对全部重置\n\
    \n\
    💾 备份\n\
    /backup -- 立即备份并把 .sqlite 发给你\n\
    /restore -- 发 .sqlite 文件，说明写 /restore（或回复该文件发 /restore）\n\
    \u{20}\u{20}· 恢复前自动生成回滚点，校验失败不动数据库\n\
    \n\
    ⚙️ 参数设置（写入数据库，重启保留）\n\
    /set concurrency <1-32> -- 下载并发数\n\
    /set backup_interval <秒> -- 自动备份间隔，0=关闭\n\
    /set backup_keep <N> -- 备份保留份数\n\
    /set <参数名> -- 查看当前值";

/// The answer to a text that is no command.
pub const UNKNOWN_COMMAND: &'static str = "未知命令，发 /help 看菜单";

/// The answer to a restore command without a file.
pub const ASK_FILE: &'static str = "请把 .sqlite 备份文件直接发给我，并在说明（caption）里写 /restore；或者先发文件，再回复那条文件消息发 /restore。";

/// The answer where the database fails.
pub const DATABASE_ERROR: &'static str = "数据库错误";

/// The answer where the database fails to take a setting.
pub const NOT_SAVED: &'static str = "数据库错误，设置未保存";

/// The answer to an access key that does not exist.
pub const NO_SUCH_KEY: &'static str = "未找到该 access_key";

/// The content type under which a backup is sent.
pub const BACKUP_TYPE: &'static str = "application/octet-stream";

/// What a command is waiting for.
#[derive(Debug, PartialEq, Eq)]
pub enum Task<T> {
    /// Nothing: it has been answered.
    Finished,
    /// The figures for the report.
    ReadStatus,
    /// The credentials.
    ListKeys,
    /// The random digits of a new secret key.
    RotateSecret { access_key: T },
    /// The credential to take its new secret.
    Rotate { access_key: T, secret_key: T },
    /// The root key file to be brought up to date.
    RotateSync { secret_key: T },
    /// The random digits of a new access key.
    RekeyName { access_key: T },
    /// The random digits of the secret that goes with it.
    RekeySecret { access_key: T, new_key: T },
    /// The credential to take its new key and secret.
    Rekey { access_key: T, new_key: T, secret_key: T },
    /// The root key file to be brought up to date.
    RekeySync { new_key: T, secret_key: T },
    /// The snapshot.
    Backup,
    /// The snapshot to be sent.
    SendFile { path: T },
    /// The stored value of a setting.
    ReadSetting { key: T },
    /// A setting to be stored.
    WriteSetting { setting: Setting, value: T },
    /// The download parallelism to be changed.
    ApplyPermits { value: T },
    /// A name for the file that is to be restored.
    NameRestore { file_id: T },
    /// The file to be downloaded.
    Download { name: T },
    /// The file to be put in place of the database.
    Recover { name: T, size: u64 },
    /// The staged copy to be removed.
    Discard { reply: T },
}

/// What is to be done next.
#[derive(Debug, PartialEq, Eq)]
pub enum Action<T> {
    /// Nothing.
    Nothing,
    /// Send this answer, unless it is empty.
    Send { text: T },
    /// Read the figures for the report.
    ReadStatus,
    /// Read the credentials.
    ListKeys,
    /// Draw this many random bytes, as hexadecimal digits.
    MakeHex { bytes: u64 },
    /// Give the credential a new secret.
    Rotate { access_key: T, secret_key: T },
    /// Give the credential a new key and a new secret.
    Rekey { access_key: T, new_key: T, secret_key: T },
    /// Bring the root key file up to date, where the key is the root key.
    SyncRootFile { access_key: T, replaced_by: Option<T>, secret_key: T },
    /// Take a snapshot of the database.
    TakeBackup,
    /// Send the snapshot to the chat.
    SendFile { path: T, name: T },
    /// Read a row of the settings.
    ReadSetting { row: T },
    /// Write a row of the settings.
    WriteSetting { row: T, value: T },
    /// Change the download parallelism.
    SetPermits { permits: u64 },
    /// Make a name for the file that is to be restored.
    NameRestore,
    /// Download the file into the staging directory, under this name.
    Download { file_id: T, name: T },
    /// Check the staged file and put it in place of the database.
    Recover { name: T },
    /// Remove the staged file.
    Discard { name: T },
}

/// How an action came out.
#[derive(Debug)]
pub enum Event {
    Status(Report),
    /// The credentials, unless the database failed.
    Keys(Option<Vec<Credential>>),
    Hex(String),
    /// Whether there was such a credential, unless the database failed.
    Changed(Option<bool>),
    Synced,
    /// The path of the snapshot and its file name, or why there is none.
    BackedUp(Result<(String, String), String>),
    FileSent(Result<(), String>),
    /// What the row holds, if anything.
    Setting(Option<String>),
    /// Whether the row was written.
    Written(bool),
    /// The parallelism now in force.
    Permits(u64),
    Named(String),
    Downloaded(Download),
    Recovered(Result<(), String>),
    Discarded,
}

/// How the download of a file came out.
#[derive(Debug)]
pub enum Download {
    /// This many bytes were staged.
    Saved(u64),
    /// The server answered with this status.
    Refused(String),
    /// There was no answer, or the file could not be staged.
    Failed(String),
}

impl View for Task<String> {
    type V = Task<Seq<char>>;

    open spec fn view(&self) -> Task<Seq<char>> {
        match self {
            Task::Finished => Task::Finished,
            Task::ReadStatus => Task::ReadStatus,
            Task::ListKeys => Task::ListKeys,
            Task::RotateSecret { access_key } => Task::RotateSecret { access_key: access_key@ },
            Task::Rotate { access_key, secret_key } => Task::Rotate {
                access_key: access_key@,
                secret_key: secret_key@,
            },
            Task::RotateSync { secret_key } => Task::RotateSync { secret_key: secret_key@ },
            Task::RekeyName { access_key } => Task::RekeyName { access_key: access_key@ },
            Task::RekeySecret { access_key, new_key } => Task::RekeySecret {
                access_key: access_key@,
                new_key: new_key@,
            },
            Task::Rekey { access_key, new_key, secret_key } => Task::Rekey {
                access_key: access_key@,
                new_key: new_key@,
                secret_key: secret_key@,
            },
            Task::RekeySync { new_key, secret_key } => Task::RekeySync {
                new_key: new_key@,
                secret_key: secret_key@,
            },
            Task::Backup => Task::Backup,
            Task::SendFile { path } => Task::SendFile { path: path@ },
            Task::ReadSetting { key } => Task::ReadSetting { key: key@ },
            Task::WriteSetting { setting, value } => Task::WriteSetting {
                setting: *setting,
                value: value@,
            },
            Task::ApplyPermits { value } => Task::ApplyPermits { value: value@ },
            Task::NameRestore { file_id } => Task::NameRestore { file_id: file_id@ },
            Task::Download { name } => Task::Download { name: name@ },
            Task::Recover { name, size } => Task::Recover { name: name@, size: *size },
            Task::Discard { reply } => Task::Discard { reply: reply@ },
        }
    }
}

impl View for Action<String> {
    type V = Action<Seq<char>>;

    open spec fn view(&self) -> Action<Seq<char>> {
        match self {
            Action::Nothing => Action::Nothing,
            Action::Send { text } => Action::Send { text: text@ },
            Action::ReadStatus => Action::ReadStatus,
            Action::ListKeys => Action::ListKeys,
            Action::MakeHex { bytes } => Action::MakeHex { bytes: *bytes },
            Action::Rotate { access_key, secret_key } => Action::Rotate {
                access_key: access_key@,
                secret_key: secret_key@,
            },
            Action::Rekey { access_key, new_key, secret_key } => Action::Rekey {
                access_key: access_key@,
                new_key: new_key@,
                secret_key: secret_key@,
            },
            Action::SyncRootFile { access_key, replaced_by, secret_key } => Action::SyncRootFile {
                access_key: access_key@,
                replaced_by: opt_text(*replaced_by),
                secret_key: secret_key@,
            },
            Action::TakeBackup => Action::TakeBackup,
            Action::SendFile { path, name } => Action::SendFile { path: path@, name: name@ },
            Action::ReadSetting { row } => Action::ReadSetting { row: row@ },
            Action::WriteSetting { row, value } => Action::WriteSetting {
                row: row@,
                value: value@,
            },
            Action::SetPermits { permits } => Action::SetPermits { permits: *permits },
            Action::NameRestore => Action::NameRestore,
            Action::Download { file_id, name } => Action::Download {
                file_id: file_id@,
                name: name@,
            },
            Action::Recover { name } => Action::Recover { name: name@ },
            Action::Discard { name } => Action::Discard { name: name@ },
        }
    }
}

/// A command's state and what is to be done next, in texts.
pub type Move = (Task<Seq<char>>, Action<Seq<char>>);

/// The command is answered with `text`.
pub open spec fn answered(text: Seq<char>) -> Move {
    (Task::Finished, Action::Send { text })
}

/// What `/set` asks for, given the key in lower case: without a value the current one, with an
/// acceptable value that it be stored; any other value is refused.
pub open spec fn begin_setting(key: Seq<char>, value: Seq<char>) -> Move {
    if value.len() == 0 {
        (Task::ReadSetting { key }, Action::ReadSetting { row: row_of(key) })
    } else if acceptable(key, value) {
        (
            Task::WriteSetting { setting: setting_of(key)->0, value },
            Action::WriteSetting { row: row_of(key), value },
        )
    } else {
        answered(refusal(key))
    }
}

/// What a command asks for.
pub open spec fn begin_command(text: Seq<char>) -> Move {
    let name = command_name(text);
    let arg = word(text, 1);
    if name == "help"@ || name == "start"@ {
        answered(HELP@)
    } else if name == "status"@ {
        (Task::ReadStatus, Action::ReadStatus)
    } else if name == "keys"@ {
        (Task::ListKeys, Action::ListKeys)
    } else if name == "rotate"@ && arg.len() > 0 {
        (Task::RotateSecret { access_key: arg }, Action::MakeHex { bytes: SECRET_BYTES })
    } else if name == "rekey"@ && arg.len() > 0 {
        (Task::RekeyName { access_key: arg }, Action::MakeHex { bytes: new_key_bytes(arg) })
    } else if name == "backup"@ {
        (Task::Backup, Action::TakeBackup)
    } else if name == "restore"@ {
        answered(ASK_FILE@)
    } else if name == "set"@ && arg.len() > 0 {
        begin_setting(lower(arg), word(text, 2))
    } else {
        answered(UNKNOWN_COMMAND@)
    }
}

/// What a message asks for.
pub open spec fn begin_route(route: Route<Seq<char>>) -> Move {
    match route {
        Route::Ignore => (Task::Finished, Action::Nothing),
        Route::Reply { chat_id, text } => answered(text),
        Route::Restore { chat_id, file_id } => (Task::NameRestore { file_id }, Action::NameRestore),
        Route::Command { chat_id, text } => begin_command(text),
    }
}

/// The answer to a successful change of a secret.
pub open spec fn rotated_text(secret_key: Seq<char>) -> Seq<char> {
    "✅ 已换 secret（access_key 不变）\nsecret_key: "@ + secret_key
}

/// The answer to a successful change of key and secret.
pub open spec fn rekeyed_text(new_key: Seq<char>, secret_key: Seq<char>) -> Seq<char> {
    "✅ 已全部重置（旧密钥作废）\naccess_key: "@ + new_key + "\nsecret_key: "@ + secret_key
}

/// The answer to a snapshot that could not be taken.
pub open spec fn backup_failed_text(reason: Seq<char>) -> Seq<char> {
    "❌ 备份失败："@ + reason
}

/// The answer to a snapshot that could not be sent.
pub open spec fn send_failed_text(reason: Seq<char>, path: Seq<char>) -> Seq<char> {
    "⚠️ 备份已生成但发送失败："@ + reason + "\n文件在服务器："@ + path
}

/// The answer to a file that could not be downloaded.
pub open spec fn download_failed_text(reason: Seq<char>) -> Seq<char> {
    "❌ 下载失败："@ + reason
}

/// The answer to a successful restore of a file of this size.
pub open spec fn restored_text(size: u64) -> Seq<char> {
    "✅ 数据库已恢复（"@ + human_text((size as i64) as int)
        + "）。\n\n🛟 回滚点：admin 桶 backup/ 里刚生成的 *-pre-restore.sqlite，恢复前的完整状态。如异常可再发它 + /restore 回去。"@
}

/// The answer to a restore that was refused.
pub open spec fn restore_failed_text(reason: Seq<char>) -> Seq<char> {
    "❌ 恢复已中止，数据库未做任何改动：\n"@ + reason
}

/// What follows a stored setting: a new parallelism is applied at once, the rest at the next
/// backup.
pub open spec fn after_write(setting: Setting, value: Seq<char>) -> Move {
    match setting {
        Setting::Concurrency => (
            Task::ApplyPermits { value },
            Action::SetPermits { permits: number_in(value) },
        ),
        Setting::BackupInterval => answered(interval_saved(number_in(value))),
        Setting::BackupKeep => answered(keep_saved(value)),
    }
}

/// What follows an event. One that the command was not waiting for changes nothing.
pub open spec fn next(defaults: Defaults, task: Task<Seq<char>>, event: Event) -> Move {
    match (task, event) {
        (Task::ReadStatus, Event::Status(report)) => answered(status_text(defaults, report)),
        (Task::ListKeys, Event::Keys(Some(creds))) => answered(list_text(creds@)),
        (Task::ListKeys, Event::Keys(None)) => answered(DATABASE_ERROR@),
        (Task::RotateSecret { access_key }, Event::Hex(hex)) => (
            Task::Rotate { access_key, secret_key: hex@ },
            Action::Rotate { access_key, secret_key: hex@ },
        ),
        (Task::Rotate { access_key, secret_key }, Event::Changed(Some(true))) => (
            Task::RotateSync { secret_key },
            Action::SyncRootFile { access_key, replaced_by: None, secret_key },
        ),
        (Task::Rotate { .. }, Event::Changed(Some(false))) => answered(NO_SUCH_KEY@),
        (Task::Rotate { .. }, Event::Changed(None)) => answered(DATABASE_ERROR@),
        (Task::RotateSync { secret_key }, Event::Synced) => answered(rotated_text(secret_key)),
        (Task::RekeyName { access_key }, Event::Hex(hex)) => (
            Task::RekeySecret { access_key, new_key: new_key(access_key, hex@) },
            Action::MakeHex { bytes: SECRET_BYTES },
        ),
        (Task::RekeySecret { access_key, new_key }, Event::Hex(hex)) => (
            Task::Rekey { access_key, new_key, secret_key: hex@ },
            Action::Rekey { access_key, new_key, secret_key: hex@ },
        ),
        (Task::Rekey { access_key, new_key, secret_key }, Event::Changed(Some(true))) => (
            Task::RekeySync { new_key, secret_key },
            Action::SyncRootFile { access_key, replaced_by: Some(new_key), secret_key },
        ),
        (Task::Rekey { .. }, Event::Changed(Some(false))) => answered(NO_SUCH_KEY@),
        (Task::Rekey { .. }, Event::Changed(None)) => answered(DATABASE_ERROR@),
        (Task::RekeySync { new_key, secret_key }, Event::Synced) => answered(
            rekeyed_text(new_key, secret_key),
        ),
        (Task::Backup, Event::BackedUp(Ok(made))) => (
            Task::SendFile { path: made.0@ },
            Action::SendFile { path: made.0@, name: made.1@ },
        ),
        (Task::Backup, Event::BackedUp(Err(e))) => answered(backup_failed_text(e@)),
        (Task::SendFile { .. }, Event::FileSent(Ok(_))) => answered(seq![]),
        (Task::SendFile { path }, Event::FileSent(Err(e))) => answered(send_failed_text(e@, path)),
        (Task::ReadSetting { key }, Event::Setting(stored)) => answered(
            current_text(defaults, key, opt_text(stored)),
        ),
        (Task::WriteSetting { setting, value }, Event::Written(true)) => after_write(setting, value),
        (Task::WriteSetting { .. }, Event::Written(false)) => answered(NOT_SAVED@),
        (Task::ApplyPermits { value }, Event::Permits(n)) => answered(concurrency_saved(value, n)),
        (Task::NameRestore { file_id }, Event::Named(name)) => (
            Task::Download { name: name@ },
            Action::Download { file_id, name: name@ },
        ),
        (Task::Download { name }, Event::Downloaded(Download::Saved(size))) => (
            Task::Recover { name, size },
            Action::Recover { name },
        ),
        (Task::Download { .. }, Event::Downloaded(Download::Refused(status))) => answered(
            download_failed_text("HTTP "@ + status@),
        ),
        (Task::Download { .. }, Event::Downloaded(Download::Failed(e))) => answered(
            download_failed_text(e@),
        ),
        (Task::Recover { name, size }, Event::Recovered(Ok(_))) => (
            Task::Discard { reply: restored_text(size) },
            Action::Discard { name },
        ),
        (Task::Recover { name, .. }, Event::Recovered(Err(e))) => (
            Task::Discard { reply: restore_failed_text(e@) },
            Action::Discard { name },
        ),
        (Task::Discard { reply }, Event::Discarded) => answered(reply),
        _ => (task, Action::Nothing),
    }
}

/// The command is answered with `text`.
fn finish(text: String) -> (r: (Task<String>, Action<String>))
    ensures
        (r.0@, r.1@) == answered(text@),
{
    (Task::Finished, Action::Send { text })
}

/// What `/set` asks for. The letter case of `key` makes no difference.
pub fn set_setting(key: String, value: String) -> (r: (Task<String>, Action<String>))
    ensures
        (r.0@, r.1@) == begin_setting(lower(key@), value@),
{
    let key: String = to_lower(key.as_str());
    let row: String = row_name(key.as_str());
    if value.as_str().is_empty() {
        return (Task::ReadSetting { key }, Action::ReadSetting { row });
    }
    match check(key.as_str(), value.as_str()) {
        Some(setting) => {
            let stored: String = value.clone();
            (Task::WriteSetting { setting, value }, Action::WriteSetting { row, value: stored })
        },
        None => finish(refusal_text(key.as_str())),
    }
}

/// The word at position `i`, empty where there are fewer.
fn word_at(parts: &Vec<String>, i: usize) -> (r: String)
    ensures
        r@ == (if i < parts@.len() {
            parts@[i as int]@
        } else {
            seq![]
        }),
{
    if i < parts.len() {
        parts[i].clone()
    } else {
        String::new()
    }
}

/// What a command asks for.
pub fn handle(text: &str) -> (r: (Task<String>, Action<String>))
    ensures
        (r.0@, r.1@) == begin_command(text@),
{
    let name: String = name_of_command(text);
    let parts: Vec<String> = split_words(text);
    let arg: String = word_at(&parts, 1);
    let arg2: String = word_at(&parts, 2);
    proof {
        assert(views(parts@).len() == parts@.len());
        assert(arg@ == word(text@, 1));
        assert(arg2@ == word(text@, 2));
    }
    let has_arg: bool = !arg.as_str().is_empty();
    let name: &str = name.as_str();
    if same_text(name, "help") || same_text(name, "start") {
        finish(HELP.to_owned())
    } else if same_text(name, "status") {
        (Task::ReadStatus, Action::ReadStatus)
    } else if same_text(name, "keys") {
        (Task::ListKeys, Action::ListKeys)
    } else if same_text(name, "rotate") && has_arg {
        (Task::RotateSecret { access_key: arg }, Action::MakeHex { bytes: SECRET_BYTES })
    } else if same_text(name, "rekey") && has_arg {
        let bytes: u64 = bytes_for_new_key(arg.as_str());
        (Task::RekeyName { access_key: arg }, Action::MakeHex { bytes })
    } else if same_text(name, "backup") {
        (Task::Backup, Action::TakeBackup)
    } else if same_text(name, "restore") {
        finish(ASK_FILE.to_owned())
    } else if same_text(name, "set") && has_arg {
        set_setting(arg, arg2)
    } else {
        finish(UNKNOWN_COMMAND.to_owned())
    }
}

/// What a message asks for.
pub fn begin(route: Route<String>) -> (r: (Task<String>, Action<String>))
    ensures
        (r.0@, r.1@) == begin_route(route@),
{
    match route {
        Route::Ignore => (Task::Finished, Action::Nothing),
        Route::Reply { text, .. } => finish(text),
        Route::Restore { file_id, .. } => (Task::NameRestore { file_id }, Action::NameRestore),
        Route::Command { text, .. } => handle(text.as_str()),
    }
}

fn settle_write(setting: Setting, value: String) -> (r: (Task<String>, Action<String>))
    ensures
        (r.0@, r.1@) == after_write(setting, value@),
{
    let n: u64 = number_of(value.as_str());
    match setting {
        Setting::Concurrency => (Task::ApplyPermits { value }, Action::SetPermits { permits: n }),
        Setting::BackupInterval => finish(interval_saved_text(n)),
        Setting::BackupKeep => finish(keep_saved_text(value.as_str())),
    }
}

/// What follows an event. One that the command was not waiting for changes nothing.
pub fn step(defaults: &Defaults, task: Task<String>, event: Event) -> (r: (
    Task<String>,
    Action<String>,
))
    ensures
        (r.0@, r.1@) == next(*defaults, task@, event),
{
    match (task, event) {
        (Task::ReadStatus, Event::Status(report)) => finish(status(defaults, &report)),
        (Task::ListKeys, Event::Keys(Some(creds))) => finish(list(&creds)),
        (Task::ListKeys, Event::Keys(None)) => finish(DATABASE_ERROR.to_owned()),
        (Task::RotateSecret { access_key }, Event::Hex(hex)) => {
            let (k, s): (String, String) = (access_key.clone(), hex.clone());
            (
                Task::Rotate { access_key, secret_key: hex },
                Action::Rotate { access_key: k, secret_key: s },
            )
        },
        (Task::Rotate { access_key, secret_key }, Event::Changed(Some(true))) => {
            let s: String = secret_key.clone();
            (
                Task::RotateSync { secret_key },
                Action::SyncRootFile { access_key, replaced_by: None, secret_key: s },
            )
        },
        (Task::Rotate { .. }, Event::Changed(Some(false))) => finish(NO_SUCH_KEY.to_owned()),
        (Task::Rotate { .. }, Event::Changed(None)) => finish(DATABASE_ERROR.to_owned()),
        (Task::RotateSync { secret_key }, Event::Synced) => finish(
            "✅ 已换 secret（access_key 不变）\nsecret_key: ".to_owned().concat(secret_key.as_str()),
        ),
        (Task::RekeyName { access_key }, Event::Hex(hex)) => {
            let new_key: String = make_key(access_key.as_str(), hex.as_str());
            (Task::RekeySecret { access_key, new_key }, Action::MakeHex { bytes: SECRET_BYTES })
        },
        (Task::RekeySecret { access_key, new_key }, Event::Hex(hex)) => {
            let (k, n, s): (String, String, String) = (
                access_key.clone(),
                new_key.clone(),
                hex.clone(),
            );
            (
                Task::Rekey { access_key, new_key, secret_key: hex },
                Action::Rekey { access_key: k, new_key: n, secret_key: s },
            )
        },
        (Task::Rekey { access_key, new_key, secret_key }, Event::Changed(Some(true))) => {
            let (n, s): (String, String) = (new_key.clone(), secret_key.clone());
            (
                Task::RekeySync { new_key, secret_key },
                Action::SyncRootFile { access_key, replaced_by: Some(n), secret_key: s },
            )
        },
        (Task::Rekey { .. }, Event::Changed(Some(false))) => finish(NO_SUCH_KEY.to_owned()),
        (Task::Rekey { .. }, Event::Changed(None)) => finish(DATABASE_ERROR.to_owned()),
        (Task::RekeySync { new_key, secret_key }, Event::Synced) => finish(
            "✅ 已全部重置（旧密钥作废）\naccess_key: ".to_owned().concat(new_key.as_str()).concat(
                "\nsecret_key: ",
            ).concat(secret_key.as_str()),
        ),
        (Task::Backup, Event::BackedUp(Ok(made))) => {
            let (path, name): (String, String) = made;
            let p: String = path.clone();
            (Task::SendFile { path }, Action::SendFile { path: p, name })
        },
        (Task::Backup, Event::BackedUp(Err(e))) => finish(
            "❌ 备份失败：".to_owned().concat(e.as_str()),
        ),
        (Task::SendFile { .. }, Event::FileSent(Ok(_))) => finish(String::new()),
        (Task::SendFile { path }, Event::FileSent(Err(e))) => finish(
            "⚠️ 备份已生成但发送失败：".to_owned().concat(e.as_str()).concat("\n文件在服务器：").concat(
                path.as_str(),
            ),
        ),
        (Task::ReadSetting { key }, Event::Setting(stored)) => finish(
            describe(defaults, key.as_str(), stored),
        ),
        (Task::WriteSetting { setting, value }, Event::Written(true)) => settle_write(
            setting,
            value,
        ),
        (Task::WriteSetting { .. }, Event::Written(false)) => finish(NOT_SAVED.to_owned()),
        (Task::ApplyPermits { value }, Event::Permits(n)) => finish(
            concurrency_saved_text(value.as_str(), n),
        ),
        (Task::NameRestore { file_id }, Event::Named(name)) => {
            let n: String = name.clone();
            (Task::Download { name }, Action::Download { file_id, name: n })
        },
        (Task::Download { name }, Event::Downloaded(Download::Saved(size))) => {
            let n: String = name.clone();
            (Task::Recover { name, size }, Action::Recover { name: n })
        },
        (Task::Download { .. }, Event::Downloaded(Download::Refused(status))) => {
            let reason: String = "HTTP ".to_owned().concat(status.as_str());
            finish("❌ 下载失败：".to_owned().concat(reason.as_str()))
        },
        (Task::Download { .. }, Event::Downloaded(Download::Failed(e))) => finish(
            "❌ 下载失败：".to_owned().concat(e.as_str()),
        ),
        (Task::Recover { name, size }, Event::Recovered(Ok(_))) => {
            let reply: String = "✅ 数据库已恢复（".to_owned().concat(
                human_bytes(size as i64).as_str(),
            ).concat(
                "）。\n\n🛟 回滚点：admin 桶 backup/ 里刚生成的 *-pre-restore.sqlite，恢复前的完整状态。如异常可再发它 + /restore 回去。",
            );
            (Task::Discard { reply }, Action::Discard { name })
        },
        (Task::Recover { name, .. }, Event::Recovered(Err(e))) => {
            let reply: String = "❌ 恢复已中止，数据库未做任何改动：\n".to_owned().concat(e.as_str());
            (Task::Discard { reply }, Action::Discard { name })
        },
        (Task::Discard { reply }, Event::Discarded) => finish(reply),
        (task, _) => (task, Action::Nothing),
    }
}

/// Whether `event` says how the action came out that `task` waits for.
pub open spec fn expects(task: Task<Seq<char>>, event: Event) -> bool {
    match task {
        Task::Finished => false,
        Task::ReadStatus => event is Status,
        Task::ListKeys => event is Keys,
        Task::RotateSecret { .. } => event is Hex,
        Task::Rotate { .. } => event is Changed,
        Task::RotateSync { .. } => event is Synced,
        Task::RekeyName { .. } => event is Hex,
        Task::RekeySecret { .. } => event is Hex,
        Task::Rekey { .. } => event is Changed,
        Task::RekeySync { .. } => event is Synced,
        Task::Backup => event is BackedUp,
        Task::SendFile { .. } => event is FileSent,
        Task::ReadSetting { .. } => event is Setting,
        Task::WriteSetting { .. } => event is Written,
        Task::ApplyPermits { .. } => event is Permits,
        Task::NameRestore { .. } => event is Named,
        Task::Download { .. } => event is Downloaded,
        Task::Recover { .. } => event is Recovered,
        Task::Discard { .. } => event is Discarded,
    }
}

/// How many actions a command still needs at most, its answer included.
pub open spec fn steps_left(task: Task<Seq<char>>) -> nat {
    match task {
        Task::Finished => 0,
        Task::ReadStatus => 1,
        Task::ListKeys => 1,
        Task::RotateSecret { .. } => 3,
        Task::Rotate { .. } => 2,
        Task::RotateSync { .. } => 1,
        Task::RekeyName { .. } => 4,
        Task::RekeySecret { .. } => 3,
        Task::Rekey { .. } => 2,
        Task::RekeySync { .. } => 1,
        Task::Backup => 2,
        Task::SendFile { .. } => 1,
        Task::ReadSetting { .. } => 1,
        Task::WriteSetting { .. } => 2,
        Task::ApplyPermits { .. } => 1,
        Task::NameRestore { .. } => 4,
        Task::Download { .. } => 3,
        Task::Recover { .. } => 2,
        Task::Discard { .. } => 1,
    }
}

/// Every command comes to an end, and it is answered when it does and not before.
pub proof fn commands_end_with_their_answer(
    defaults: Defaults,
    route: Route<Seq<char>>,
    task: Task<Seq<char>>,
    event: Event,
)
    ensures
        steps_left(begin_route(route).0) <= 4,
        begin_route(route).0 is Finished <==> begin_route(route).1 is Send || route is Ignore,
        expects(task, event) ==> steps_left(next(defaults, task, event).0) < steps_left(task),
        expects(task, event) ==> (next(defaults, task, event).0 is Finished <==> next(
            defaults,
            task,
            event,
        ).1 is Send),
        !expects(task, event) ==> next(defaults, task, event) == (task, Action::<Seq<char>>::Nothing),
{
}

/// Nobody outside the whitelist gets anything: no answer, and nothing is done.
pub proof fn strangers_get_nothing(admins: Seq<Seq<char>>, update: Update<Seq<char>>)
    requires
        update.message matches Some(m) ==> (m.from_id matches Some(user) ==> !whitelisted(
            admins,
            user,
        )),
    ensures
        begin_route(route_of(admins, update)) == (Task::<Seq<char>>::Finished, Action::<
            Seq<char>,
        >::Nothing),
{
    strangers_are_ignored(admins, update);
}

/// A value that `/set` has stored is what `/set` shows afterwards, under any name of the setting,
/// and what `/status` takes to be in force.
pub proof fn set_then_show(
    defaults: Defaults,
    key: Seq<char>,
    alias: Seq<char>,
    value: Seq<char>,
    stored: Event,
    overrides: Seq<(Seq<char>, Seq<char>)>,
)
    requires
        value.len() > 0,
        acceptable(key, value),
        setting_of(alias) == setting_of(key),
        stored matches Event::Setting(Some(v)) && v@ == value,
        find_value(overrides, row_of(key)) == Some(value),
    ensures
        begin_setting(key, value).1 == (Action::WriteSetting { row: row_of(key), value }),
        begin_setting(alias, seq![]).1 == (Action::ReadSetting { row: row_of(key) }),
        next(defaults, begin_setting(alias, seq![]).0, stored) == answered(
            alias + " = "@ + value + CUSTOM@,
        ),
        effective(defaults, overrides, setting_of(key)->0) == value + CUSTOM@,
{
    names_share_the_row(key);
    names_share_the_row(alias);
}

/// A `/set` command does what setting its second word to its third one does, and without a second
/// word it is no command.
pub proof fn set_command_sets(text: Seq<char>)
    requires
        command_name(text) == "set"@,
    ensures
        word(text, 1).len() > 0 ==> begin_command(text) == begin_setting(
            lower(word(text, 1)),
            word(text, 2),
        ),
        word(text, 1).len() == 0 ==> begin_command(text) == answered(UNKNOWN_COMMAND@),
{
    reveal_strlit("set");
    reveal_strlit("help");
    reveal_strlit("start");
    reveal_strlit("status");
    reveal_strlit("keys");
    reveal_strlit("rotate");
    reveal_strlit("rekey");
    reveal_strlit("backup");
    reveal_strlit("restore");
    assert("set"@.len() == 3);
    assert("help"@.len() == 4 && "start"@.len() == 5 && "status"@.len() == 6);
    assert("keys"@.len() == 4 && "rotate"@.len() == 6 && "rekey"@.len() == 5);
    assert("backup"@.len() == 6 && "restore"@.len() == 7);
}

/// Keys that differ in the case of their letters only name the same thing.
pub proof fn letter_case_of_a_key_is_ignored(key: Seq<char>, other: Seq<char>, value: Seq<char>)
    requires
        key.len() == other.len(),
        forall|i: int|
            0 <= i < key.len() ==> lower_char(#[trigger] key[i]) == lower_char(other[i]),
    ensures
        begin_setting(lower(key), value) == begin_setting(lower(other), value),
{
    assert(lower(key) =~= lower(other));
}

/// A value outside the range of its setting is never stored.
pub proof fn only_acceptable_values_are_stored(text: Seq<char>)
    ensures
        begin_command(text).1 matches Action::WriteSetting { row, value } ==> {
            let key = lower(word(text, 1));
            &&& value == word(text, 2)
            &&& acceptable(key, value)
            &&& row == row_of(key)
        },
{
}

/// Once stored, a new parallelism is applied as it was given.
pub proof fn stored_parallelism_is_applied(
    defaults: Defaults,
    key: Seq<char>,
    value: Seq<char>,
    written: Event,
)
    requires
        value.len() > 0,
        acceptable(key, value),
        setting_of(key) == Some(Setting::Concurrency),
        written == Event::Written(true),
    ensures
        next(defaults, begin_setting(key, value).0, written).1 == (Action::<
            Seq<char>,
        >::SetPermits { permits: number_in(value) }),
        1 <= number_in(value) <= 32,
{
}

/// The database is only ever replaced by a file that was downloaded in full, and the staged copy
/// is removed however that came out.
pub proof fn restore_follows_download(defaults: Defaults, task: Task<Seq<char>>, event: Event)
    ensures
        next(defaults, task, event).1 matches Action::Recover { name } ==> task == (
        Task::Download { name }) && event matches Event::Downloaded(Download::Saved(_)),
        task matches Task::Recover { name, .. } ==> (event is Recovered ==> next(
            defaults,
            task,
            event,
        ).1 == (Action::Discard { name })),
{
}

/// The root key file is only touched once the credential has been changed.
pub proof fn sync_follows_change(defaults: Defaults, task: Task<Seq<char>>, event: Event)
    ensures
        next(defaults, task, event).1 is SyncRootFile ==> event == Event::Changed(Some(true)),
{
}

/// A rotation keeps the access key; the secret that is stored, the one that goes to the root key
/// file and the one in the answer are the same.
pub proof fn rotation_hands_out_the_stored_secret(
    defaults: Defaults,
    access_key: Seq<char>,
    hex: Event,
    changed: Event,
    synced: Event,
)
    requires
        hex is Hex,
        changed == Event::Changed(Some(true)),
        synced is Synced,
    ensures
        ({
            let secret_key = hex->Hex_0@;
            let first = next(defaults, Task::RotateSecret { access_key }, hex);
            let second = next(defaults, first.0, changed);
            let third = next(defaults, second.0, synced);
            &&& first.1 == (Action::Rotate { access_key, secret_key })
            &&& second.1 == (Action::SyncRootFile { access_key, replaced_by: None, secret_key })
            &&& third == answered(rotated_text(secret_key))
        }),
{
}

/// A reset replaces key and secret; what is stored, what goes to the root key file and what is in
/// the answer are the same, and a root key is replaced by a root key.
pub proof fn reset_hands_out_the_stored_credential(
    defaults: Defaults,
    access_key: Seq<char>,
    name: Event,
    hex: Event,
    changed: Event,
    synced: Event,
)
    requires
        name is Hex,
        hex is Hex,
        changed == Event::Changed(Some(true)),
        synced is Synced,
    ensures
        ({
            let key = new_key(access_key, name->Hex_0@);
            let secret_key = hex->Hex_0@;
            let first = next(defaults, Task::RekeyName { access_key }, name);
            let second = next(defaults, first.0, hex);
            let third = next(defaults, second.0, changed);
            let fourth = next(defaults, third.0, synced);
            &&& is_root_key(key) == is_root_key(access_key)
            &&& second.1 == (Action::Rekey { access_key, new_key: key, secret_key })
            &&& third.1 == (Action::SyncRootFile { access_key, replaced_by: Some(key), secret_key })
            &&& fourth == answered(rekeyed_text(key, secret_key))
        }),
{
    replacement_keeps_the_kind(access_key, name->Hex_0@);
}

proof fn lemma_command_names()
    ensures
        "help"@.len() == 4 && "help"@[0] == 'h',
        "keys"@.len() == 4 && "keys"@[0] == 'k',
        "start"@.len() == 5 && "start"@[0] == 's',
        "rekey"@.len() == 5 && "rekey"@[0] == 'r',
        "status"@.len() == 6 && "status"@[0] == 's',
        "rotate"@.len() == 6 && "rotate"@[0] == 'r',
        "backup"@.len() == 6 && "backup"@[0] == 'b',
        "restore"@.len() == 7,
        "set"@.len() == 3,
{
    reveal_strlit("set");
    reveal_strlit("help");
    reveal_strlit("start");
    reveal_strlit("status");
    reveal_strlit("keys");
    reveal_strlit("rotate");
    reveal_strlit("rekey");
    reveal_strlit("backup");
    reveal_strlit("restore");
}

/// What each command asks for first. A text that names none of them, or lacks the argument that it
/// needs, is answered as no command.
pub proof fn commands_ask_for_their_work(text: Seq<char>)
    ensures
        ({
            let name = command_name(text);
            let arg = word(text, 1);
            let (task, action) = begin_command(text);
            let known = name == "help"@ || name == "start"@ || name == "status"@ || name == "keys"@
                || name == "backup"@ || name == "restore"@ || ((name == "rotate"@ || name
                == "rekey"@ || name == "set"@) && arg.len() > 0);
            &&& name == "help"@ || name == "start"@ ==> task is Finished && action == (
            Action::Send {
                text: "\
    📖 管理命令\n\
    /status -- 运行参数 + 存储统计\n\
    /keys -- 列出所有访问密钥\n\
    /rotate <access_key> -- 换密钥（保留 key 不变）\n\
    /rekey <access_key> -- 密钥对全部重置\n\
    \n\
    💾 备份\n\
    /backup -- 立即备份并把 .sqlite 发给你\n\
    /restore -- 发 .sqlite 文件，说明写 /restore（或回复该文件发 /restore）\n\
    \u{20}\u{20}· 恢复前自动生成回滚点，校验失败不动数据库\n\
    \n\
    ⚙️ 参数设置（写入数据库，重启保留）\n\
    /set concurrency <1-32> -- 下载并发数\n\
    /set backup_interval <秒> -- 自动备份间隔，0=关闭\n\
    /set backup_keep <N> -- 备份保留份数\n\
    /set <参数名> -- 查看当前值"@,
            })
            &&& name == "status"@ ==> action == Action::<Seq<char>>::ReadStatus
            &&& name == "keys"@ ==> action == Action::<Seq<char>>::ListKeys
            &&& name == "backup"@ ==> action == Action::<Seq<char>>::TakeBackup
            &&& name == "restore"@ ==> task is Finished && action == (Action::Send {
                text: "请把 .sqlite 备份文件直接发给我，并在说明（caption）里写 /restore；或者先发文件，再回复那条文件消息发 /restore。"@,
            })
            &&& name == "rotate"@ && arg.len() > 0 ==> action == (Action::<Seq<char>>::MakeHex {
                bytes: 30,
            })
            &&& name == "rekey"@ && arg.len() > 0 ==> action == (Action::<Seq<char>>::MakeHex {
                bytes: if arg.len() >= 4 && arg[0] == 'r' && arg[1] == 'o' && arg[2] == 'o'
                    && arg[3] == 't' {
                    10
                } else {
                    8
                },
            })
            &&& !known ==> task is Finished && action == (Action::Send {
                text: "未知命令，发 /help 看菜单"@,
            })
        }),
{
    lemma_command_names();
    root_keys_begin_with_root(word(text, 1));
}

/// A rotation, from the command to the answer: the credential whose key the command names gets the
/// secret that was drawn, and that is what the root key file and the answer are given.
pub proof fn rotations_run_their_course(
    defaults: Defaults,
    text: Seq<char>,
    hex: String,
    changed: Option<bool>,
)
    requires
        command_name(text) == "rotate"@,
        word(text, 1).len() > 0,
    ensures
        ({
            let access_key = word(text, 1);
            let first = next(defaults, begin_command(text).0, Event::Hex(hex));
            let second = next(defaults, first.0, Event::Changed(changed));
            let third = next(defaults, second.0, Event::Synced);
            &&& first.1 == (Action::Rotate { access_key, secret_key: hex@ })
            &&& changed == Some(true) ==> second.1 == (Action::SyncRootFile {
                access_key,
                replaced_by: None,
                secret_key: hex@,
            }) && third.1 == (Action::Send {
                text: "✅ 已换 secret（access_key 不变）\nsecret_key: "@ + hex@,
            })
            &&& changed == Some(false) ==> second.1 == (Action::Send {
                text: "未找到该 access_key"@,
            })
            &&& changed is None ==> second.1 == (Action::Send { text: "数据库错误"@ })
        }),
{
    lemma_command_names();
}

/// A reset, from the command to the answer: a key that begins with `root` is replaced by another such
/// key and any other by one that begins with `key`, made from the first digits that were drawn, with
/// the second ones for its secret. What is stored goes to the root key file and into the answer.
pub proof fn resets_run_their_course(
    defaults: Defaults,
    text: Seq<char>,
    name: String,
    hex: String,
    changed: Option<bool>,
)
    requires
        command_name(text) == "rekey"@,
        word(text, 1).len() > 0,
    ensures
        ({
            let access_key = word(text, 1);
            let is_root = access_key.len() >= 4 && access_key[0] == 'r' && access_key[1] == 'o'
                && access_key[2] == 'o' && access_key[3] == 't';
            let key = if is_root {
                "root"@ + name@
            } else {
                "key"@ + name@
            };
            let first = next(defaults, begin_command(text).0, Event::Hex(name));
            let second = next(defaults, first.0, Event::Hex(hex));
            let third = next(defaults, second.0, Event::Changed(changed));
            let fourth = next(defaults, third.0, Event::Synced);
            &&& first.1 == (Action::<Seq<char>>::MakeHex { bytes: 30 })
            &&& second.1 == (Action::Rekey { access_key, new_key: key, secret_key: hex@ })
            &&& changed == Some(true) ==> third.1 == (Action::SyncRootFile {
                access_key,
                replaced_by: Some(key),
                secret_key: hex@,
            }) && fourth.1 == (Action::Send {
                text: "✅ 已全部重置（旧密钥作废）\naccess_key: "@ + key + "\nsecret_key: "@ + hex@,
            })
            &&& changed == Some(false) ==> third.1 == (Action::Send {
                text: "未找到该 access_key"@,
            })
            &&& changed is None ==> third.1 == (Action::Send { text: "数据库错误"@ })
        }),
{
    lemma_command_names();
    root_keys_begin_with_root(word(text, 1));
}

/// A restore, from the request to the answer: the file of the request is downloaded under the name
/// that was made for it, what was staged under that name is put in place of the database, and
/// whatever comes of that, it is removed under that name. The answer says how it came out.
pub proof fn restores_run_their_course(
    defaults: Defaults,
    chat_id: i64,
    file_id: Seq<char>,
    name: String,
    size: u64,
    status: String,
    reason: String,
    recovered: Result<(), String>,
)
    ensures
        ({
            let start = begin_route(Route::Restore { chat_id, file_id });
            let named = next(defaults, start.0, Event::Named(name));
            let saved = next(defaults, named.0, Event::Downloaded(Download::Saved(size)));
            let refused = next(defaults, named.0, Event::Downloaded(Download::Refused(status)));
            let failed = next(defaults, named.0, Event::Downloaded(Download::Failed(reason)));
            let tried = next(defaults, saved.0, Event::Recovered(recovered));
            let done = next(defaults, tried.0, Event::Discarded);
            &&& start.1 == Action::<Seq<char>>::NameRestore
            &&& named.1 == (Action::Download { file_id, name: name@ })
            &&& saved.1 == (Action::Recover { name: name@ })
            &&& refused.1 == (Action::Send { text: "❌ 下载失败："@ + ("HTTP "@ + status@) })
            &&& failed.1 == (Action::Send { text: "❌ 下载失败："@ + reason@ })
            &&& tried.1 == (Action::Discard { name: name@ })
            &&& recovered matches Ok(_) ==> done.1 == (Action::Send {
                text: "✅ 数据库已恢复（"@ + human_text((size as i64) as int)
                    + "）。\n\n🛟 回滚点：admin 桶 backup/ 里刚生成的 *-pre-restore.sqlite，恢复前的完整状态。如异常可再发它 + /restore 回去。"@,
            })
            &&& recovered matches Err(e) ==> done.1 == (Action::Send {
                text: "❌ 恢复已中止，数据库未做任何改动：\n"@ + e@,
            })
        }),
{
}

/// A backup, from the command to the answer: the snapshot that was taken is sent, and once it is
/// sent there is nothing more to say.
pub proof fn backups_run_their_course(
    defaults: Defaults,
    text: Seq<char>,
    made: Result<(String, String), String>,
    sent: Result<(), String>,
)
    requires
        command_name(text) == "backup"@,
    ensures
        ({
            let first = next(defaults, begin_command(text).0, Event::BackedUp(made));
            let second = next(defaults, first.0, Event::FileSent(sent));
            &&& made matches Err(e) ==> first.1 == (Action::Send { text: "❌ 备份失败："@ + e@ })
            &&& made matches Ok(file) ==> {
                &&& first.1 == (Action::SendFile { path: file.0@, name: file.1@ })
                &&& sent matches Ok(_) ==> second.1 == (Action::Send { text: Seq::<char>::empty() })
                &&& sent matches Err(e) ==> second.1 == (Action::Send {
                    text: "⚠️ 备份已生成但发送失败："@ + e@ + "\n文件在服务器："@ + file.0@,
                })
            }
        }),
{
    lemma_command_names();
}

/// The report and the list of keys are the answers to their commands; a database that fails is
/// reported instead of the list.
pub proof fn reports_and_lists_are_answered(
    defaults: Defaults,
    text: Seq<char>,
    report: Report,
    keys: Option<Vec<Credential>>,
)
    ensures
        command_name(text) == "status"@ ==> next(
            defaults,
            begin_command(text).0,
            Event::Status(report),
        ).1 == (Action::Send { text: status_text(defaults, report) }),
        command_name(text) == "keys"@ ==> next(
            defaults,
            begin_command(text).0,
            Event::Keys(keys),
        ).1 == (Action::Send {
            text: match keys {
                Some(creds) => list_text(creds@),
                None => "数据库错误"@,
            },
        }),
{
    lemma_command_names();
}

/// Every whole number in the range of a setting is stored as it was written, with or without a plus
/// sign and zeros in front, and no other is: for the download parallelism from 1 to 32, for the
/// snapshots to keep from 1 to 365, for the interval any that fits into 64 bits. Numbers for anything
/// else are refused.
pub proof fn numbers_in_range_are_stored(text: Seq<char>, n: nat, plus: bool, zeros: Seq<char>)
    requires
        command_name(text) == "set"@,
        word(text, 1).len() > 0,
        forall|i: int| 0 <= i < zeros.len() ==> #[trigger] zeros[i] == '0',
        word(text, 2) == if plus {
            seq!['+'] + zeros + dec(n)
        } else {
            zeros + dec(n)
        },
    ensures
        ({
            let key = lower(word(text, 1));
            let value = word(text, 2);
            let (task, action) = begin_command(text);
            &&& key == "concurrency"@ ==> if 1 <= n <= 32 {
                &&& task == (Task::WriteSetting { setting: Setting::Concurrency, value })
                &&& action == (Action::WriteSetting { row: "concurrency"@, value })
            } else {
                task is Finished && action == (Action::Send {
                    text: "concurrency 需要 1-32 的整数"@,
                })
            }
            &&& key == "backup_keep"@ ==> if 1 <= n <= 365 {
                &&& task == (Task::WriteSetting { setting: Setting::BackupKeep, value })
                &&& action == (Action::WriteSetting { row: "backup_keep"@, value })
            } else {
                task is Finished && action == (Action::Send {
                    text: "backup_keep 需要 1-365 的整数"@,
                })
            }
            &&& key == "backup_interval"@ || key == "backup_interval_secs"@ ==> if n
                <= 0xffff_ffff_ffff_ffff {
                &&& task == (Task::WriteSetting { setting: Setting::BackupInterval, value })
                &&& action == (Action::WriteSetting { row: "backup_interval_secs"@, value })
            } else {
                task is Finished && action == (Action::Send {
                    text: "backup_interval 需要 ≥0 的秒数（0=关闭自动备份）"@,
                })
            }
            &&& key != "concurrency"@ && key != "backup_keep"@ && key != "backup_interval"@ && key
                != "backup_interval_secs"@ ==> task is Finished && action == (Action::Send {
                text: "未知参数 "@ + key + "，可用：concurrency / backup_interval / backup_keep"@,
            })
        }),
{
    lemma_command_names();
    lemma_setting_names();
    numbers_are_read(n, zeros);
    digits_stand_in_their_places(n, 0);
}

proof fn lemma_setting_names()
    ensures
        "concurrency"@.len() == 11 && "concurrency"@[0] == 'c',
        "backup_keep"@.len() == 11 && "backup_keep"@[0] == 'b',
        "backup_interval"@.len() == 15,
        "backup_interval_secs"@.len() == 20,
{
    reveal_strlit("concurrency");
    reveal_strlit("backup_keep");
    reveal_strlit("backup_interval");
    reveal_strlit("backup_interval_secs");
}

/// What is no whole number is never stored: where a value holds, anywhere but in front, anything but
/// digits, or in front anything but a digit or a plus sign, or is a plus sign alone, it is refused.
pub proof fn other_values_are_refused(text: Seq<char>, k: int)
    requires
        command_name(text) == "set"@,
        word(text, 1).len() > 0,
        word(text, 2).len() > 0,
        word(text, 2) == seq!['+'] || (0 <= k < word(text, 2).len() && !('0' <= word(text, 2)[k]
            <= '9') && (k > 0 || word(text, 2)[k] != '+')),
    ensures
        ({
            let key = lower(word(text, 1));
            let (task, action) = begin_command(text);
            &&& task is Finished
            &&& action is Send
            &&& key == "concurrency"@ ==> action->text == "concurrency 需要 1-32 的整数"@
            &&& key == "backup_keep"@ ==> action->text == "backup_keep 需要 1-365 的整数"@
            &&& key == "backup_interval"@ || key == "backup_interval_secs"@ ==> action->text
                == "backup_interval 需要 ≥0 的秒数（0=关闭自动备份）"@
        }),
{
    lemma_command_names();
    lemma_setting_names();
    other_texts_are_no_numbers(word(text, 2), k);
}

/// What follows once a number has been stored: the parallelism is changed to it at once and the
/// answer says what is in force; the interval is answered in seconds and hours, or as switched off;
/// the number of snapshots is answered as it was written. A database that fails is reported, and
/// then nothing is changed.
pub proof fn stored_numbers_are_applied(
    defaults: Defaults,
    text: Seq<char>,
    n: nat,
    plus: bool,
    zeros: Seq<char>,
    permits: u64,
)
    requires
        command_name(text) == "set"@,
        word(text, 1).len() > 0,
        forall|i: int| 0 <= i < zeros.len() ==> #[trigger] zeros[i] == '0',
        word(text, 2) == if plus {
            seq!['+'] + zeros + dec(n)
        } else {
            zeros + dec(n)
        },
        begin_command(text).1 is WriteSetting,
    ensures
        ({
            let key = lower(word(text, 1));
            let value = word(text, 2);
            let task = begin_command(text).0;
            let (then, action) = next(defaults, task, Event::Written(true));
            let interval = key == "backup_interval"@ || key == "backup_interval_secs"@;
            &&& next(defaults, task, Event::Written(false)).1 == (Action::Send {
                text: "数据库错误，设置未保存"@,
            })
            &&& key == "concurrency"@ ==> action == (Action::<Seq<char>>::SetPermits {
                permits: n as u64,
            }) && next(defaults, then, Event::Permits(permits)).1 == (Action::Send {
                text: "✅ concurrency = "@ + value + "（立即生效，当前许可 "@ + dec(permits as nat)
                    + "；已持久化，重启保留）"@,
            })
            &&& interval && n == 0 ==> action == (Action::Send {
                text: "✅ backup_interval = "@ + dec(0) + "，"@ + "自动备份已关闭"@ + "；调度器下一轮起按新间隔运行"@,
            })
            &&& interval && n > 0 ==> action == (Action::Send {
                text: "✅ backup_interval = "@ + dec(n) + "，"@ + ("每 "@ + dec(n) + " 秒备份一次（约 "@
                    + one_decimal(hour_tenths(n)) + " 小时）"@) + "；调度器下一轮起按新间隔运行"@,
            })
            &&& key == "backup_keep"@ ==> action == (Action::Send {
                text: "✅ backup_keep = "@ + value + "（下一轮备份起生效；已持久化，重启保留）"@,
            })
        }),
{
    lemma_command_names();
    lemma_setting_names();
    numbers_are_read(n, zeros);
    digits_stand_in_their_places(n, 0);
}

/// A question for a setting reads the row that holds it, and is answered with what is there, or else
/// with the deployment's own value. A name that stands for no setting is answered as unknown unless
/// something is stored under it.
pub proof fn questions_are_answered(
    defaults: Defaults,
    text: Seq<char>,
    stored: Option<String>,
)
    requires
        command_name(text) == "set"@,
        word(text, 1).len() > 0,
        word(text, 2).len() == 0,
    ensures
        ({
            let key = lower(word(text, 1));
            let (task, action) = begin_command(text);
            let reply = next(defaults, task, Event::Setting(stored)).1;
            let interval = key == "backup_interval"@ || key == "backup_interval_secs"@;
            &&& action == (Action::ReadSetting {
                row: if interval {
                    "backup_interval_secs"@
                } else {
                    key
                },
            })
            &&& stored matches Some(v) ==> reply == (Action::Send {
                text: key + " = "@ + v@ + "（自定义）"@,
            })
            &&& stored is None && key == "concurrency"@ ==> reply == (Action::Send {
                text: key + " = "@ + dec(defaults.concurrency as nat) + "（默认）"@,
            })
            &&& stored is None && interval ==> reply == (Action::Send {
                text: key + " = "@ + dec(defaults.backup_interval_secs as nat) + "（默认）"@,
            })
            &&& stored is None && key == "backup_keep"@ ==> reply == (Action::Send {
                text: key + " = "@ + dec(defaults.backup_keep as nat) + "（默认）"@,
            })
            &&& stored is None && !interval && key != "concurrency"@ && key != "backup_keep"@
                ==> reply == (Action::Send {
                text: "未知参数 "@ + key + "，可用：concurrency / backup_interval / backup_keep"@,
            })
        }),
{
    lemma_command_names();
    lemma_setting_names();
}

/// The actions that are handed out say what the actions in texts say.
pub proof fn actions_are_handed_out_as_they_are(a: Action<String>)
    ensures
        a is Nothing <==> a@ is Nothing,
        a is ReadStatus <==> a@ is ReadStatus,
        a is ListKeys <==> a@ is ListKeys,
        a is TakeBackup <==> a@ is TakeBackup,
        a is NameRestore <==> a@ is NameRestore,
        a matches Action::Send { text } ==> a@ == (Action::Send { text: text@ }),
        a matches Action::MakeHex { bytes } ==> a@ == (Action::<Seq<char>>::MakeHex { bytes }),
        a matches Action::Rotate { access_key, secret_key } ==> a@ == (Action::Rotate {
            access_key: access_key@,
            secret_key: secret_key@,
        }),
        a matches Action::Rekey { access_key, new_key, secret_key } ==> a@ == (Action::Rekey {
            access_key: access_key@,
            new_key: new_key@,
            secret_key: secret_key@,
        }),
        a matches Action::SyncRootFile { access_key, replaced_by, secret_key } ==> a@ == (
        Action::SyncRootFile {
            access_key: access_key@,
            replaced_by: match replaced_by {
                Some(k) => Some(k@),
                None => None,
            },
            secret_key: secret_key@,
        }),
        a matches Action::SendFile { path, name } ==> a@ == (Action::SendFile {
            path: path@,
            name: name@,
        }),
        a matches Action::ReadSetting { row } ==> a@ == (Action::ReadSetting { row: row@ }),
        a matches Action::WriteSetting { row, value } ==> a@ == (Action::WriteSetting {
            row: row@,
            value: value@,
        }),
        a matches Action::SetPermits { permits } ==> a@ == (Action::<Seq<char>>::SetPermits {
            permits,
        }),
        a matches Action::Download { file_id, name } ==> a@ == (Action::Download {
            file_id: file_id@,
            name: name@,
        }),
        a matches Action::Recover { name } ==> a@ == (Action::Recover { name: name@ }),
        a matches Action::Discard { name } ==> a@ == (Action::Discard { name: name@ }),
{
}

/// Every kind of request begins with its own work: a text to reply with is sent as it is, a command
/// is begun by its text whatever the chat, and what is ignored leads to nothing.
pub proof fn requests_are_begun(chat_id: i64, text: Seq<char>)
    ensures
        begin_route(Route::Ignore).1 == Action::<Seq<char>>::Nothing,
        begin_route(Route::Reply { chat_id, text }).1 == (Action::Send { text }),
        begin_route(Route::Command { chat_id, text }) == begin_command(text),
        BACKUP_TYPE@ == "application/octet-stream"@,
{
}

}
