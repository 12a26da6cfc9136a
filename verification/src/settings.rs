//! The runtime settings that administrators may read and change.

use vstd::prelude::*;

use crate::amount::{hour_tenths, hours_text, one_decimal};
use crate::text::{dec, parse_fitting, parse_u64, same_text, u64_text};
use crate::update::opt_text;

verus! {

/// What marks a value as set by an administrator.
pub const CUSTOM: &'static str = "（自定义）";

/// What marks a value as the deployment's own.
pub const DEFAULT: &'static str = "（默认）";

/// The refusal of a value for the download parallelism.
pub const CONCURRENCY_RANGE: &'static str = "concurrency 需要 1-32 的整数";

/// The refusal of a value for the backup interval.
pub const INTERVAL_RANGE: &'static str = "backup_interval 需要 ≥0 的秒数（0=关闭自动备份）";

/// The refusal of a value for the number of snapshots.
pub const KEEP_RANGE: &'static str = "backup_keep 需要 1-365 的整数";

/// The setting that a name stands for.
#[derive(Debug, Clone, Copy, PartialEq, Eq)]
pub enum Setting {
    /// How many downloads run at a time.
    Concurrency,
    /// How many seconds lie between automatic backups; none are taken at zero.
    BackupInterval,
    /// How many snapshots are kept.
    BackupKeep,
}

/// The values that the deployment starts with.
#[derive(Debug, Clone, Copy)]
pub struct Defaults {
    pub concurrency: u64,
    pub backup_interval_secs: u64,
    pub backup_keep: u64,
}

/// The setting that `key` names.
pub open spec fn setting_of(key: Seq<char>) -> Option<Setting> {
    if key == "concurrency"@ {
        Some(Setting::Concurrency)
    } else if key == "backup_interval"@ || key == "backup_interval_secs"@ {
        Some(Setting::BackupInterval)
    } else if key == "backup_keep"@ {
        Some(Setting::BackupKeep)
    } else {
        None
    }
}

/// The row that holds the value of `key`.
pub open spec fn row_of(key: Seq<char>) -> Seq<char> {
    if key == "backup_interval"@ {
        "backup_interval_secs"@
    } else {
        key
    }
}

/// The row that holds the value of a setting.
pub open spec fn row(setting: Setting) -> Seq<char> {
    match setting {
        Setting::Concurrency => "concurrency"@,
        Setting::BackupInterval => "backup_interval_secs"@,
        Setting::BackupKeep => "backup_keep"@,
    }
}

/// The values that a setting takes: whole numbers in its range.
pub open spec fn in_range(setting: Setting, value: Seq<char>) -> bool {
    match parse_fitting(value) {
        Some(n) => match setting {
            Setting::Concurrency => 1 <= n <= 32,
            Setting::BackupInterval => true,
            Setting::BackupKeep => 1 <= n <= 365,
        },
        None => false,
    }
}

/// Whether `value` may be stored under `key`.
pub open spec fn acceptable(key: Seq<char>, value: Seq<char>) -> bool {
    match setting_of(key) {
        Some(s) => in_range(s, value),
        None => false,
    }
}

/// The answer to a name that stands for no setting.
pub open spec fn unknown_setting(key: Seq<char>) -> Seq<char> {
    "未知参数 "@ + key + "，可用：concurrency / backup_interval / backup_keep"@
}

/// The refusal of a value for `key`.
pub open spec fn refusal(key: Seq<char>) -> Seq<char> {
    match setting_of(key) {
        Some(Setting::Concurrency) => CONCURRENCY_RANGE@,
        Some(Setting::BackupInterval) => INTERVAL_RANGE@,
        Some(Setting::BackupKeep) => KEEP_RANGE@,
        None => unknown_setting(key),
    }
}

impl Defaults {
    /// The value that the deployment starts with, in decimal.
    pub open spec fn text(self, setting: Setting) -> Seq<char> {
        match setting {
            Setting::Concurrency => dec(self.concurrency as nat),
            Setting::BackupInterval => dec(self.backup_interval_secs as nat),
            Setting::BackupKeep => dec(self.backup_keep as nat),
        }
    }
}

/// The answer to a question for the value of `key`, where `stored` is what its row holds: the
/// stored value, or else the deployment's own, and which of the two it is.
pub open spec fn current_text(
    defaults: Defaults,
    key: Seq<char>,
    stored: Option<Seq<char>>,
) -> Seq<char> {
    match (stored, setting_of(key)) {
        (Some(v), _) => key + " = "@ + v + CUSTOM@,
        (None, Some(s)) => key + " = "@ + defaults.text(s) + DEFAULT@,
        (None, None) => unknown_setting(key),
    }
}

/// The number that an acceptable value writes.
pub open spec fn number_in(value: Seq<char>) -> u64 {
    match parse_fitting(value) {
        Some(n) => n,
        None => 0,
    }
}

/// The answer to a change of the download parallelism, of which `permits` are in force.
pub open spec fn concurrency_saved(value: Seq<char>, permits: u64) -> Seq<char> {
    "✅ concurrency = "@ + value + "（立即生效，当前许可 "@ + dec(permits as nat)
        + "；已持久化，重启保留）"@
}

/// The answer to a change of the backup interval to `s` seconds.
pub open spec fn interval_saved(s: u64) -> Seq<char> {
    let meaning = if s == 0 {
        "自动备份已关闭"@
    } else {
        "每 "@ + dec(s as nat) + " 秒备份一次（约 "@ + one_decimal(hour_tenths(s as nat)) + " 小时）"@
    };
    "✅ backup_interval = "@ + dec(s as nat) + "，"@ + meaning + "；调度器下一轮起按新间隔运行"@
}

/// The answer to a change of the number of snapshots.
pub open spec fn keep_saved(value: Seq<char>) -> Seq<char> {
    "✅ backup_keep = "@ + value + "（下一轮备份起生效；已持久化，重启保留）"@
}

/// The setting that `key` names.
pub fn find_setting(key: &str) -> (r: Option<Setting>)
    ensures
        r == setting_of(key@),
{
    if same_text(key, "concurrency") {
        Some(Setting::Concurrency)
    } else if same_text(key, "backup_interval") || same_text(key, "backup_interval_secs") {
        Some(Setting::BackupInterval)
    } else if same_text(key, "backup_keep") {
        Some(Setting::BackupKeep)
    } else {
        None
    }
}

/// The row that holds the value of `key`.
pub fn row_name(key: &str) -> (r: String)
    ensures
        r@ == row_of(key@),
{
    if same_text(key, "backup_interval") {
        "backup_interval_secs".to_owned()
    } else {
        key.to_owned()
    }
}

/// The setting that `key` names, where it takes `value`.
pub fn check(key: &str, value: &str) -> (r: Option<Setting>)
    ensures
        r == (if acceptable(key@, value@) {
            setting_of(key@)
        } else {
            None
        }),
{
    match (find_setting(key), parse_u64(value)) {
        (Some(s), Some(n)) => {
            let fits: bool = match s {
                Setting::Concurrency => 1 <= n && n <= 32,
                Setting::BackupInterval => true,
                Setting::BackupKeep => 1 <= n && n <= 365,
            };
            if fits {
                Some(s)
            } else {
                None
            }
        },
        _ => None,
    }
}

fn unknown_setting_text(key: &str) -> (r: String)
    ensures
        r@ == unknown_setting(key@),
{
    "未知参数 ".to_owned().concat(key).concat("，可用：concurrency / backup_interval / backup_keep")
}

/// The refusal of a value for `key`.
pub fn refusal_text(key: &str) -> (r: String)
    ensures
        r@ == refusal(key@),
{
    match find_setting(key) {
        Some(Setting::Concurrency) => CONCURRENCY_RANGE.to_owned(),
        Some(Setting::BackupInterval) => INTERVAL_RANGE.to_owned(),
        Some(Setting::BackupKeep) => KEEP_RANGE.to_owned(),
        None => unknown_setting_text(key),
    }
}

/// The value that the deployment starts with, in decimal.
pub fn default_text(defaults: &Defaults, setting: Setting) -> (r: String)
    ensures
        r@ == defaults.text(setting),
{
    match setting {
        Setting::Concurrency => u64_text(defaults.concurrency),
        Setting::BackupInterval => u64_text(defaults.backup_interval_secs),
        Setting::BackupKeep => u64_text(defaults.backup_keep),
    }
}

/// The answer to a question for the value of `key`, where `stored` is what its row holds.
pub fn describe(defaults: &Defaults, key: &str, stored: Option<String>) -> (r: String)
    ensures
        r@ == current_text(*defaults, key@, opt_text(stored)),
{
    match (stored, find_setting(key)) {
        (Some(v), _) => key.to_owned().concat(" = ").concat(v.as_str()).concat(CUSTOM),
        (None, Some(s)) => key.to_owned().concat(" = ").concat(
            default_text(defaults, s).as_str(),
        ).concat(DEFAULT),
        (None, None) => unknown_setting_text(key),
    }
}

/// The number that an acceptable value writes.
pub fn number_of(value: &str) -> (r: u64)
    ensures
        r == number_in(value@),
{
    match parse_u64(value) {
        Some(n) => n,
        None => 0,
    }
}

/// The answer to a change of the download parallelism.
pub fn concurrency_saved_text(value: &str, permits: u64) -> (r: String)
    ensures
        r@ == concurrency_saved(value@, permits),
{
    "✅ concurrency = ".to_owned().concat(value).concat("（立即生效，当前许可 ").concat(
        u64_text(permits).as_str(),
    ).concat("；已持久化，重启保留）")
}

/// The answer to a change of the backup interval.
pub fn interval_saved_text(s: u64) -> (r: String)
    ensures
        r@ == interval_saved(s),
{
    let meaning: String = if s == 0 {
        "自动备份已关闭".to_owned()
    } else {
        "每 ".to_owned().concat(u64_text(s).as_str()).concat(" 秒备份一次（约 ").concat(
            hours_text(s).as_str(),
        ).concat(" 小时）")
    };
    "✅ backup_interval = ".to_owned().concat(u64_text(s).as_str()).concat("，").concat(
        meaning.as_str(),
    ).concat("；调度器下一轮起按新间隔运行")
}

/// The answer to a change of the number of snapshots.
pub fn keep_saved_text(value: &str) -> (r: String)
    ensures
        r@ == keep_saved(value@),
{
    "✅ backup_keep = ".to_owned().concat(value).concat("（下一轮备份起生效；已持久化，重启保留）")
}

/// All names of a setting share its row.
pub proof fn names_share_the_row(key: Seq<char>)
    ensures
        setting_of(key) matches Some(s) ==> row_of(key) == row(s),
{
    reveal_strlit("backup_interval");
    reveal_strlit("backup_interval_secs");
    reveal_strlit("concurrency");
    reveal_strlit("backup_keep");
    assert("concurrency"@.len() != "backup_interval"@.len());
    assert("backup_keep"@.len() != "backup_interval"@.len());
}

}
