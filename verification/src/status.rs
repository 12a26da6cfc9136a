//! The report that `/status` gives.

use vstd::prelude::*;

use crate::amount::{human_bytes, human_text};
use crate::settings::{default_text, row, Defaults, Setting, CUSTOM, DEFAULT};
use crate::text::{dec, i64_text, int_text, join, join_lines, same_text, u64_text, views};

verus! {

/// What stands for the latest backup where there is none.
pub const NO_BACKUP: &'static str = "无";

/// What stands for the changed settings where there are none.
pub const NO_OVERRIDES: &'static str = "无（全部使用默认值）";

/// The store in numbers.
#[derive(Debug, Clone, Copy)]
pub struct Stats {
    pub objects: i64,
    pub bytes: i64,
    pub chunks: i64,
    pub buckets: i64,
    pub keys: i64,
    /// Multipart uploads under way.
    pub mp_active: i64,
}

/// What the report is made from.
#[derive(Debug)]
pub struct Report {
    /// The store in numbers, unless they could not be had.
    pub stats: Option<Stats>,
    /// The settings that administrators have changed, unless they could not be had: rows and
    /// values.
    pub overrides: Option<Vec<(String, String)>>,
    /// The snapshots at hand, the latest last: names and sizes.
    pub backups: Vec<(String, u64)>,
}

/// Rows and values as texts.
pub open spec fn pair_views(v: Seq<(String, String)>) -> Seq<(Seq<char>, Seq<char>)> {
    v.map_values(|p: (String, String)| (p.0@, p.1@))
}

/// The changed settings as texts, none where they could not be had.
pub open spec fn overrides_or_none(overrides: Option<Vec<(String, String)>>) -> Seq<
    (Seq<char>, Seq<char>),
> {
    match overrides {
        Some(v) => pair_views(v@),
        None => seq![],
    }
}

/// The value in the first of `pairs` that has this key.
pub open spec fn find_value(pairs: Seq<(Seq<char>, Seq<char>)>, key: Seq<char>) -> Option<Seq<char>>
    decreases pairs.len(),
{
    if pairs.len() == 0 {
        None
    } else if pairs[0].0 == key {
        Some(pairs[0].1)
    } else {
        find_value(pairs.skip(1), key)
    }
}

/// The store in numbers, all zero where they could not be had.
pub open spec fn stats_or_zero(stats: Option<Stats>) -> Stats {
    match stats {
        Some(s) => s,
        None => Stats { objects: 0, bytes: 0, chunks: 0, buckets: 0, keys: 0, mp_active: 0 },
    }
}

/// The value in force of a setting, and whether it was changed.
pub open spec fn effective(
    defaults: Defaults,
    overrides: Seq<(Seq<char>, Seq<char>)>,
    setting: Setting,
) -> Seq<char> {
    match find_value(overrides, row(setting)) {
        Some(v) => v + CUSTOM@,
        None => defaults.text(setting) + DEFAULT@,
    }
}

/// One changed setting.
pub open spec fn override_line(p: (Seq<char>, Seq<char>)) -> Seq<char> {
    "  "@ + p.0 + " = "@ + p.1
}

/// The changed settings, one under the other.
pub open spec fn override_lines(overrides: Seq<(Seq<char>, Seq<char>)>) -> Seq<char> {
    if overrides.len() == 0 {
        NO_OVERRIDES@
    } else {
        join_lines(overrides.map_values(|p: (Seq<char>, Seq<char>)| override_line(p)))
    }
}

/// The latest backup: its name and size.
pub open spec fn latest_backup(backups: Seq<(String, u64)>) -> Seq<char> {
    if backups.len() == 0 {
        NO_BACKUP@
    } else {
        backups.last().0@ + "（"@ + human_text((backups.last().1 as i64) as int) + "）"@
    }
}

/// The part of the report on the store.
pub open spec fn store_part(s: Stats) -> Seq<char> {
    "📊 存储统计\n  对象 "@ + int_text(s.objects as int) + " 个 / "@ + human_text(s.bytes as int)
        + "\n  分片 "@ + int_text(s.chunks as int) + " 条\n  桶 "@ + int_text(s.buckets as int)
        + " 个，密钥 "@ + int_text(s.keys as int) + " 把\n  进行中分片上传 "@ + int_text(
        s.mp_active as int,
    )
}

/// The part of the report on the settings.
pub open spec fn settings_part(
    defaults: Defaults,
    overrides: Seq<(Seq<char>, Seq<char>)>,
) -> Seq<char> {
    "\n\n⚙️ 运行参数\n  下载并发："@ + effective(defaults, overrides, Setting::Concurrency)
        + "\n  备份间隔："@ + effective(defaults, overrides, Setting::BackupInterval)
        + "\n  备份保留："@ + effective(defaults, overrides, Setting::BackupKeep) + "\n  自定义项：\n"@
        + override_lines(overrides)
}

/// The part of the report on the backups.
pub open spec fn backup_part(backups: Seq<(String, u64)>) -> Seq<char> {
    "\n\n💾 备份\n  现有 "@ + dec(backups.len()) + " 份，最新："@ + latest_backup(backups)
}

/// The report.
pub open spec fn status_text(defaults: Defaults, report: Report) -> Seq<char> {
    store_part(stats_or_zero(report.stats)) + settings_part(
        defaults,
        overrides_or_none(report.overrides),
    ) + backup_part(report.backups@)
}

fn find_override<'a>(overrides: &'a Vec<(String, String)>, key: &str) -> (r: Option<&'a String>)
    ensures
        find_value(pair_views(overrides@), key@) == (match r {
            Some(v) => Some(v@),
            None => None,
        }),
{
    let mut i: usize = 0;
    let ghost all = pair_views(overrides@);
    proof {
        assert(all.skip(0) =~= all);
    }
    while i < overrides.len()
        invariant
            i <= overrides@.len(),
            all == pair_views(overrides@),
            find_value(all, key@) == find_value(all.skip(i as int), key@),
        decreases overrides@.len() - i,
    {
        proof {
            assert(all.skip(i as int)[0] == (overrides@[i as int].0@, overrides@[i as int].1@));
            assert(all.skip(i as int).skip(1) =~= all.skip(i + 1));
        }
        if same_text(overrides[i].0.as_str(), key) {
            return Some(&overrides[i].1);
        }
        i = i + 1;
    }
    None
}

fn effective_value(
    defaults: &Defaults,
    overrides: &Vec<(String, String)>,
    setting: Setting,
) -> (r: String)
    ensures
        r@ == effective(*defaults, pair_views(overrides@), setting),
{
    let name: &str = match setting {
        Setting::Concurrency => "concurrency",
        Setting::BackupInterval => "backup_interval_secs",
        Setting::BackupKeep => "backup_keep",
    };
    match find_override(overrides, name) {
        Some(v) => v.clone().concat(CUSTOM),
        None => default_text(defaults, setting).concat(DEFAULT),
    }
}

fn list_overrides(overrides: &Vec<(String, String)>) -> (r: String)
    ensures
        r@ == override_lines(pair_views(overrides@)),
{
    if overrides.len() == 0 {
        return NO_OVERRIDES.to_owned();
    }
    let ghost all = pair_views(overrides@);
    let mut lines: Vec<String> = Vec::new();
    let mut i: usize = 0;
    while i < overrides.len()
        invariant
            i <= overrides@.len(),
            all == pair_views(overrides@),
            lines@.len() == i,
            forall|k: int| 0 <= k < i ==> (#[trigger] lines@[k])@ == override_line(all[k]),
        decreases overrides@.len() - i,
    {
        lines.push(
            "  ".to_owned().concat(overrides[i].0.as_str()).concat(" = ").concat(
                overrides[i].1.as_str(),
            ),
        );
        i = i + 1;
    }
    proof {
        assert(views(lines@) =~= all.map_values(|p: (Seq<char>, Seq<char>)| override_line(p)));
    }
    join(&lines)
}

fn describe_latest(backups: &Vec<(String, u64)>) -> (r: String)
    ensures
        r@ == latest_backup(backups@),
{
    if backups.len() == 0 {
        return NO_BACKUP.to_owned();
    }
    let i: usize = backups.len() - 1;
    backups[i].0.clone().concat("（").concat(human_bytes(backups[i].1 as i64).as_str()).concat("）")
}

fn describe_store(s: &Stats) -> (r: String)
    ensures
        r@ == store_part(*s),
{
    "📊 存储统计\n  对象 ".to_owned().concat(i64_text(s.objects).as_str()).concat(" 个 / ").concat(
        human_bytes(s.bytes).as_str(),
    ).concat("\n  分片 ").concat(i64_text(s.chunks).as_str()).concat(" 条\n  桶 ").concat(
        i64_text(s.buckets).as_str(),
    ).concat(" 个，密钥 ").concat(i64_text(s.keys).as_str()).concat(
        " 把\n  进行中分片上传 ",
    ).concat(i64_text(s.mp_active).as_str())
}

fn describe_settings(defaults: &Defaults, overrides: &Vec<(String, String)>) -> (r: String)
    ensures
        r@ == settings_part(*defaults, pair_views(overrides@)),
{
    let concurrency: String = effective_value(defaults, overrides, Setting::Concurrency);
    let interval: String = effective_value(defaults, overrides, Setting::BackupInterval);
    let keep: String = effective_value(defaults, overrides, Setting::BackupKeep);
    "\n\n⚙️ 运行参数\n  下载并发：".to_owned().concat(concurrency.as_str()).concat(
        "\n  备份间隔：",
    ).concat(interval.as_str()).concat("\n  备份保留：").concat(keep.as_str()).concat(
        "\n  自定义项：\n",
    ).concat(list_overrides(overrides).as_str())
}

/// The report.
pub fn status(defaults: &Defaults, report: &Report) -> (r: String)
    ensures
        r@ == status_text(*defaults, *report),
{
    let s: Stats = match report.stats {
        Some(s) => s,
        None => Stats { objects: 0, bytes: 0, chunks: 0, buckets: 0, keys: 0, mp_active: 0 },
    };
    let backups: String = "\n\n💾 备份\n  现有 ".to_owned().concat(
        u64_text(report.backups.len() as u64).as_str(),
    ).concat(" 份，最新：").concat(describe_latest(&report.backups).as_str());
    let settings: String = match &report.overrides {
        Some(overrides) => describe_settings(defaults, overrides),
        None => {
            let none: Vec<(String, String)> = Vec::new();
            proof {
                assert(pair_views(none@) =~= seq![]);
            }
            describe_settings(defaults, &none)
        },
    };
    describe_store(&s).concat(settings.as_str()).concat(backups.as_str())
}

/// Whether `text` says what is in force of the setting in this row: the value of the first change
/// to it, or else the deployment's own, and which of the two it is.
pub open spec fn in_force(
    overrides: Seq<(String, String)>,
    row: Seq<char>,
    own: nat,
    text: Seq<char>,
) -> bool {
    ||| exists|k: int|
        0 <= k < overrides.len() && (#[trigger] overrides[k]).0@ == row && text == overrides[k].1@
            + "（自定义）"@ && (forall|i: int| 0 <= i < k ==> (#[trigger] overrides[i]).0@ != row)
    ||| text == dec(own) + "（默认）"@ && (forall|i: int|
        0 <= i < overrides.len() ==> (#[trigger] overrides[i]).0@ != row)
}

proof fn lemma_first_value(pairs: Seq<(Seq<char>, Seq<char>)>, key: Seq<char>, k: int)
    ensures
        0 <= k < pairs.len() && pairs[k].0 == key && (forall|i: int|
            0 <= i < k ==> (#[trigger] pairs[i]).0 != key) ==> find_value(pairs, key) == Some(
            pairs[k].1,
        ),
        (forall|i: int| 0 <= i < pairs.len() ==> (#[trigger] pairs[i]).0 != key) ==> find_value(
            pairs,
            key,
        ) is None,
    decreases pairs.len(),
{
    if pairs.len() > 0 {
        let t = pairs.skip(1);
        lemma_first_value(t, key, k - 1);
        if 0 < k < pairs.len() {
            assert(t[k - 1] == pairs[k]);
        }
        if forall|i: int| 0 <= i < k ==> (#[trigger] pairs[i]).0 != key {
            assert forall|i: int| 0 <= i < k - 1 && i < t.len() implies (#[trigger] t[i]).0
                != key by {
                assert(t[i] == pairs[i + 1]);
            }
            if 0 < k {
                assert(pairs[0].0 != key);
            }
        }
        if forall|i: int| 0 <= i < pairs.len() ==> (#[trigger] pairs[i]).0 != key {
            assert(pairs[0].0 != key);
            assert forall|i: int| 0 <= i < t.len() implies (#[trigger] t[i]).0 != key by {
                assert(t[i] == pairs[i + 1]);
            }
        }
    }
}

proof fn lemma_in_force(
    defaults: Defaults,
    overrides: Seq<(String, String)>,
    setting: Setting,
    own: nat,
    text: Seq<char>,
)
    requires
        in_force(overrides, row(setting), own, text),
        defaults.text(setting) == dec(own),
    ensures
        effective(defaults, pair_views(overrides), setting) == text,
{
    let key = row(setting);
    let pairs = pair_views(overrides);
    assert forall|i: int| 0 <= i < pairs.len() implies (#[trigger] pairs[i]) == (
        overrides[i].0@,
        overrides[i].1@,
    ) by {}
    if forall|i: int| 0 <= i < overrides.len() ==> (#[trigger] overrides[i]).0@ != key {
        assert forall|i: int| 0 <= i < pairs.len() implies (#[trigger] pairs[i]).0 != key by {
            assert(overrides[i].0@ != key);
        }
        lemma_first_value(pairs, key, 0);
    } else {
        let k = choose|k: int|
            0 <= k < overrides.len() && (#[trigger] overrides[k]).0@ == key && text
                == overrides[k].1@ + "（自定义）"@ && (forall|i: int|
                0 <= i < k ==> (#[trigger] overrides[i]).0@ != key);
        assert forall|i: int| 0 <= i < k implies (#[trigger] pairs[i]).0 != key by {
            assert(overrides[i].0@ != key);
        }
        lemma_first_value(pairs, key, k);
    }
}

/// The report, from the figures to the text. It gives the figures of the store, or zeros where there
/// are none; of each setting what is in force; the changed settings, one to a line; and of the backups
/// how many there are and which is the last.
pub proof fn reports_hold_their_figures(
    defaults: Defaults,
    report: Report,
    overrides: Seq<(String, String)>,
    concurrency: Seq<char>,
    interval: Seq<char>,
    keep: Seq<char>,
)
    requires
        report.overrides matches Some(v) ==> overrides == v@,
        report.overrides is None ==> overrides.len() == 0,
        in_force(overrides, "concurrency"@, defaults.concurrency as nat, concurrency),
        in_force(
            overrides,
            "backup_interval_secs"@,
            defaults.backup_interval_secs as nat,
            interval,
        ),
        in_force(overrides, "backup_keep"@, defaults.backup_keep as nat, keep),
    ensures
        ({
            let s = if report.stats is Some {
                report.stats->0
            } else {
                Stats { objects: 0, bytes: 0, chunks: 0, buckets: 0, keys: 0, mp_active: 0 }
            };
            let changes = if overrides.len() == 0 {
                "无（全部使用默认值）"@
            } else {
                join_lines(
                    Seq::new(
                        overrides.len(),
                        |i: int| "  "@ + overrides[i].0@ + " = "@ + overrides[i].1@,
                    ),
                )
            };
            let backups = report.backups@;
            let latest = if backups.len() == 0 {
                "无"@
            } else {
                backups[backups.len() - 1].0@ + "（"@ + human_text(
                    (backups[backups.len() - 1].1 as i64) as int,
                ) + "）"@
            };
            status_text(defaults, report) == "📊 存储统计\n  对象 "@ + int_text(s.objects as int)
                + " 个 / "@ + human_text(s.bytes as int) + "\n  分片 "@ + int_text(s.chunks as int)
                + " 条\n  桶 "@ + int_text(s.buckets as int) + " 个，密钥 "@ + int_text(s.keys as int)
                + " 把\n  进行中分片上传 "@ + int_text(s.mp_active as int) + ("\n\n⚙️ 运行参数\n  下载并发："@
                + concurrency + "\n  备份间隔："@ + interval + "\n  备份保留："@ + keep
                + "\n  自定义项：\n"@ + changes) + ("\n\n💾 备份\n  现有 "@ + dec(backups.len())
                + " 份，最新："@ + latest)
        }),
{
    let pairs = pair_views(overrides);
    assert(overrides_or_none(report.overrides) =~= pairs);
    lemma_in_force(
        defaults,
        overrides,
        Setting::Concurrency,
        defaults.concurrency as nat,
        concurrency,
    );
    lemma_in_force(
        defaults,
        overrides,
        Setting::BackupInterval,
        defaults.backup_interval_secs as nat,
        interval,
    );
    lemma_in_force(defaults, overrides, Setting::BackupKeep, defaults.backup_keep as nat, keep);
    assert(pairs.map_values(|p: (Seq<char>, Seq<char>)| override_line(p)) =~= Seq::new(
        overrides.len(),
        |i: int| "  "@ + overrides[i].0@ + " = "@ + overrides[i].1@,
    ));
}

/// Where there are backups, however many, the report ends in the name of the last one and its size
/// in brackets.
pub proof fn reports_end_in_the_last_backup(defaults: Defaults, report: Report)
    requires
        report.backups@.len() > 0,
    ensures
        ({
            let b = report.backups@[report.backups@.len() - 1];
            (b.0@ + "（"@ + human_text((b.1 as i64) as int) + "）"@).is_suffix_of(
                status_text(defaults, report),
            )
        }),
{
    let b = report.backups@[report.backups@.len() - 1];
    let end = b.0@ + "（"@ + human_text((b.1 as i64) as int) + "）"@;
    let all = status_text(defaults, report);
    let head = store_part(stats_or_zero(report.stats)) + settings_part(
        defaults,
        overrides_or_none(report.overrides),
    ) + ("\n\n💾 备份\n  现有 "@ + dec(report.backups@.len()) + " 份，最新："@);
    assert(all =~= head + end);
    assert(all.subrange(all.len() - end.len(), all.len() as int) =~= end);
}

}
