//! Names for the files and directories that are made along the way.

use vstd::prelude::*;

use crate::text::is_digit;

verus! {

/// How the time stands in a file name: date and time in UTC, to the second.
pub const STAMP_FORMAT: &'static str = "%Y%m%dT%H%M%SZ";

/// Whether `s` is a time in that form: eight digits or more for the date, with a plus sign where
/// the year has more than four digits, then `T`, six digits and `Z`.
pub open spec fn is_stamp(s: Seq<char>) -> bool {
    let n = s.len() as int;
    &&& n >= 16
    &&& s[n - 8] == 'T'
    &&& s[n - 1] == 'Z'
    &&& forall|i: int|
        0 <= i < n && i != n - 8 && i != n - 1 ==> is_digit(#[trigger] s[i]) || (i == 0 && n > 16
            && s[i] == '+')
}

/// Whether `c` is a hexadecimal digit in lower case.
pub open spec fn is_hex(c: char) -> bool {
    is_digit(c) || 'a' <= c <= 'f'
}

/// Whether `s` is a random UUID: thirty-two hexadecimal digits in groups of eight, four, four, four
/// and twelve, with the marks of version and variant.
pub open spec fn is_random_uuid(s: Seq<char>) -> bool {
    &&& s.len() == 36
    &&& s[8] == '-' && s[13] == '-' && s[18] == '-' && s[23] == '-'
    &&& s[14] == '4'
    &&& s[19] == '8' || s[19] == '9' || s[19] == 'a' || s[19] == 'b'
    &&& forall|i: int|
        0 <= i < 36 && i != 8 && i != 13 && i != 18 && i != 23 ==> is_hex(#[trigger] s[i])
}

/// `chrono::Utc::now`, written out with `DateTime::format`: a time in the form that is asked for.
/// Which time it is depends on the clock, and a clock that stands before 1970 makes it panic.
#[verifier::external_body]
fn utc_now_text(format: &str) -> (r: String)
    requires
        format@ == STAMP_FORMAT@,
    ensures
        is_stamp(r@),
{
    chrono::Utc::now().format(format).to_string()
}

/// `uuid::Uuid::new_v4`, written out in its hyphenated form. Which UUID it is depends on chance, and
/// a system without a source of random bytes makes it panic.
#[verifier::external_body]
fn new_uuid() -> (r: String)
    ensures
        is_random_uuid(r@),
{
    uuid::Uuid::new_v4().to_string()
}

/// The name under which a downloaded database is staged.
pub open spec fn restore_name(stamp: Seq<char>) -> Seq<char> {
    "tg-s3-restore-"@ + stamp + ".sqlite"@
}

/// The name of the directory in which an object's new pieces are staged.
pub open spec fn stage_name(id: Seq<char>) -> Seq<char> {
    "consolidate-"@ + id
}

/// The name under which a database that was downloaded at a given time is staged.
pub fn restore_file_name(stamp: &str) -> (r: String)
    ensures
        r@ == restore_name(stamp@),
{
    "tg-s3-restore-".to_owned().concat(stamp).concat(".sqlite")
}

/// The name under which a database that is downloaded now is staged.
pub fn fresh_restore_name() -> (r: String)
    ensures
        exists|stamp: Seq<char>| is_stamp(stamp) && r@ == #[trigger] restore_name(stamp),
{
    let stamp: String = utc_now_text(STAMP_FORMAT);
    restore_file_name(stamp.as_str())
}

/// The name of the staging directory with a given identifier.
pub fn stage_dir_name(id: &str) -> (r: String)
    ensures
        r@ == stage_name(id@),
{
    "consolidate-".to_owned().concat(id)
}

/// The name of a new staging directory.
pub fn fresh_stage_name() -> (r: String)
    ensures
        exists|id: Seq<char>| is_random_uuid(id) && r@ == #[trigger] stage_name(id),
{
    let id: String = new_uuid();
    stage_dir_name(id.as_str())
}

/// The names that are made stay inside the directory they are put in: they hold no slash.
pub proof fn fresh_names_hold_no_slash(stamp: Seq<char>, id: Seq<char>)
    requires
        is_stamp(stamp),
        is_random_uuid(id),
    ensures
        !restore_name(stamp).contains('/'),
        !stage_name(id).contains('/'),
{
    reveal_strlit("tg-s3-restore-");
    reveal_strlit(".sqlite");
    reveal_strlit("consolidate-");
    let r = restore_name(stamp);
    let n = stamp.len() as int;
    assert forall|i: int| 0 <= i < r.len() implies r[i] != '/' by {
        if 14 <= i < 14 + n {
            assert(r[i] == stamp[i - 14]);
        } else if i >= 14 + n {
            assert(r[i] == ".sqlite"@[i - 14 - n]);
        } else {
            assert(r[i] == "tg-s3-restore-"@[i]);
        }
    }
    let d = stage_name(id);
    assert forall|i: int| 0 <= i < d.len() implies d[i] != '/' by {
        if i >= 12 {
            assert(d[i] == id[i - 12]);
        } else {
            assert(d[i] == "consolidate-"@[i]);
        }
    }
}

/// A staged database is named after its time and a staging directory after its identifier: what was
/// put in stands between what all such names begin and end with.
pub proof fn names_hold_what_they_are_made_from(s: Seq<char>)
    ensures
        ({
            let r = restore_name(s);
            let n = s.len() as int;
            &&& r.len() == n + 21
            &&& r.take(14) == "tg-s3-restore-"@
            &&& r.subrange(14, 14 + n) == s
            &&& r.skip(14 + n) == ".sqlite"@
        }),
        ({
            let d = stage_name(s);
            &&& d.len() == s.len() + 12
            &&& d.take(12) == "consolidate-"@
            &&& d.skip(12) == s
        }),
        STAMP_FORMAT@ == "%Y%m%dT%H%M%SZ"@,
{
    reveal_strlit("tg-s3-restore-");
    reveal_strlit(".sqlite");
    reveal_strlit("consolidate-");
    let r = restore_name(s);
    let n = s.len() as int;
    assert(r.take(14) =~= "tg-s3-restore-"@);
    assert(r.subrange(14, 14 + n) =~= s);
    assert(r.skip(14 + n) =~= ".sqlite"@);
    assert(stage_name(s).take(12) =~= "consolidate-"@);
    assert(stage_name(s).skip(12) =~= s);
}

}
