//! Access keys: how they are listed, and what new ones look like.

use vstd::prelude::*;

use crate::text::{begins_with, join, join_lines, lines_are_joined_by_breaks, views};

verus! {

/// How many random bytes make a secret key.
pub const SECRET_BYTES: u64 = 30;

/// How many random bytes make the access key of a root credential.
pub const ROOT_KEY_BYTES: u64 = 10;

/// How many random bytes make the access key of a scoped credential.
pub const SCOPED_KEY_BYTES: u64 = 8;

/// An access key and what it is confined to.
#[derive(Debug)]
pub struct Credential {
    pub access_key: String,
    pub is_root: bool,
    pub bucket: Option<String>,
    pub prefix: Option<String>,
}

/// A string as `{:?}` writes it: in double quotes, with escapes.
pub uninterp spec fn quoted(s: Seq<char>) -> Seq<char>;

/// `format!("{:?}", s)`: the `Debug` form of a string, which depends on the string alone.
#[verifier::external_body]
fn quote(s: &str) -> (r: String)
    ensures
        r@ == quoted(s@),
{
    format!("{:?}", s)
}

/// What a key is confined to, as `{:?}` writes an optional string.
pub open spec fn scope_text(scope: Option<String>) -> Seq<char> {
    match scope {
        Some(s) => "Some("@ + quoted(s@) + ")"@,
        None => "None"@,
    }
}

/// One entry of the list, given how its bucket and its prefix are written.
pub open spec fn entry_text(
    is_root: bool,
    access_key: Seq<char>,
    bucket: Seq<char>,
    prefix: Seq<char>,
) -> Seq<char> {
    let mark = if is_root {
        "[root] "@
    } else {
        ""@
    };
    mark + access_key + "\n  bucket="@ + bucket + " prefix="@ + prefix
}

/// The entry of a credential.
pub open spec fn credential_text(c: Credential) -> Seq<char> {
    entry_text(c.is_root, c.access_key@, scope_text(c.bucket), scope_text(c.prefix))
}

/// The list of credentials.
pub open spec fn list_text(creds: Seq<Credential>) -> Seq<char> {
    join_lines(creds.map_values(|c: Credential| credential_text(c)))
}

/// Whether an access key belongs to a root credential.
pub open spec fn is_root_key(access_key: Seq<char>) -> bool {
    "root"@.is_prefix_of(access_key)
}

/// How many random bytes go into the access key that replaces `access_key`.
pub open spec fn new_key_bytes(access_key: Seq<char>) -> u64 {
    if is_root_key(access_key) {
        ROOT_KEY_BYTES
    } else {
        SCOPED_KEY_BYTES
    }
}

/// The access key that replaces `access_key`, made from random hexadecimal digits.
pub open spec fn new_key(access_key: Seq<char>, hex: Seq<char>) -> Seq<char> {
    if is_root_key(access_key) {
        "root"@ + hex
    } else {
        "key"@ + hex
    }
}

fn scope(s: &Option<String>) -> (r: String)
    ensures
        r@ == scope_text(*s),
{
    match s {
        Some(t) => "Some(".to_owned().concat(quote(t.as_str()).as_str()).concat(")"),
        None => "None".to_owned(),
    }
}

/// One entry of the list, given how its bucket and its prefix are written.
pub fn entry(is_root: bool, access_key: &str, bucket: &str, prefix: &str) -> (r: String)
    ensures
        r@ == entry_text(is_root, access_key@, bucket@, prefix@),
{
    let mark: &str = if is_root {
        "[root] "
    } else {
        ""
    };
    mark.to_owned().concat(access_key).concat("\n  bucket=").concat(bucket).concat(
        " prefix=",
    ).concat(prefix)
}

/// The list of credentials, one under the other.
pub fn list(creds: &Vec<Credential>) -> (r: String)
    ensures
        r@ == list_text(creds@),
{
    let mut lines: Vec<String> = Vec::new();
    let mut i: usize = 0;
    while i < creds.len()
        invariant
            i <= creds@.len(),
            lines@.len() == i,
            forall|k: int| 0 <= k < i ==> (#[trigger] lines@[k])@ == credential_text(creds@[k]),
        decreases creds@.len() - i,
    {
        let c: &Credential = &creds[i];
        let bucket: String = scope(&c.bucket);
        let prefix: String = scope(&c.prefix);
        lines.push(entry(c.is_root, c.access_key.as_str(), bucket.as_str(), prefix.as_str()));
        i = i + 1;
    }
    proof {
        assert(views(lines@) =~= creds@.map_values(|c: Credential| credential_text(c)));
    }
    join(&lines)
}

/// How many random bytes go into the access key that replaces `access_key`.
pub fn bytes_for_new_key(access_key: &str) -> (r: u64)
    ensures
        r == new_key_bytes(access_key@),
{
    if begins_with(access_key, "root") {
        ROOT_KEY_BYTES
    } else {
        SCOPED_KEY_BYTES
    }
}

/// The access key that replaces `access_key`.
pub fn make_key(access_key: &str, hex: &str) -> (r: String)
    ensures
        r@ == new_key(access_key@, hex@),
{
    if begins_with(access_key, "root") {
        "root".to_owned().concat(hex)
    } else {
        "key".to_owned().concat(hex)
    }
}

/// A replaced access key stays of its kind: the new one is a root key just where the old one was.
pub proof fn replacement_keeps_the_kind(access_key: Seq<char>, hex: Seq<char>)
    ensures
        is_root_key(new_key(access_key, hex)) == is_root_key(access_key),
{
    reveal_strlit("root");
    reveal_strlit("key");
    let n = new_key(access_key, hex);
    if is_root_key(access_key) {
        assert(n.subrange(0, 4) =~= "root"@);
    } else {
        assert(n[0] == 'k');
        assert("root"@[0] == 'r');
    }
}

/// A root key is one that begins with the letters `root`, and nothing else is.
pub proof fn root_keys_begin_with_root(access_key: Seq<char>)
    ensures
        is_root_key(access_key) <==> access_key.len() >= 4 && access_key[0] == 'r' && access_key[1]
            == 'o' && access_key[2] == 'o' && access_key[3] == 't',
{
    reveal_strlit("root");
    let w = "root"@;
    if access_key.len() >= 4 {
        let p = access_key.subrange(0, 4);
        if access_key[0] == 'r' && access_key[1] == 'o' && access_key[2] == 'o' && access_key[3]
            == 't' {
            assert(p =~= w);
        }
        if p == w {
            assert(p[0] == 'r' && p[1] == 'o' && p[2] == 'o' && p[3] == 't');
        }
    }
}

/// Each credential has an entry of its own, in the order of the list, with a line break between
/// entries: whether it is a root credential, its access key, and the bucket and the prefix that it is
/// confined to.
pub proof fn lists_hold_an_entry_for_each(a: Seq<Credential>, b: Seq<Credential>, c: Credential)
    ensures
        list_text(seq![]) == Seq::<char>::empty(),
        a.len() > 0 && b.len() > 0 ==> list_text(a + b) == list_text(a) + seq!['\n'] + list_text(b),
        list_text(seq![c]) == (if c.is_root {
            "[root] "@
        } else {
            ""@
        }) + c.access_key@ + "\n  bucket="@ + (match c.bucket {
            Some(s) => "Some("@ + quoted(s@) + ")"@,
            None => "None"@,
        }) + " prefix="@ + (match c.prefix {
            Some(s) => "Some("@ + quoted(s@) + ")"@,
            None => "None"@,
        }),
{
    let f = |c: Credential| credential_text(c);
    assert((a + b).map_values(f) =~= a.map_values(f) + b.map_values(f));
    assert(seq![c].map_values(f) =~= seq![credential_text(c)]);
    assert(Seq::<Credential>::empty().map_values(f) =~= seq![]);
    lines_are_joined_by_breaks(a.map_values(f), b.map_values(f), credential_text(c));
}

}
