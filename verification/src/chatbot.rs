//! The in-chat administration commands: which messages are heeded, what each one asks for, and
//! what is answered.

use vstd::prelude::*;

use crate::amount::{human_bytes, human_text};
use crate::json::{fields_are_found_by_name, lemma_object_view, parsed, Json, JsonView};
use crate::text::{
    all_blank, all_inked, begins_with, chars_of, decimal_is_unambiguous, i64_text, int_text,
    is_digit, lower, parse_nat, parse_reads_back_decimal, same_text, signs_stand_in_front,
    slashes_come_off, split_words, text_of, to_lower, trim_slashes, trim_start, views, white_space, without_slashes, word, words, words_come_one_by_one,
};
use crate::update::{
    read_updates, update_of, update_views, updates_of, Document, Message, Update,
};

verus! {

/// The Bot API, unless the deployment names another server.
pub const API_BASE: &'static str = "https://api.telegram.org";

/// The update that the first poll asks for: whichever is the oldest.
pub const FIRST_OFFSET: i64 = 0;

/// How many seconds one poll may take before it is given up.
pub const POLL_TIMEOUT_SECS: u64 = 40;

/// How many seconds pass before a poll that failed is tried again.
pub const RETRY_SECS: u64 = 15;

/// How many characters of an answer are sent at most.
pub const MAX_CHARS: usize = 3800;

/// How many UTF-16 code units Telegram takes in one message.
pub const TELEGRAM_LIMIT: u64 = 4096;

/// The largest file that is taken for a database backup.
pub const MAX_RESTORE_BYTES: i64 = 0x2000_0000;

/// The answer to a restore request whose message carries no file to download.
pub const NO_FILE: &'static str = "❌ 消息里没有可下载的文件";

/// The address of a Bot API method.
pub open spec fn method_url(base: Seq<char>, token: Seq<char>, method: Seq<char>) -> Seq<char> {
    base + "/bot"@ + token + "/"@ + method
}

fn url(base: &str, token: &str, method: &str) -> (r: String)
    ensures
        r@ == method_url(base@, token@, method@),
{
    base.to_owned().concat("/bot").concat(token).concat("/").concat(method)
}

/// Where updates are fetched.
pub fn get_updates_url(base: &str, token: &str) -> (r: String)
    ensures
        r@ == method_url(base@, token@, "getUpdates"@),
{
    url(base, token, "getUpdates")
}

/// Where replies are sent.
pub fn send_message_url(base: &str, token: &str) -> (r: String)
    ensures
        r@ == method_url(base@, token@, "sendMessage"@),
{
    url(base, token, "sendMessage")
}

/// The query of one long poll: how long it waits, the first update it asks for, and that it asks
/// for messages only.
pub fn poll_query(offset: i64) -> (r: Vec<(String, String)>)
    ensures
        r@.len() == 3,
        (r@[0].0@, r@[0].1@) == ("timeout"@, "30"@),
        (r@[1].0@, r@[1].1@) == ("offset"@, int_text(offset as int)),
        (r@[2].0@, r@[2].1@) == ("allowed_updates"@, "[\"message\"]"@),
        // The offset can be read back.
        offset >= 0 ==> parse_nat(r@[1].1@) == Some(offset as nat),
        offset < 0 ==> r@[1].1@[0] == '-' && parse_nat(r@[1].1@.skip(1)) == Some((-offset) as nat),
{
    proof {
        parse_reads_back_decimal(if offset < 0 {
            (-offset) as nat
        } else {
            offset as nat
        });
        signs_stand_in_front(offset as int);
    }
    let mut r: Vec<(String, String)> = Vec::new();
    r.push(("timeout".to_owned(), "30".to_owned()));
    r.push(("offset".to_owned(), i64_text(offset)));
    r.push(("allowed_updates".to_owned(), "[\"message\"]".to_owned()));
    r
}

/// Whether the chat interface is offered at all: there must be someone to serve.
pub fn is_enabled(admins: &Vec<String>) -> (r: bool)
    ensures
        r == (admins@.len() > 0),
{
    admins.len() > 0
}

/// How a poll came out.
#[derive(Debug)]
pub enum Polled {
    /// There was no answer.
    Unanswered,
    /// The answer broke off.
    Unread,
    /// The body of the answer.
    Body(Vec<u8>),
}

/// What follows a poll.
#[derive(Debug)]
pub enum PollNext {
    /// The next poll, after this many seconds.
    Wait { seconds: u64 },
    /// The next poll, at once.
    Again,
    /// These updates are served in turn, then comes the next poll.
    Serve { updates: Vec<Update<String>> },
}

/// What follows a poll: without an answer a pause, without a list of updates another poll at once.
pub fn after_poll(polled: Polled) -> (r: PollNext)
    ensures
        match polled {
            Polled::Unanswered => r == (PollNext::Wait { seconds: RETRY_SECS }),
            Polled::Unread => r is Again,
            Polled::Body(body) => match parsed(body@) {
                None => r is Again,
                Some(answer) => match updates_of(answer) {
                    None => r is Again,
                    Some(list) => r matches PollNext::Serve { updates } && update_views(updates@)
                        == list,
                },
            },
        },
        // Every item of the list of results is served, in its place.
        polled matches Polled::Body(body) ==> (parsed(body@) matches Some(answer) ==> (answer.field(
            "result"@,
        ) matches Some(JsonView::Array(items)) ==> r is Serve && r->updates@.len() == items.len()
            && forall|i: int|
            0 <= i < items.len() ==> (#[trigger] r->updates@[i])@ == update_of(items[i]))),
        // Without them there is another poll, after a pause where there was no answer at all.
        r is Wait <==> polled is Unanswered,
        r matches PollNext::Wait { seconds } ==> seconds == 15,
{
    match polled {
        Polled::Unanswered => PollNext::Wait { seconds: RETRY_SECS },
        Polled::Unread => PollNext::Again,
        Polled::Body(body) => match read_updates(body.as_slice()) {
            Some(updates) => {
                proof {
                    assert forall|i: int| 0 <= i < updates@.len() implies (
                    #[trigger] updates@[i])@ == update_views(updates@)[i] by {}
                }
                PollNext::Serve { updates }
            },
            None => PollNext::Again,
        },
    }
}

/// The first update that the next poll asks for: the one after an update, where that has a number.
pub open spec fn offset_after(offset: int, update_id: Option<i64>) -> int {
    match update_id {
        Some(id) => id + 1,
        None => offset,
    }
}

/// The first update that the next poll asks for, after all of these.
pub open spec fn offset_after_all<T>(offset: int, updates: Seq<Update<T>>) -> int
    decreases updates.len(),
{
    if updates.len() == 0 {
        offset
    } else {
        offset_after(offset_after_all(offset, updates.drop_last()), updates.last().update_id)
    }
}

/// Whether the numbers of all these updates have a successor.
pub open spec fn ids_have_successors<T>(updates: Seq<Update<T>>) -> bool {
    forall|i: int| 0 <= i < updates.len() ==> (#[trigger] updates[i]).update_id != Some(i64::MAX)
}

/// The first update that the next poll asks for, given how this one is followed up: a poll that
/// brought no updates changes nothing.
pub open spec fn offset_after_poll(offset: int, next: PollNext) -> int {
    match next {
        PollNext::Wait { .. } => offset,
        PollNext::Again => offset,
        PollNext::Serve { updates } => offset_after_all(offset, update_views(updates@)),
    }
}

/// The first update that the next poll asks for, after all of these polls.
pub open spec fn offset_after_polls(polls: Seq<PollNext>) -> int
    decreases polls.len(),
{
    if polls.len() == 0 {
        FIRST_OFFSET as int
    } else {
        offset_after_poll(offset_after_polls(polls.drop_last()), polls.last())
    }
}

/// The first update that the next poll asks for, after one update.
pub fn next_offset(offset: i64, update: &Update<String>) -> (r: i64)
    requires
        update.update_id != Some(i64::MAX),
    ensures
        r == offset_after(offset as int, update.update_id),
{
    match update.update_id {
        Some(id) => id + 1,
        None => offset,
    }
}

/// The first update that the next poll asks for.
pub fn next_poll(offset: i64, next: &PollNext) -> (r: i64)
    requires
        next matches PollNext::Serve { updates } ==> ids_have_successors(updates@),
    ensures
        r == offset_after_poll(offset as int, *next),
{
    match next {
        PollNext::Wait { .. } => offset,
        PollNext::Again => offset,
        PollNext::Serve { updates } => {
            let ghost all = update_views(updates@);
            let mut r: i64 = offset;
            let mut i: usize = 0;
            while i < updates.len()
                invariant
                    i <= updates@.len(),
                    all == update_views(updates@),
                    ids_have_successors(updates@),
                    r == offset_after_all(offset as int, all.take(i as int)),
                decreases updates@.len() - i,
            {
                proof {
                    assert(all.take(i + 1).drop_last() =~= all.take(i as int));
                    assert(all.take(i + 1).last() == updates@[i as int]@);
                }
                r = next_offset(r, &updates[i]);
                i = i + 1;
            }
            proof {
                assert(all.take(i as int) =~= all);
            }
            r
        },
    }
}

/// Whether the user is on the whitelist.
pub open spec fn whitelisted(admins: Seq<Seq<char>>, user: i64) -> bool {
    admins.contains(int_text(user as int))
}

/// Whether the user is on the whitelist.
pub fn is_admin(admins: &Vec<String>, user: i64) -> (r: bool)
    ensures
        r == whitelisted(views(admins@), user),
{
    if !is_enabled(admins) {
        return false;
    }
    let id: String = i64_text(user);
    let mut i: usize = 0;
    while i < admins.len()
        invariant
            i <= admins@.len(),
            id@ == int_text(user as int),
            forall|k: int| 0 <= k < i ==> (#[trigger] admins@[k])@ != id@,
        decreases admins@.len() - i,
    {
        if same_text(admins[i].as_str(), id.as_str()) {
            proof {
                assert(views(admins@)[i as int] == id@);
            }
            return true;
        }
        i = i + 1;
    }
    proof {
        assert forall|k: int| 0 <= k < views(admins@).len() implies views(admins@)[k] != id@ by {
            assert(views(admins@)[k] == admins@[k]@);
        }
    }
    false
}

/// What a message is answered with.
#[derive(Debug, PartialEq, Eq)]
pub enum Route<T> {
    /// Not at all.
    Ignore,
    /// With this text.
    Reply { chat_id: i64, text: T },
    /// With the outcome of restoring this file as the database.
    Restore { chat_id: i64, file_id: T },
    /// With the outcome of this command.
    Command { chat_id: i64, text: T },
}

impl View for Route<String> {
    type V = Route<Seq<char>>;

    open spec fn view(&self) -> Route<Seq<char>> {
        match self {
            Route::Ignore => Route::Ignore,
            Route::Reply { chat_id, text } => Route::Reply { chat_id: *chat_id, text: text@ },
            Route::Restore { chat_id, file_id } => Route::Restore {
                chat_id: *chat_id,
                file_id: file_id@,
            },
            Route::Command { chat_id, text } => Route::Command { chat_id: *chat_id, text: text@ },
        }
    }
}

/// The name of the command that a text gives: its first word, without slashes and in lower case.
pub open spec fn command_name(text: Seq<char>) -> Seq<char> {
    lower(trim_slashes(word(text, 0)))
}

/// Whether a command's name goes on with `c`: names are made of Latin letters, digits and
/// underscores. Other characters end them, as the at sign does before the name of a bot.
pub open spec fn goes_on(c: char) -> bool {
    'a' <= c <= 'z' || is_digit(c) || c == '_'
}

/// Whether a caption asks for a restore: its first word is the restore command, with or without the
/// bot that it is addressed to.
pub open spec fn is_restore_caption(caption: Seq<char>) -> bool {
    let name = command_name(caption);
    "restore"@.is_prefix_of(name) && (name.len() > "restore"@.len() ==> !goes_on(
        name["restore"@.len() as int],
    ))
}

/// The refusal of a file of this size.
pub open spec fn too_large(size: i64) -> Seq<char> {
    "❌ 文件过大（"@ + human_text(size as int) + "），不像合法的数据库备份"@
}

/// What a request to restore `document` is answered with.
pub open spec fn route_document(chat_id: i64, document: Document<Seq<char>>) -> Route<Seq<char>> {
    let size = match document.file_size {
        Some(n) => n,
        None => 0,
    };
    match document.file_id {
        None => Route::Reply { chat_id, text: NO_FILE@ },
        Some(file_id) => if size > MAX_RESTORE_BYTES {
            Route::Reply { chat_id, text: too_large(size) }
        } else {
            Route::Restore { chat_id, file_id }
        },
    }
}

/// What a message of an administrator is answered with. A file whose caption asks for a restore
/// is restored, and so is a file that a restore command replies to; any other text is a command.
pub open spec fn route_message(m: Message<Seq<char>>) -> Route<Seq<char>> {
    let chat_id = match m.chat_id {
        Some(id) => id,
        None => 0,
    };
    let caption = match m.caption {
        Some(c) => c,
        None => seq![],
    };
    if m.document is Some && is_restore_caption(caption) {
        route_document(chat_id, m.document->0)
    } else {
        match m.text {
            None => Route::Ignore,
            Some(text) => if m.replied_document is Some && command_name(text) == "restore"@ {
                route_document(chat_id, m.replied_document->0)
            } else {
                Route::Command { chat_id, text }
            },
        }
    }
}

/// What an update is answered with: nothing, unless it is a message of an administrator.
pub open spec fn route_of(admins: Seq<Seq<char>>, update: Update<Seq<char>>) -> Route<Seq<char>> {
    match update.message {
        None => Route::Ignore,
        Some(m) => match m.from_id {
            None => Route::Ignore,
            Some(user) => if whitelisted(admins, user) {
                route_message(m)
            } else {
                Route::Ignore
            },
        },
    }
}

/// The name of the command that a text gives.
pub fn name_of_command(text: &str) -> (r: String)
    ensures
        r@ == command_name(text@),
{
    let parts: Vec<String> = split_words(text);
    proof {
        assert(views(parts@).len() == parts@.len());
        if parts@.len() > 0 {
            assert(views(parts@)[0] == parts@[0]@);
        }
    }
    if parts.len() > 0 {
        to_lower(without_slashes(parts[0].as_str()).as_str())
    } else {
        proof {
            assert(trim_slashes(seq![]) =~= seq![]);
            assert(lower(seq![]) =~= seq![]);
        }
        String::new()
    }
}

/// What a request to restore `document` is answered with.
pub fn handle_document(chat_id: i64, document: Document<String>) -> (r: Route<String>)
    ensures
        r@ == route_document(chat_id, document@),
{
    let size: i64 = match document.file_size {
        Some(n) => n,
        None => 0,
    };
    match document.file_id {
        None => Route::Reply { chat_id, text: NO_FILE.to_owned() },
        Some(file_id) => if size > MAX_RESTORE_BYTES {
            Route::Reply {
                chat_id,
                text: "❌ 文件过大（".to_owned().concat(human_bytes(size).as_str()).concat(
                    "），不像合法的数据库备份",
                ),
            }
        } else {
            Route::Restore { chat_id, file_id }
        },
    }
}

/// Whether a caption asks for a restore.
pub fn asks_for_restore(caption: &str) -> (r: bool)
    ensures
        r == is_restore_caption(caption@),
{
    let name: String = name_of_command(caption);
    if !begins_with(name.as_str(), "restore") {
        return false;
    }
    let v: Vec<char> = chars_of(name.as_str());
    let n: usize = chars_of("restore").len();
    if v.len() > n {
        let c: char = v[n];
        !(('a' <= c && c <= 'z') || ('0' <= c && c <= '9') || c == '_')
    } else {
        true
    }
}

/// What an update is answered with.
pub fn route(admins: &Vec<String>, update: Update<String>) -> (r: Route<String>)
    ensures
        r@ == route_of(views(admins@), update@),
{
    let m: Message<String> = match update.message {
        None => {
            return Route::Ignore;
        },
        Some(m) => m,
    };
    match m.from_id {
        None => {
            return Route::Ignore;
        },
        Some(user) => {
            if !is_admin(admins, user) {
                return Route::Ignore;
            }
        },
    }
    let chat_id: i64 = match m.chat_id {
        Some(id) => id,
        None => 0,
    };
    let caption: String = match m.caption {
        Some(c) => c,
        None => String::new(),
    };
    match m.document {
        Some(d) => {
            if asks_for_restore(caption.as_str()) {
                return handle_document(chat_id, d);
            }
        },
        None => {},
    }
    match m.text {
        None => Route::Ignore,
        Some(text) => match m.replied_document {
            Some(d) => if same_text(name_of_command(text.as_str()).as_str(), "restore") {
                handle_document(chat_id, d)
            } else {
                Route::Command { chat_id, text }
            },
            None => Route::Command { chat_id, text },
        },
    }
}

/// How many UTF-16 code units a character takes: two outside the basic plane, else one.
pub open spec fn utf16_units(c: char) -> nat {
    if c as int >= 0x10000 {
        2
    } else {
        1
    }
}

/// How many UTF-16 code units a text takes.
pub open spec fn utf16_len(s: Seq<char>) -> nat
    decreases s.len(),
{
    if s.len() == 0 {
        0
    } else {
        utf16_len(s.drop_last()) + utf16_units(s.last())
    }
}

/// The most characters at the front of `text`, and no more than `k`, that leave room for one code
/// unit within Telegram's limit.
pub open spec fn longest_fit(text: Seq<char>, k: nat) -> nat
    decreases k,
{
    if k == 0 || utf16_len(text.take(k as int)) < TELEGRAM_LIMIT {
        k
    } else {
        longest_fit(text, (k - 1) as nat)
    }
}

/// How many characters of a text that is too long are sent.
pub open spec fn kept(text: Seq<char>) -> nat {
    longest_fit(
        text,
        if text.len() > MAX_CHARS {
            MAX_CHARS as nat
        } else {
            text.len()
        },
    )
}

/// What is sent of an answer: nothing of an empty one; of one with too many characters or code
/// units as much of the beginning as there is room for, and an ellipsis.
pub open spec fn outgoing(text: Seq<char>) -> Option<Seq<char>> {
    if text.len() == 0 {
        None
    } else if text.len() <= MAX_CHARS && utf16_len(text) <= TELEGRAM_LIMIT {
        Some(text)
    } else {
        Some(text.take(kept(text) as int).push('…'))
    }
}

/// The body of a `sendMessage` request.
pub open spec fn message_body(chat_id: i64, text: Seq<char>) -> JsonView {
    JsonView::Object(
        seq![
            ("chat_id"@, JsonView::Number(Some(chat_id))),
            ("text"@, JsonView::Text(text)),
        ],
    )
}

/// How many UTF-16 code units a character takes.
fn units_of(c: char) -> (r: u64)
    ensures
        r == utf16_units(c),
{
    let n: u32 = c as u32;
    if n >= 0x10000 {
        2
    } else {
        1
    }
}

/// What is sent of an answer.
pub fn outgoing_text(text: &str) -> (r: Option<String>)
    ensures
        outgoing(text@) == (match r {
            Some(s) => Some(s@),
            None => None,
        }),
{
    let v: Vec<char> = chars_of(text);
    if v.len() == 0 {
        return None;
    }
    let most: usize = if v.len() > MAX_CHARS {
        MAX_CHARS
    } else {
        v.len()
    };
    let ghost m = most as nat;
    let mut units: u64 = 0;
    let mut room: usize = 0;
    let mut i: usize = 0;
    proof {
        assert(utf16_len(text@.take(0)) == 0);
    }
    while i < most
        invariant
            v@ == text@,
            m == most <= v@.len(),
            most <= MAX_CHARS,
            room <= i <= most,
            units == utf16_len(text@.take(i as int)),
            units <= 2 * i,
            utf16_len(text@.take(room as int)) < TELEGRAM_LIMIT,
            room < i ==> utf16_len(text@.take(room + 1)) >= TELEGRAM_LIMIT,
        decreases most - i,
    {
        let c: char = v[i];
        units = units + units_of(c);
        proof {
            assert(text@.take(i + 1).drop_last() =~= text@.take(i as int));
            assert(text@.take(i + 1).last() == c);
            if room < i {
                lemma_utf16_len_grows(text@, room + 1, i as int);
            }
        }
        if units < TELEGRAM_LIMIT {
            room = i + 1;
        }
        i = i + 1;
    }
    proof {
        lemma_longest_fit(text@, m);
        let k = longest_fit(text@, m) as int;
        if k < room {
            assert(utf16_len(text@.take(room as int)) >= TELEGRAM_LIMIT);
        }
        if room < k {
            lemma_utf16_len_grows(text@, room + 1, k);
        }
        assert(k == room);
        assert(text@.take(text@.len() as int) =~= text@);
    }
    if v.len() <= MAX_CHARS && units <= TELEGRAM_LIMIT {
        Some(text.to_owned())
    } else {
        let mut s: String = text_of(&v, 0, room);
        s.push('…');
        proof {
            assert(text@.subrange(0, room as int) =~= text@.take(room as int));
        }
        Some(s)
    }
}

/// The body of the request that sends an answer. Nothing is sent of an empty one.
pub fn reply_body(chat_id: i64, text: &str) -> (r: Option<Json>)
    ensures
        (match outgoing(text@) {
            Some(t) => Some(message_body(chat_id, t)),
            None => None,
        }) == (match r {
            Some(j) => Some(j@),
            None => None,
        }),
        // There is a body unless the answer is empty, and it is for this chat.
        r is None <==> text@.len() == 0,
        r matches Some(j) ==> j@.field("chat_id"@) == Some(JsonView::Number(Some(chat_id)))
            && j@.field("text"@) == Some(JsonView::Text(outgoing(text@)->0)),
{
    proof {
        bodies_name_chat_and_text(chat_id, outgoing(text@)->0, ""@);
    }
    match outgoing_text(text) {
        None => None,
        Some(t) => {
            let mut fields: Vec<(String, Json)> = Vec::new();
            fields.push(("chat_id".to_owned(), Json::Number(Some(chat_id))));
            fields.push(("text".to_owned(), Json::Text(t)));
            let body: Json = Json::Object(fields);
            proof {
                lemma_object_view(fields);
                assert(body@->Object_0 =~= message_body(chat_id, t@)->Object_0);
            }
            Some(body)
        },
    }
}

proof fn lemma_longest_fit(text: Seq<char>, k: nat)
    requires
        k <= text.len(),
    ensures
        longest_fit(text, k) <= k,
        utf16_len(text.take(longest_fit(text, k) as int)) < TELEGRAM_LIMIT,
        forall|n: int|
            longest_fit(text, k) < n <= k ==> utf16_len(#[trigger] text.take(n)) >= TELEGRAM_LIMIT,
    decreases k,
{
    if k > 0 && utf16_len(text.take(k as int)) >= TELEGRAM_LIMIT {
        lemma_longest_fit(text, (k - 1) as nat);
    } else if k == 0 {
        assert(utf16_len(text.take(0)) == 0);
    }
}

proof fn lemma_utf16_len_grows(text: Seq<char>, m: int, n: int)
    requires
        0 <= m <= n <= text.len(),
    ensures
        utf16_len(text.take(m)) + (n - m) <= utf16_len(text.take(n)),
    decreases n - m,
{
    if m < n {
        lemma_utf16_len_grows(text, m, n - 1);
        assert(text.take(n).drop_last() =~= text.take(n - 1));
    }
}

proof fn lemma_basic_plane(text: Seq<char>)
    requires
        forall|i: int| 0 <= i < text.len() ==> utf16_units(#[trigger] text[i]) == 1,
    ensures
        utf16_len(text) == text.len(),
    decreases text.len(),
{
    if text.len() > 0 {
        let h = text.drop_last();
        assert forall|i: int| 0 <= i < h.len() implies utf16_units(#[trigger] h[i]) == 1 by {
            assert(h[i] == text[i]);
        }
        lemma_basic_plane(h);
    }
}

/// Whatever the answer, what is sent of it keeps within Telegram's limit.
pub proof fn outgoing_fits(text: Seq<char>)
    ensures
        outgoing(text) matches Some(t) ==> 0 < t.len() <= MAX_CHARS + 1 && utf16_len(t)
            <= TELEGRAM_LIMIT,
{
    let m: nat = if text.len() > MAX_CHARS {
        MAX_CHARS as nat
    } else {
        text.len()
    };
    lemma_longest_fit(text, m);
    let head = text.take(kept(text) as int);
    assert(head.push('…').drop_last() =~= head);
}

/// What is sent begins as the answer does, and no more is left out than has to be: a short answer
/// is sent whole, and of a long one there is no longer beginning that would leave room for the
/// ellipsis.
pub proof fn outgoing_keeps_the_beginning(text: Seq<char>)
    ensures
        text.len() == 0 <==> outgoing(text) is None,
        0 < text.len() <= MAX_CHARS && utf16_len(text) <= TELEGRAM_LIMIT ==> outgoing(text) == Some(
            text,
        ),
        text.len() > MAX_CHARS || utf16_len(text) > TELEGRAM_LIMIT ==> {
            let k = kept(text) as int;
            &&& k < text.len()
            &&& outgoing(text) == Some(text.take(k).push('…'))
            &&& forall|n: int|
                k < n <= text.len() && n <= MAX_CHARS ==> utf16_len(#[trigger] text.take(n)) + 1
                    > TELEGRAM_LIMIT
        },
{
    let m: nat = if text.len() > MAX_CHARS {
        MAX_CHARS as nat
    } else {
        text.len()
    };
    lemma_longest_fit(text, m);
    assert(text.take(text.len() as int) =~= text);
    assert(utf16_len(seq![]) == 0);
}

/// An answer within the basic plane is cut by its characters alone.
pub proof fn basic_plane_is_cut_by_characters(text: Seq<char>)
    requires
        forall|i: int| 0 <= i < text.len() ==> utf16_units(#[trigger] text[i]) == 1,
    ensures
        0 < text.len() <= MAX_CHARS ==> outgoing(text) == Some(text),
        text.len() > MAX_CHARS ==> outgoing(text) == Some(text.take(MAX_CHARS as int).push('…')),
{
    lemma_basic_plane(text);
    if text.len() > MAX_CHARS {
        let head = text.take(MAX_CHARS as int);
        assert forall|i: int| 0 <= i < head.len() implies utf16_units(#[trigger] head[i]) == 1 by {
            assert(head[i] == text[i]);
        }
        lemma_basic_plane(head);
    }
}

/// Whether the numbers of these updates, where they have one, are at least `from` and ascend.
pub open spec fn ascending_from<T>(from: int, updates: Seq<Update<T>>) -> bool {
    &&& forall|i: int|
        0 <= i < updates.len() ==> ((#[trigger] updates[i]).update_id matches Some(id) ==> from
            <= id)
    &&& forall|i: int, j: int|
        0 <= i < j < updates.len() ==> ((#[trigger] updates[i]).update_id matches Some(a) ==> ((
        #[trigger] updates[j]).update_id matches Some(b) ==> a < b))
}

/// After a list of updates the next poll asks for the one after the last of them, whatever they
/// hold: an update that is ignored is passed over like any other.
pub proof fn polls_go_on_after_the_last_update<T>(offset: int, updates: Seq<Update<T>>, last: int)
    requires
        0 <= last < updates.len(),
        updates[last].update_id is Some,
        forall|i: int| last < i < updates.len() ==> (#[trigger] updates[i]).update_id is None,
    ensures
        offset_after_all(offset, updates) == updates[last].update_id->0 + 1,
    decreases updates.len(),
{
    if last < updates.len() - 1 {
        let h = updates.drop_last();
        assert(h[last] == updates[last]);
        assert forall|i: int| last < i < h.len() implies (#[trigger] h[i]).update_id is None by {
            assert(h[i] == updates[i]);
        }
        polls_go_on_after_the_last_update(offset, h, last);
    }
}

/// Polling begins at zero, keeps its place through polls that bring no updates, and goes on after
/// the last update of one that does.
pub proof fn polling_keeps_its_place(polls: Seq<PollNext>)
    ensures
        polls.len() == 0 ==> offset_after_polls(polls) == 0,
        polls.len() > 0 && !(polls.last() is Serve) ==> offset_after_polls(polls)
            == offset_after_polls(polls.drop_last()),
        polls.len() > 0 ==> (polls.last() matches PollNext::Serve { updates } ==> (updates@.len() > 0
            ==> (updates@.last().update_id matches Some(id) ==> offset_after_polls(polls) == id
            + 1))),
{
    if polls.len() > 0 {
        if let PollNext::Serve { updates } = polls.last() {
            if updates@.len() > 0 && updates@.last().update_id is Some {
                let all = update_views(updates@);
                assert(all.last() == updates@.last()@);
                polls_go_on_after_the_last_update(
                    offset_after_polls(polls.drop_last()),
                    all,
                    all.len() - 1,
                );
            }
        }
    }
}

/// Where numbers ascend, a list of updates moves the next poll past all of them, and never back.
pub proof fn updates_are_passed<T>(offset: int, updates: Seq<Update<T>>)
    requires
        ascending_from(offset, updates),
    ensures
        offset <= offset_after_all(offset, updates),
        forall|i: int|
            0 <= i < updates.len() ==> ((#[trigger] updates[i]).update_id matches Some(id) ==> id
                < offset_after_all(offset, updates)),
    decreases updates.len(),
{
    if updates.len() > 0 {
        let h = updates.drop_last();
        assert forall|i: int| 0 <= i < h.len() implies h[i] == updates[i] by {}
        updates_are_passed(offset, h);
        assert forall|i: int| 0 <= i < updates.len() implies ((
        #[trigger] updates[i]).update_id matches Some(id) ==> id < offset_after_all(
            offset,
            updates,
        )) by {
            if i < h.len() {
                assert(h[i] == updates[i]);
                assert(updates[h.len() as int] == updates.last());
            }
        }
    }
}

/// No update is served twice: what a later poll brings, when it asks for what comes after an earlier
/// one, has other numbers.
pub proof fn updates_are_served_once<T>(
    offset: int,
    earlier: Seq<Update<T>>,
    later: Seq<Update<T>>,
    i: int,
    j: int,
)
    requires
        ascending_from(offset, earlier),
        ascending_from(offset_after_all(offset, earlier), later),
        0 <= i < earlier.len(),
        0 <= j < later.len(),
        earlier[i].update_id is Some,
        later[j].update_id is Some,
    ensures
        earlier[i].update_id->0 < later[j].update_id->0,
{
    updates_are_passed(offset, earlier);
}

/// Nobody outside the whitelist is heeded: whatever they send, it is ignored.
pub proof fn strangers_are_ignored(admins: Seq<Seq<char>>, update: Update<Seq<char>>)
    requires
        update.message matches Some(m) ==> (m.from_id matches Some(user) ==> !whitelisted(
            admins,
            user,
        )),
    ensures
        route_of(admins, update) == Route::<Seq<char>>::Ignore,
{
}

/// Whether message `m` asks for its own file, or the one it replies to, to be restored.
pub open spec fn asks_to_restore(m: Message<Seq<char>>, d: Document<Seq<char>>) -> bool {
    ||| m.document == Some(d) && (m.caption matches Some(c) && is_restore_caption(c))
    ||| m.replied_document == Some(d) && (m.text matches Some(t) && command_name(t) == "restore"@)
}

/// A restore is begun only for a file that an administrator's restore command names, that can be
/// downloaded and that is not too large.
pub proof fn restores_are_screened(admins: Seq<Seq<char>>, update: Update<Seq<char>>)
    ensures
        route_of(admins, update) matches Route::Restore { chat_id, file_id } ==> {
            let m = update.message->0;
            &&& whitelisted(admins, m.from_id->0)
            &&& exists|d: Document<Seq<char>>| #[trigger]
                asks_to_restore(m, d) && d.file_id == Some(file_id) && (d.file_size matches Some(n)
                    ==> n <= MAX_RESTORE_BYTES)
        },
{
    if route_of(admins, update) is Restore {
        let m = update.message->0;
        let caption = match m.caption {
            Some(c) => c,
            None => seq![],
        };
        let d = if m.document is Some && is_restore_caption(caption) {
            m.document->0
        } else {
            m.replied_document->0
        };
        assert(m.caption is None ==> !is_restore_caption(caption)) by {
            let none = Seq::<char>::empty();
            reveal_strlit("restore");
            assert(trim_start(none) =~= none);
            assert(words(none).len() == 0);
            assert(command_name(none).len() == 0);
        }
        assert(asks_to_restore(m, d));
    }
}

/// A user is heeded just where the list of administrators holds that user's whole id in decimal:
/// then a text is taken for a command in the chat it came from, and else it is ignored.
pub proof fn listed_users_are_heeded(
    admins: Seq<Seq<char>>,
    update: Update<Seq<char>>,
    user: i64,
    chat_id: i64,
    text: Seq<char>,
)
    requires
        update.message matches Some(m) && m.from_id == Some(user) && m.chat_id == Some(chat_id)
            && m.text == Some(text) && m.document is None && m.replied_document is None,
    ensures
        (exists|k: int| 0 <= k < admins.len() && #[trigger] admins[k] == int_text(user as int))
            ==> route_of(admins, update) == (Route::Command { chat_id, text }),
        (forall|k: int| 0 <= k < admins.len() ==> #[trigger] admins[k] != int_text(user as int))
            ==> route_of(admins, update) == Route::<Seq<char>>::Ignore,
{
    if exists|k: int| 0 <= k < admins.len() && #[trigger] admins[k] == int_text(user as int) {
        let k = choose|k: int| 0 <= k < admins.len() && #[trigger] admins[k] == int_text(user as int);
        assert(admins.contains(admins[k]));
    }
}

/// Users with different ids are told apart: a list that holds one id alone heeds that user and no
/// other.
pub proof fn each_user_is_heeded_for_themselves(
    update: Update<Seq<char>>,
    listed: i64,
    user: i64,
    text: Seq<char>,
)
    requires
        update.message matches Some(m) && m.from_id == Some(user) && m.text == Some(text)
            && m.document is None && m.replied_document is None,
    ensures
        route_of(seq![int_text(listed as int)], update) is Command <==> listed == user,
{
    let admins = seq![int_text(listed as int)];
    if admins.contains(int_text(user as int)) {
        let k = choose|k: int| 0 <= k < admins.len() && admins[k] == int_text(user as int);
        decimal_is_unambiguous(listed as int, user as int);
    }
    if listed == user {
        assert(admins[0] == int_text(user as int));
    }
}

/// What becomes of a message of an administrator, given which of its files it asks to have restored.
/// Answers go to the message's chat. A file that can be had, and of which it is not known that it is
/// larger than half a gibibyte, is restored; any other is refused.
pub proof fn messages_of_administrators_are_served(
    admins: Seq<Seq<char>>,
    update: Update<Seq<char>>,
    m: Message<Seq<char>>,
    k: int,
)
    requires
        update.message == Some(m),
        m.from_id is Some,
        0 <= k < admins.len(),
        admins[k] == int_text(m.from_id->0 as int),
    ensures
        ({
            let chat_id: i64 = if m.chat_id is Some {
                m.chat_id->0
            } else {
                0
            };
            let by_caption = m.document is Some && m.caption is Some && is_restore_caption(
                m.caption->0,
            );
            let by_reply = m.replied_document is Some && m.text is Some && command_name(m.text->0)
                == "restore"@;
            let r = route_of(admins, update);
            if by_caption || by_reply {
                let d = if by_caption {
                    m.document->0
                } else {
                    m.replied_document->0
                };
                if d.file_id is None {
                    r == (Route::Reply { chat_id, text: "❌ 消息里没有可下载的文件"@ })
                } else if d.file_size is Some && d.file_size->0 > 536870912 {
                    r == (Route::Reply {
                        chat_id,
                        text: "❌ 文件过大（"@ + human_text(d.file_size->0 as int)
                            + "），不像合法的数据库备份"@,
                    })
                } else {
                    r == (Route::Restore { chat_id, file_id: d.file_id->0 })
                }
            } else if m.text is Some {
                r == (Route::Command { chat_id, text: m.text->0 })
            } else {
                r == Route::<Seq<char>>::Ignore
            }
        }),
{
    assert(admins.contains(admins[k]));
    assert(!is_restore_caption(seq![])) by {
        let none = Seq::<char>::empty();
        reveal_strlit("restore");
        assert(trim_start(none) =~= none);
        assert(words(none).len() == 0);
        assert(command_name(none).len() == 0);
    }
}

/// A command is named by the first word of a text, past white space and slashes and in lower case,
/// and the words that follow are its arguments.
pub proof fn commands_are_named_by_their_first_word(
    space: Seq<char>,
    slashes: Seq<char>,
    name: Seq<char>,
    rest: Seq<char>,
    i: int,
)
    requires
        all_blank(space),
        forall|i: int| 0 <= i < slashes.len() ==> #[trigger] slashes[i] == '/',
        all_inked(name),
        name.len() > 0 && name[0] != '/',
        rest.len() > 0 ==> white_space(rest[0]),
        i >= 0,
    ensures
        command_name(space + slashes + name + rest) == lower(name),
        word(space + slashes + name + rest, i + 1) == word(rest, i),
        i < words(rest).len() ==> word(rest, i) == words(rest)[i],
        i >= words(rest).len() ==> word(rest, i).len() == 0,
{
    let first = slashes + name;
    assert forall|i: int| 0 <= i < first.len() implies !white_space(#[trigger] first[i]) by {
        if i < slashes.len() {
            assert(slashes[i] == '/');
        } else {
            assert(first[i] == name[i - slashes.len()]);
        }
    }
    words_come_one_by_one(space, first, rest);
    assert(space + slashes + name + rest =~= space + first + rest);
    slashes_come_off(slashes, name);
    assert((seq![first] + words(rest))[0] == first);
    if i < words(rest).len() {
        assert((seq![first] + words(rest))[i + 1] == words(rest)[i]);
    }
}

/// A caption asks for a restore just where its first word, past slashes and in any letter case, is
/// `restore`, or goes on from there with what is no Latin letter, digit or underscore.
pub proof fn restore_captions_name_the_command(
    space: Seq<char>,
    slashes: Seq<char>,
    name: Seq<char>,
    rest: Seq<char>,
)
    requires
        all_blank(space),
        forall|i: int| 0 <= i < slashes.len() ==> #[trigger] slashes[i] == '/',
        all_inked(name),
        name.len() > 0 && name[0] != '/',
        rest.len() > 0 ==> white_space(rest[0]),
    ensures
        is_restore_caption(space + slashes + name + rest) <==> {
            &&& name.len() >= 7
            &&& name[0] == 'r' || name[0] == 'R'
            &&& name[1] == 'e' || name[1] == 'E'
            &&& name[2] == 's' || name[2] == 'S'
            &&& name[3] == 't' || name[3] == 'T'
            &&& name[4] == 'o' || name[4] == 'O'
            &&& name[5] == 'r' || name[5] == 'R'
            &&& name[6] == 'e' || name[6] == 'E'
            &&& name.len() > 7 ==> !('a' <= name[7] <= 'z') && !('A' <= name[7] <= 'Z') && !('0'
                <= name[7] <= '9') && name[7] != '_'
        },
{
    commands_are_named_by_their_first_word(space, slashes, name, rest, 0);
    reveal_strlit("restore");
    let w = "restore"@;
    let n = lower(name);
    assert(n.len() == name.len());
    if name.len() >= 7 {
        let p = n.subrange(0, 7);
        assert(p[0] == n[0] && p[1] == n[1] && p[2] == n[2] && p[3] == n[3] && p[4] == n[4] && p[5]
            == n[5] && p[6] == n[6]);
        if n[0] == 'r' && n[1] == 'e' && n[2] == 's' && n[3] == 't' && n[4] == 'o' && n[5] == 'r'
            && n[6] == 'e' {
            assert(p =~= w);
        }
        if p == w {
            assert(w[0] == 'r' && w[1] == 'e' && w[2] == 's' && w[3] == 't' && w[4] == 'o' && w[5]
                == 'r' && w[6] == 'e');
        }
    }
}

/// UTF-16 code units add up, one for a character of the basic plane and two for any other.
pub proof fn code_units_add_up(a: Seq<char>, b: Seq<char>, c: char)
    ensures
        utf16_len(a + b) == utf16_len(a) + utf16_len(b),
        utf16_len(seq![c]) == (if c as int <= 0xffff {
            1int
        } else {
            2int
        }),
        utf16_len(seq![]) == 0,
    decreases b.len(),
{
    assert(seq![c].drop_last() =~= seq![]);
    assert(utf16_len(seq![c].drop_last()) == 0);
    if b.len() == 0 {
        assert(a + b =~= a);
    } else {
        code_units_add_up(a, b.drop_last(), c);
        assert((a + b).drop_last() =~= a + b.drop_last());
    }
}

/// What is sent of an answer, in numbers: all of it up to 3800 characters and 4096 code units.
/// Otherwise an ellipsis stands in place of the end, after the longest beginning of at most 3800
/// characters that leaves room for it.
pub proof fn long_answers_end_in_an_ellipsis(text: Seq<char>, k: int)
    requires
        0 <= k <= text.len(),
        k <= 3800,
        utf16_len(text.take(k)) <= 4095,
        k == text.len() || k == 3800 || utf16_len(text.take(k + 1)) > 4095,
    ensures
        text.len() == 0 ==> outgoing(text) is None,
        0 < text.len() <= 3800 && utf16_len(text) <= 4096 ==> outgoing(text) == Some(text),
        text.len() > 3800 || utf16_len(text) > 4096 ==> outgoing(text) == Some(
            text.take(k) + seq!['…'],
        ),
{
    if text.len() > 3800 || utf16_len(text) > 4096 {
        let m: nat = if text.len() > MAX_CHARS {
            MAX_CHARS as nat
        } else {
            text.len()
        };
        lemma_longest_fit(text, m);
        let n = kept(text) as int;
        if n < k {
            assert(utf16_len(text.take(k)) >= TELEGRAM_LIMIT);
        }
        if k < n {
            lemma_utf16_len_grows(text, k + 1, n);
        }
        assert(text.take(k).push('…') =~= text.take(k) + seq!['…']);
    }
}

/// The body that sends an answer names the chat and holds the text, and nothing else.
pub proof fn bodies_name_chat_and_text(chat_id: i64, text: Seq<char>, other: Seq<char>)
    ensures
        message_body(chat_id, text) is Object,
        message_body(chat_id, text).field("chat_id"@) == Some(JsonView::Number(Some(chat_id))),
        message_body(chat_id, text).field("text"@) == Some(JsonView::Text(text)),
        other != "chat_id"@ && other != "text"@ ==> message_body(chat_id, text).field(other) is None,
{
    let fields = seq![
        ("chat_id"@, JsonView::Number(Some(chat_id))),
        ("text"@, JsonView::Text(text)),
    ];
    reveal_strlit("chat_id");
    reveal_strlit("text");
    assert("chat_id"@.len() == 7 && "text"@.len() == 4);
    assert(message_body(chat_id, text) == JsonView::Object(fields));
    fields_are_found_by_name(JsonView::Null, fields, "chat_id"@, 0);
    fields_are_found_by_name(JsonView::Null, fields, "text"@, 1);
    fields_are_found_by_name(JsonView::Null, fields, other, 0);
}

/// Updates without numbers leave the next poll where it was.
pub proof fn updates_without_numbers_are_not_counted<T>(offset: int, updates: Seq<Update<T>>)
    requires
        forall|i: int| 0 <= i < updates.len() ==> (#[trigger] updates[i]).update_id is None,
    ensures
        offset_after_all(offset, updates) == offset,
    decreases updates.len(),
{
    if updates.len() > 0 {
        let h = updates.drop_last();
        assert forall|i: int| 0 <= i < h.len() implies (#[trigger] h[i]).update_id is None by {
            assert(h[i] == updates[i]);
        }
        updates_without_numbers_are_not_counted(offset, h);
        assert(updates[updates.len() - 1].update_id is None);
    }
}

/// The address of a method begins with the server and ends with the method; between them stands the
/// token.
pub proof fn addresses_hold_their_parts(base: Seq<char>, token: Seq<char>, method: Seq<char>)
    ensures
        ({
            let u = method_url(base, token, method);
            let b = base.len() as int;
            let t = token.len() as int;
            &&& u.len() == b + 4 + t + 1 + method.len()
            &&& u.take(b) == base
            &&& u[b] == '/' && u[b + 1] == 'b' && u[b + 2] == 'o' && u[b + 3] == 't'
            &&& u.subrange(b + 4, b + 4 + t) == token
            &&& u[b + 4 + t] == '/'
            &&& u.skip(b + 5 + t) == method
        }),
{
    reveal_strlit("/bot");
    reveal_strlit("/");
    let u = method_url(base, token, method);
    let b = base.len() as int;
    let t = token.len() as int;
    assert(u.take(b) =~= base);
    assert(u.subrange(b + 4, b + 4 + t) =~= token);
    assert(u.skip(b + 5 + t) =~= method);
}

/// Routes in strings say what routes in texts say, and lists of strings what lists of texts say.
pub proof fn routes_are_handed_out_as_they_are(r: Route<String>, list: Seq<String>, i: int)
    ensures
        r is Ignore <==> r@ is Ignore,
        r matches Route::Reply { chat_id, text } ==> r@ == (Route::Reply { chat_id, text: text@ }),
        r matches Route::Restore { chat_id, file_id } ==> r@ == (Route::Restore {
            chat_id,
            file_id: file_id@,
        }),
        r matches Route::Command { chat_id, text } ==> r@ == (Route::Command {
            chat_id,
            text: text@,
        }),
        views(list).len() == list.len(),
        0 <= i < list.len() ==> views(list)[i] == list[i]@,
{
}

/// A text whose first word is nothing but slashes, or that has no words, names no command.
pub proof fn slashes_alone_name_no_command(space: Seq<char>, slashes: Seq<char>, rest: Seq<char>)
    requires
        all_blank(space),
        forall|i: int| 0 <= i < slashes.len() ==> #[trigger] slashes[i] == '/',
        rest.len() > 0 ==> white_space(rest[0]),
    ensures
        slashes.len() > 0 ==> command_name(space + slashes + rest).len() == 0
            && !is_restore_caption(space + slashes + rest),
        command_name(space).len() == 0 && !is_restore_caption(space),
{
    reveal_strlit("restore");
    let none = Seq::<char>::empty();
    assert forall|i: int| 0 <= i < slashes.len() implies !white_space(#[trigger] slashes[i]) by {
        assert(slashes[i] == '/');
    }
    words_come_one_by_one(space, slashes, rest);
    assert(slashes + none =~= slashes);
    slashes_come_off(slashes, none);
    assert(none + none =~= none);
    slashes_come_off(none, none);
    if slashes.len() > 0 {
        assert((seq![slashes] + words(rest))[0] == slashes);
    }
}

/// A poll is given more time than it asks the server to wait, and one that failed is tried again
/// after a quarter of a minute.
pub proof fn polls_are_given_time()
    ensures
        30 < POLL_TIMEOUT_SECS,
        POLL_TIMEOUT_SECS == 40,
        4 * RETRY_SECS == 60,
{
}

}
