//! What the bot reads of Telegram's updates.

use vstd::prelude::*;

use crate::json::{parse, parsed, Json, JsonView};

verus! {

/// A file attached to a message.
#[derive(Debug)]
pub struct Document<T> {
    pub file_id: Option<T>,
    pub file_size: Option<i64>,
}

/// A chat message.
#[derive(Debug)]
pub struct Message<T> {
    /// The user who sent it.
    pub from_id: Option<i64>,
    /// The chat it was sent to.
    pub chat_id: Option<i64>,
    pub document: Option<Document<T>>,
    /// The caption of the attached file.
    pub caption: Option<T>,
    pub text: Option<T>,
    /// The file attached to the message that this one replies to.
    pub replied_document: Option<Document<T>>,
}

/// One entry of an answer to `getUpdates`.
#[derive(Debug)]
pub struct Update<T> {
    pub update_id: Option<i64>,
    pub message: Option<Message<T>>,
}

/// The text of an optional string.
pub open spec fn opt_text(s: Option<String>) -> Option<Seq<char>> {
    match s {
        Some(t) => Some(t@),
        None => None,
    }
}

/// An optional document, its strings as texts.
pub open spec fn opt_document(d: Option<Document<String>>) -> Option<Document<Seq<char>>> {
    match d {
        Some(d) => Some(d@),
        None => None,
    }
}

impl View for Document<String> {
    type V = Document<Seq<char>>;

    open spec fn view(&self) -> Document<Seq<char>> {
        Document { file_id: opt_text(self.file_id), file_size: self.file_size }
    }
}

impl View for Message<String> {
    type V = Message<Seq<char>>;

    open spec fn view(&self) -> Message<Seq<char>> {
        Message {
            from_id: self.from_id,
            chat_id: self.chat_id,
            document: opt_document(self.document),
            caption: opt_text(self.caption),
            text: opt_text(self.text),
            replied_document: opt_document(self.replied_document),
        }
    }
}

impl View for Update<String> {
    type V = Update<Seq<char>>;

    open spec fn view(&self) -> Update<Seq<char>> {
        Update {
            update_id: self.update_id,
            message: match self.message {
                Some(m) => Some(m@),
                None => None,
            },
        }
    }
}

/// The updates that a list holds, their strings as texts.
pub open spec fn update_views(v: Seq<Update<String>>) -> Seq<Update<Seq<char>>> {
    v.map_values(|u: Update<String>| u@)
}

/// The integer in a field of an object.
pub open spec fn int_in(v: JsonView, name: Seq<char>) -> Option<i64> {
    match v.field(name) {
        Some(f) => f.integer(),
        None => None,
    }
}

/// The text in a field of an object.
pub open spec fn text_in(v: JsonView, name: Seq<char>) -> Option<Seq<char>> {
    match v.field(name) {
        Some(f) => f.text(),
        None => None,
    }
}

/// The `id` of the object in a field of an object.
pub open spec fn id_in(v: JsonView, name: Seq<char>) -> Option<i64> {
    match v.field(name) {
        Some(f) => int_in(f, "id"@),
        None => None,
    }
}

/// The file attached to a message.
pub open spec fn document_in(v: JsonView) -> Option<Document<Seq<char>>> {
    match v.field("document"@) {
        Some(d) => Some(
            Document { file_id: text_in(d, "file_id"@), file_size: int_in(d, "file_size"@) },
        ),
        None => None,
    }
}

/// The message that a JSON object describes.
pub open spec fn message_of(v: JsonView) -> Message<Seq<char>> {
    Message {
        from_id: id_in(v, "from"@),
        chat_id: id_in(v, "chat"@),
        document: document_in(v),
        caption: text_in(v, "caption"@),
        text: text_in(v, "text"@),
        replied_document: match v.field("reply_to_message"@) {
            Some(m) => document_in(m),
            None => None,
        },
    }
}

/// The update that a JSON object describes.
pub open spec fn update_of(v: JsonView) -> Update<Seq<char>> {
    Update {
        update_id: int_in(v, "update_id"@),
        message: match v.field("message"@) {
            Some(m) => Some(message_of(m)),
            None => None,
        },
    }
}

/// The updates in an answer to `getUpdates`: one for each item of its `result`. Nothing where the
/// answer has no such list.
pub open spec fn updates_of(v: JsonView) -> Option<Seq<Update<Seq<char>>>> {
    match v.field("result"@) {
        Some(r) => match r.items() {
            Some(items) => Some(items.map_values(|u: JsonView| update_of(u))),
            None => None,
        },
        None => None,
    }
}

fn read_int(v: &Json, name: &str) -> (r: Option<i64>)
    ensures
        r == int_in(v@, name@),
{
    match v.field(name) {
        Some(f) => f.integer(),
        None => None,
    }
}

fn read_text(v: &Json, name: &str) -> (r: Option<String>)
    ensures
        opt_text(r) == text_in(v@, name@),
{
    match v.field(name) {
        Some(f) => f.text(),
        None => None,
    }
}

fn read_id(v: &Json, name: &str) -> (r: Option<i64>)
    ensures
        r == id_in(v@, name@),
{
    match v.field(name) {
        Some(f) => read_int(f, "id"),
        None => None,
    }
}

fn read_document(v: &Json) -> (r: Option<Document<String>>)
    ensures
        opt_document(r) == document_in(v@),
{
    match v.field("document") {
        Some(d) => Some(
            Document { file_id: read_text(d, "file_id"), file_size: read_int(d, "file_size") },
        ),
        None => None,
    }
}

fn read_message(v: &Json) -> (r: Message<String>)
    ensures
        r@ == message_of(v@),
{
    Message {
        from_id: read_id(v, "from"),
        chat_id: read_id(v, "chat"),
        document: read_document(v),
        caption: read_text(v, "caption"),
        text: read_text(v, "text"),
        replied_document: match v.field("reply_to_message") {
            Some(m) => read_document(m),
            None => None,
        },
    }
}

fn read_update(v: &Json) -> (r: Update<String>)
    ensures
        r@ == update_of(v@),
{
    Update {
        update_id: read_int(v, "update_id"),
        message: match v.field("message") {
            Some(m) => Some(read_message(m)),
            None => None,
        },
    }
}

/// The updates that an answer to `getUpdates` holds. Nothing where it has no list of results.
pub fn updates_in(answer: &Json) -> (r: Option<Vec<Update<String>>>)
    ensures
        updates_of(answer@) == (match r {
            Some(v) => Some(update_views(v@)),
            None => None,
        }),
{
    let result: Option<&Json> = answer.field("result");
    match result {
        None => None,
        Some(list) => match list.items() {
            None => None,
            Some(items) => {
                let mut v: Vec<Update<String>> = Vec::new();
                let mut i: usize = 0;
                let ghost all = list@.items()->0;
                while i < items.len()
                    invariant
                        i <= items@.len(),
                        all == items@.map_values(|j: Json| j@),
                        v@.len() == i,
                        forall|k: int| 0 <= k < i ==> (#[trigger] v@[k])@ == update_of(all[k]),
                    decreases items@.len() - i,
                {
                    v.push(read_update(&items[i]));
                    i = i + 1;
                }
                proof {
                    assert(update_views(v@) =~= all.map_values(|u: JsonView| update_of(u)));
                }
                Some(v)
            },
        },
    }
}

/// The updates in the body of an answer to `getUpdates`. Nothing where the body is no JSON
/// document, or one without a list of results.
pub fn read_updates(body: &[u8]) -> (r: Option<Vec<Update<String>>>)
    ensures
        (match parsed(body@) {
            Some(answer) => updates_of(answer),
            None => None,
        }) == (match r {
            Some(v) => Some(update_views(v@)),
            None => None,
        }),
{
    match parse(body) {
        Some(answer) => updates_in(&answer),
        None => None,
    }
}

/// An update is read from its own fields: its number, the sender's and the chat's, the text, the
/// caption and the files, each where the Bot API puts it. What is not there, or is something else,
/// is left out.
pub proof fn updates_are_read_from_their_fields(answer: JsonView, items: Seq<JsonView>, i: int)
    requires
        answer.field("result"@) == Some(JsonView::Array(items)),
        0 <= i < items.len(),
    ensures
        updates_of(answer) is Some,
        updates_of(answer)->0.len() == items.len(),
        ({
            let u = updates_of(answer)->0[i];
            let j = items[i];
            &&& u.update_id == match j.field("update_id"@) {
                Some(JsonView::Number(n)) => n,
                _ => None,
            }
            &&& j.field("message"@) is None <==> u.message is None
            &&& j.field("message"@) matches Some(m) ==> {
                let r = u.message->0;
                &&& r.from_id == match m.field("from"@) {
                    Some(f) => match f.field("id"@) {
                        Some(JsonView::Number(n)) => n,
                        _ => None,
                    },
                    None => None,
                }
                &&& r.chat_id == match m.field("chat"@) {
                    Some(c) => match c.field("id"@) {
                        Some(JsonView::Number(n)) => n,
                        _ => None,
                    },
                    None => None,
                }
                &&& r.text == match m.field("text"@) {
                    Some(JsonView::Text(t)) => Some(t),
                    _ => None,
                }
                &&& r.caption == match m.field("caption"@) {
                    Some(JsonView::Text(t)) => Some(t),
                    _ => None,
                }
                &&& m.field("document"@) is None <==> r.document is None
                &&& m.field("document"@) matches Some(d) ==> {
                    &&& r.document->0.file_id == match d.field("file_id"@) {
                        Some(JsonView::Text(t)) => Some(t),
                        _ => None,
                    }
                    &&& r.document->0.file_size == match d.field("file_size"@) {
                        Some(JsonView::Number(n)) => n,
                        _ => None,
                    }
                }
                &&& m.field("reply_to_message"@) is None ==> r.replied_document is None
                &&& m.field("reply_to_message"@) matches Some(q) ==> {
                    &&& q.field("document"@) is None <==> r.replied_document is None
                    &&& q.field("document"@) matches Some(d) ==> {
                        &&& r.replied_document->0.file_id == match d.field("file_id"@) {
                            Some(JsonView::Text(t)) => Some(t),
                            _ => None,
                        }
                        &&& r.replied_document->0.file_size == match d.field("file_size"@) {
                            Some(JsonView::Number(n)) => n,
                            _ => None,
                        }
                    }
                }
            }
        }),
{
}

/// An answer without a list of results holds no updates.
pub proof fn answers_without_a_list_hold_none(answer: JsonView)
    requires
        !(answer.field("result"@) matches Some(JsonView::Array(_))),
    ensures
        updates_of(answer) is None,
{
}

/// Updates in strings say what updates in texts say, field by field.
pub proof fn updates_are_shown_as_they_are(v: Seq<Update<String>>, i: int)
    requires
        0 <= i < v.len(),
    ensures
        update_views(v).len() == v.len(),
        ({
            let u = v[i];
            let w = update_views(v)[i];
            &&& w == u@
            &&& w.update_id == u.update_id
            &&& w.message is Some <==> u.message is Some
            &&& u.message matches Some(m) ==> {
                let n = w.message->0;
                &&& n.from_id == m.from_id
                &&& n.chat_id == m.chat_id
                &&& n.text is Some <==> m.text is Some
                &&& m.text matches Some(t) ==> n.text == Some(t@)
                &&& n.caption is Some <==> m.caption is Some
                &&& m.caption matches Some(t) ==> n.caption == Some(t@)
                &&& n.document is Some <==> m.document is Some
                &&& m.document matches Some(d) ==> documents_match(d, n.document->0)
                &&& n.replied_document is Some <==> m.replied_document is Some
                &&& m.replied_document matches Some(d) ==> documents_match(
                    d,
                    n.replied_document->0,
                )
            }
        }),
{
}

/// Whether a document in strings and one in texts say the same.
pub open spec fn documents_match(d: Document<String>, e: Document<Seq<char>>) -> bool {
    &&& d.file_size == e.file_size
    &&& d.file_id is Some <==> e.file_id is Some
    &&& d.file_id matches Some(t) ==> e.file_id == Some(t@)
}

}
