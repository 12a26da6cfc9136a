//! Re-chunking an object on demand: its chunks are fetched, split anew into pieces of the usual
//! size, uploaded, and only then put in place of the old ones.

use vstd::prelude::*;

use crate::text::{after_last_slash, dec, i64_text, int_text, last_segment, u64_text};

verus! {

/// The outcome for an object that does not exist.
pub const NOT_FOUND: &'static str = "object not found";

/// The outcome for an object that cannot have fewer chunks.
pub const SINGLE_CHUNK: &'static str = "already a single chunk; nothing to do";

/// The outcome for an object under a key that only the customer has.
pub const CUSTOMER_KEY: &'static str = "cannot auto-consolidate an SSE-C object: the customer key isn't stored server-side, so this can't decrypt it. Download and re-upload manually if you want it consolidated.";

/// The outcome for an encrypted object where there is no key to read it with.
pub const NO_MASTER_KEY: &'static str = "SSE-S3 master key not configured; cannot decrypt this object";

/// The outcome where the new chunks could not be put in place of the old ones.
pub const SWAP_FAILED: &'static str = "database swap failed; new chunks were rolled back and the original object is untouched";

/// Under whose key an object is encrypted.
#[derive(Debug, Clone, Copy, PartialEq, Eq)]
pub enum Protection {
    /// It is not encrypted.
    Plain,
    /// The customer's.
    CustomerKey,
    /// The gateway's.
    MasterKey,
}

/// What the index says of an object.
#[derive(Debug)]
pub struct ObjectInfo {
    pub sse_algorithm: Option<String>,
    pub sse_customer_key_md5: Option<String>,
    pub content_type: String,
}

/// What the index says of one chunk.
#[derive(Debug, PartialEq, Eq)]
pub struct Chunk<T> {
    pub idx: i64,
    pub message_id: i64,
    pub file_id: T,
}

/// What a consolidation is waiting for.
#[derive(Debug, PartialEq, Eq)]
pub enum Phase<T> {
    LoadObject,
    LoadChunks,
    MakeStage,
    Fetch,
    Write,
    /// The staging directory to be removed.
    RemoveStage { outcome: Result<T, T> },
    Upload,
    /// The staged pieces to be removed.
    RemovePieces { reason: T },
    Swap,
    RollBack,
    CheckReference,
    Delete,
    /// Nothing: it is over.
    Done,
}

/// What is to be done next, with texts `T`, bytes `B`, lists of messages `L` and lists of sizes `S`.
#[derive(Debug, PartialEq, Eq)]
pub enum Action<T, B, L, S> {
    /// Nothing.
    Nothing,
    /// Look the object up.
    LoadObject,
    /// Look its chunks up.
    LoadChunks,
    /// Make a staging directory.
    MakeStage,
    /// Download a chunk, and decrypt it where it is sealed.
    Fetch { file_id: T, sealed: bool },
    /// Stage a piece under this name, encrypted where it is to be sealed.
    WritePiece { index: usize, name: T, data: B, sealed: bool },
    /// Remove the staging directory.
    RemoveStage,
    /// Upload the staged pieces, which hold this many plain bytes each, as the chunks from `start` on;
    /// `single` where there is one of them.
    Upload { start: i64, sizes: S, filename: T, content_type: T, single: bool },
    /// Remove the staged pieces.
    RemovePieces,
    /// Put the uploaded chunks in place of the old ones, all at once.
    Swap,
    /// Delete the uploaded chunks again.
    RollBack,
    /// Find out whether another object still refers to a message.
    CheckReference { message_id: i64 },
    /// Delete these messages.
    Delete { message_ids: L },
    /// Report the outcome.
    Finish { outcome: Result<T, T> },
}

/// How an action came out.
#[derive(Debug)]
pub enum Event {
    /// The object, if there is one, or why the index could not be read.
    Object(Result<Option<ObjectInfo>, String>),
    Chunks(Result<Vec<Chunk<String>>, String>),
    StageMade(Result<(), String>),
    Fetched(Fetched),
    Written(Result<(), String>),
    StageRemoved,
    Uploaded(Result<(), String>),
    PiecesRemoved,
    /// Whether the new chunks are in place.
    Swapped(bool),
    RolledBack,
    /// Whether another object refers to the message, unless the index could not be read.
    Referenced(Option<bool>),
    Deleted,
}

/// How a download came out.
#[derive(Debug)]
pub enum Fetched {
    /// The chunk's plain bytes.
    Data(Vec<u8>),
    /// The server answered with this status.
    Refused(String),
    /// There was no answer, or the chunk could not be decrypted.
    Failed(String),
}

/// An action as it is handed out.
pub type NextAction = Action<String, Vec<u8>, Vec<i64>, Vec<usize>>;

/// An action in texts and sequences.
pub type ActionView = Action<Seq<char>, Seq<u8>, Seq<i64>, Seq<usize>>;

/// The state of a consolidation.
#[verifier::ext_equal]
pub struct RunView {
    pub phase: Phase<Seq<char>>,
    pub key: Seq<char>,
    pub chunk_size: nat,
    /// Whether the gateway has a key of its own.
    pub master_key: bool,
    pub protection: Protection,
    pub content_type: Seq<char>,
    /// The chunks that the object has had so far.
    pub chunks: Seq<Chunk<Seq<char>>>,
    /// How many of them have been fetched.
    pub fetched: nat,
    /// The bytes that were fetched and stand in no piece yet.
    pub buf: Seq<u8>,
    /// The sizes of the pieces.
    pub staged: Seq<usize>,
    /// Whether the new chunks are in place.
    pub swapped: bool,
    /// How many of the old chunks have been checked for references.
    pub checked: nat,
    /// The messages that nothing refers to any more.
    pub loose: Seq<i64>,
}

/// A result, its strings as texts.
pub open spec fn result_view(r: Result<String, String>) -> Result<Seq<char>, Seq<char>> {
    match r {
        Ok(s) => Ok(s@),
        Err(s) => Err(s@),
    }
}

impl View for Chunk<String> {
    type V = Chunk<Seq<char>>;

    open spec fn view(&self) -> Chunk<Seq<char>> {
        Chunk { idx: self.idx, message_id: self.message_id, file_id: self.file_id@ }
    }
}

/// The chunks in a list, their strings as texts.
pub open spec fn chunk_views(v: Seq<Chunk<String>>) -> Seq<Chunk<Seq<char>>> {
    v.map_values(|c: Chunk<String>| c@)
}

impl View for Phase<String> {
    type V = Phase<Seq<char>>;

    open spec fn view(&self) -> Phase<Seq<char>> {
        match self {
            Phase::LoadObject => Phase::LoadObject,
            Phase::LoadChunks => Phase::LoadChunks,
            Phase::MakeStage => Phase::MakeStage,
            Phase::Fetch => Phase::Fetch,
            Phase::Write => Phase::Write,
            Phase::RemoveStage { outcome } => Phase::RemoveStage { outcome: result_view(*outcome) },
            Phase::Upload => Phase::Upload,
            Phase::RemovePieces { reason } => Phase::RemovePieces { reason: reason@ },
            Phase::Swap => Phase::Swap,
            Phase::RollBack => Phase::RollBack,
            Phase::CheckReference => Phase::CheckReference,
            Phase::Delete => Phase::Delete,
            Phase::Done => Phase::Done,
        }
    }
}

impl View for NextAction {
    type V = ActionView;

    open spec fn view(&self) -> ActionView {
        match self {
            Action::Nothing => Action::Nothing,
            Action::LoadObject => Action::LoadObject,
            Action::LoadChunks => Action::LoadChunks,
            Action::MakeStage => Action::MakeStage,
            Action::Fetch { file_id, sealed } => Action::Fetch { file_id: file_id@, sealed: *sealed },
            Action::WritePiece { index, name, data, sealed } => Action::WritePiece {
                index: *index,
                name: name@,
                data: data@,
                sealed: *sealed,
            },
            Action::RemoveStage => Action::RemoveStage,
            Action::Upload { start, sizes, filename, content_type, single } => Action::Upload {
                start: *start,
                sizes: sizes@,
                filename: filename@,
                content_type: content_type@,
                single: *single,
            },
            Action::RemovePieces => Action::RemovePieces,
            Action::Swap => Action::Swap,
            Action::RollBack => Action::RollBack,
            Action::CheckReference { message_id } => Action::CheckReference {
                message_id: *message_id,
            },
            Action::Delete { message_ids } => Action::Delete { message_ids: message_ids@ },
            Action::Finish { outcome } => Action::Finish { outcome: result_view(*outcome) },
        }
    }
}

/// A state and what is to be done next.
pub type Move = (RunView, ActionView);

/// Under whose key an object is encrypted.
pub open spec fn protection_of(o: ObjectInfo) -> Protection {
    if o.sse_algorithm is None {
        Protection::Plain
    } else if o.sse_customer_key_md5 is Some {
        Protection::CustomerKey
    } else {
        Protection::MasterKey
    }
}

/// The outcome where new pieces would be no fewer than the chunks.
pub open spec fn no_benefit_text(pieces: nat, chunks: nat) -> Seq<char> {
    "no benefit: re-chunking would still be "@ + dec(pieces)
        + " piece(s), not fewer than the current "@ + dec(chunks)
}

/// The outcome where the server would not hand out a chunk.
pub open spec fn refused_text(idx: i64, status: Seq<char>) -> Seq<char> {
    "download of chunk #"@ + int_text(idx as int) + " failed: HTTP "@ + status
}

/// The outcome where the pieces could not be uploaded.
pub open spec fn upload_failed_text(reason: Seq<char>) -> Seq<char> {
    "Telegram upload failed: "@ + reason
}

/// The outcome of success.
pub open spec fn consolidated_text(chunks: nat, pieces: nat) -> Seq<char> {
    "consolidated "@ + dec(chunks) + " chunk(s) -> "@ + dec(pieces) + " chunk(s)"@
}

/// A consolidation of the object under `key` that has just begun.
pub open spec fn begun(key: Seq<char>, chunk_size: nat, master_key: bool) -> RunView {
    RunView {
        phase: Phase::LoadObject,
        key,
        chunk_size,
        master_key,
        protection: Protection::Plain,
        content_type: seq![],
        chunks: seq![],
        fetched: 0,
        buf: seq![],
        staged: seq![],
        swapped: false,
        checked: 0,
        loose: seq![],
    }
}

/// The consolidation is over.
pub open spec fn finished(r: RunView, outcome: Result<Seq<char>, Seq<char>>) -> Move {
    (RunView { phase: Phase::Done, ..r }, Action::Finish { outcome })
}

/// Whether the object's chunks are encrypted.
pub open spec fn sealed(r: RunView) -> bool {
    r.protection != Protection::Plain
}

/// The next `n` bytes of the buffer become a piece.
pub open spec fn cut(r: RunView, n: nat) -> Move {
    (
        RunView {
            phase: Phase::Write,
            buf: r.buf.skip(n as int),
            staged: r.staged.push(n as usize),
            ..r
        },
        Action::WritePiece {
            index: r.staged.len() as usize,
            name: dec(r.staged.len()),
            data: r.buf.take(n as int),
            sealed: sealed(r),
        },
    )
}

/// What follows once all pieces are staged: fewer pieces than chunks are uploaded, others are
/// given up.
pub open spec fn weigh(r: RunView) -> Move {
    if r.staged.len() >= r.chunks.len() {
        (
            RunView {
                phase: Phase::RemoveStage {
                    outcome: Ok(no_benefit_text(r.staged.len(), r.chunks.len())),
                },
                ..r
            },
            Action::RemoveStage,
        )
    } else {
        (
            RunView { phase: Phase::Upload, ..r },
            Action::Upload {
                start: 0,
                sizes: r.staged,
                filename: after_last_slash(r.key),
                content_type: r.content_type,
                single: r.staged.len() == 1,
            },
        )
    }
}

/// What follows while chunks are being fetched and split: once there is a chunk to split a full
/// piece is staged, else the next chunk is fetched, else what is left over is staged, else the
/// pieces are weighed. Of pieces without a size there is no end.
pub open spec fn proceed(r: RunView) -> Move {
    if r.fetched > 0 && r.buf.len() >= r.chunk_size {
        cut(r, r.chunk_size)
    } else if r.fetched < r.chunks.len() {
        (
            RunView { phase: Phase::Fetch, ..r },
            Action::Fetch { file_id: r.chunks[r.fetched as int].file_id, sealed: sealed(r) },
        )
    } else if r.buf.len() > 0 {
        cut(r, r.buf.len())
    } else {
        weigh(r)
    }
}

/// What follows once the new chunks are in place: each old one is checked for references, and
/// those that have none are deleted.
pub open spec fn clean_up(r: RunView) -> Move {
    if r.checked < r.chunks.len() {
        (
            RunView { phase: Phase::CheckReference, ..r },
            Action::CheckReference { message_id: r.chunks[r.checked as int].message_id },
        )
    } else if r.loose.len() > 0 {
        (RunView { phase: Phase::Delete, ..r }, Action::Delete { message_ids: r.loose })
    } else {
        finished(r, Ok(consolidated_text(r.chunks.len(), r.staged.len())))
    }
}

/// What follows once the chunks are known: whether there is anything to gain, and whether the
/// object can be read.
pub open spec fn assess(r: RunView) -> Move {
    if r.chunks.len() <= 1 {
        finished(r, Ok(SINGLE_CHUNK@))
    } else if r.protection == Protection::CustomerKey {
        finished(r, Err(CUSTOMER_KEY@))
    } else if r.protection == Protection::MasterKey && !r.master_key {
        finished(r, Err(NO_MASTER_KEY@))
    } else {
        (RunView { phase: Phase::MakeStage, ..r }, Action::MakeStage)
    }
}

/// What follows an event. One that the consolidation was not waiting for changes nothing.
pub open spec fn advance(r: RunView, event: Event) -> Move {
    match (r.phase, event) {
        (Phase::LoadObject, Event::Object(Ok(Some(o)))) => (
            RunView {
                phase: Phase::LoadChunks,
                protection: protection_of(o),
                content_type: o.content_type@,
                ..r
            },
            Action::LoadChunks,
        ),
        (Phase::LoadObject, Event::Object(Ok(None))) => finished(r, Err(NOT_FOUND@)),
        (Phase::LoadObject, Event::Object(Err(e))) => finished(r, Err(e@)),
        (Phase::LoadChunks, Event::Chunks(Ok(chunks))) => assess(
            RunView { chunks: chunk_views(chunks@), ..r },
        ),
        (Phase::LoadChunks, Event::Chunks(Err(e))) => finished(r, Err(e@)),
        (Phase::MakeStage, Event::StageMade(Ok(_))) => proceed(r),
        (Phase::MakeStage, Event::StageMade(Err(e))) => finished(r, Err(e@)),
        (Phase::Fetch, Event::Fetched(Fetched::Data(data))) => proceed(
            RunView { buf: r.buf + data@, fetched: r.fetched + 1, ..r },
        ),
        (Phase::Fetch, Event::Fetched(Fetched::Refused(status))) => (
            RunView {
                phase: Phase::RemoveStage {
                    outcome: Err(refused_text(r.chunks[r.fetched as int].idx, status@)),
                },
                ..r
            },
            Action::RemoveStage,
        ),
        (Phase::Fetch, Event::Fetched(Fetched::Failed(e))) => finished(r, Err(e@)),
        (Phase::Write, Event::Written(Ok(_))) => proceed(r),
        (Phase::Write, Event::Written(Err(e))) => finished(r, Err(e@)),
        (Phase::RemoveStage { outcome }, Event::StageRemoved) => finished(r, outcome),
        (Phase::Upload, Event::Uploaded(Ok(_))) => (
            RunView { phase: Phase::Swap, ..r },
            Action::Swap,
        ),
        (Phase::Upload, Event::Uploaded(Err(e))) => (
            RunView { phase: Phase::RemovePieces { reason: e@ }, ..r },
            Action::RemovePieces,
        ),
        (Phase::RemovePieces { reason }, Event::PiecesRemoved) => finished(
            r,
            Err(upload_failed_text(reason)),
        ),
        (Phase::Swap, Event::Swapped(true)) => clean_up(RunView { swapped: true, ..r }),
        (Phase::Swap, Event::Swapped(false)) => (
            RunView { phase: Phase::RollBack, ..r },
            Action::RollBack,
        ),
        (Phase::RollBack, Event::RolledBack) => finished(r, Err(SWAP_FAILED@)),
        (Phase::CheckReference, Event::Referenced(still)) => clean_up(
            RunView {
                checked: r.checked + 1,
                loose: if still == Some(false) {
                    r.loose.push(r.chunks[r.checked as int].message_id)
                } else {
                    r.loose
                },
                ..r
            },
        ),
        (Phase::Delete, Event::Deleted) => finished(
            r,
            Ok(consolidated_text(r.chunks.len(), r.staged.len())),
        ),
        _ => (r, Action::Nothing),
    }
}

/// Whether the pieces are cut as they should be: all of the usual size, but for a smaller last one
/// that holds what was left over.
pub open spec fn evenly_cut(r: RunView) -> bool {
    &&& forall|i: int|
        0 <= i < r.staged.len() ==> (#[trigger] r.staged[i] == r.chunk_size || (i == r.staged.len()
            - 1 && 0 < r.staged[i] < r.chunk_size))
    &&& r.staged.len() > 0 && r.staged.last() < r.chunk_size ==> r.buf.len() == 0 && r.fetched
        == r.chunks.len()
}

/// Whether `loose` are messages of the first `checked` chunks.
pub open spec fn own_messages(
    chunks: Seq<Chunk<Seq<char>>>,
    checked: nat,
    loose: Seq<i64>,
) -> bool {
    forall|i: int|
        0 <= i < loose.len() ==> exists|k: int|
            0 <= k < checked && (#[trigger] chunks[k]).message_id == #[trigger] loose[i]
}

/// Whether the gateway can decrypt the object, where that is needed.
pub open spec fn readable(r: RunView) -> bool {
    r.protection == Protection::Plain || (r.protection == Protection::MasterKey && r.master_key)
}

/// The states that a consolidation can be in.
pub open spec fn valid(r: RunView) -> bool {
    &&& r.chunk_size <= usize::MAX
    &&& r.fetched <= r.chunks.len()
    &&& r.fetched == 0 ==> r.buf.len() == 0 && r.staged.len() == 0
    &&& r.checked <= r.chunks.len()
    &&& evenly_cut(r)
    &&& own_messages(r.chunks, r.checked, r.loose)
    &&& r.phase is LoadObject || r.phase is LoadChunks || r.phase is MakeStage ==> r.fetched == 0
    &&& r.phase is LoadObject || r.phase is LoadChunks || r.phase is Done || (r.chunks.len() > 1
        && readable(r))
    &&& r.phase is Fetch ==> r.fetched < r.chunks.len()
    &&& r.phase matches Phase::RemoveStage { outcome } ==> (outcome matches Ok(text) ==> r.fetched
        == r.chunks.len() && r.buf.len() == 0 && r.staged.len() >= r.chunks.len() && r.chunk_size
        > 0 && text == no_benefit_text(r.staged.len(), r.chunks.len()))
    &&& r.phase is Upload || r.phase is RemovePieces || r.phase is Swap || r.phase is RollBack
        || r.swapped ==> r.fetched == r.chunks.len() && r.buf.len() == 0 && r.staged.len()
        < r.chunks.len() && r.chunk_size > 0
    &&& r.phase is CheckReference ==> r.checked < r.chunks.len()
    &&& r.phase is CheckReference || r.phase is Delete ==> r.swapped
    &&& r.swapped ==> r.phase is CheckReference || r.phase is Delete || r.phase is Done
    &&& !r.swapped ==> r.checked == 0 && r.loose.len() == 0
}

proof fn lemma_proceed_keeps_valid(r: RunView)
    requires
        r.chunk_size <= usize::MAX,
        r.fetched <= r.chunks.len(),
        r.fetched == 0 ==> r.buf.len() == 0 && r.staged.len() == 0,
        r.chunks.len() > 1,
        readable(r),
        evenly_cut(r),
        !r.swapped,
        r.checked == 0,
        r.loose.len() == 0,
    ensures
        valid(proceed(r).0),
        !proceed(r).0.swapped,
{
}

proof fn lemma_clean_up_keeps_valid(r: RunView)
    requires
        valid(RunView { phase: Phase::Done, ..r }),
        r.swapped,
        r.chunks.len() > 1,
        readable(r),
    ensures
        valid(clean_up(r).0),
        clean_up(r).0.swapped,
{
}

/// No event leads out of the states that a consolidation can be in.
pub proof fn advance_keeps_valid(r: RunView, event: Event)
    requires
        valid(r),
    ensures
        valid(advance(r, event).0),
{
    match (r.phase, event) {
        (Phase::MakeStage, Event::StageMade(Ok(_))) => {
            lemma_proceed_keeps_valid(r);
        },
        (Phase::Fetch, Event::Fetched(Fetched::Data(data))) => {
            lemma_proceed_keeps_valid(RunView { buf: r.buf + data@, fetched: r.fetched + 1, ..r });
        },
        (Phase::Write, Event::Written(Ok(_))) => {
            lemma_proceed_keeps_valid(r);
        },
        (Phase::Swap, Event::Swapped(true)) => {
            lemma_clean_up_keeps_valid(RunView { swapped: true, ..r });
        },
        (Phase::CheckReference, Event::Referenced(still)) => {
            let t = RunView {
                checked: r.checked + 1,
                loose: if still == Some(false) {
                    r.loose.push(r.chunks[r.checked as int].message_id)
                } else {
                    r.loose
                },
                ..r
            };
            assert forall|i: int| 0 <= i < t.loose.len() implies exists|k: int|
                0 <= k < t.checked && (#[trigger] t.chunks[k]).message_id == #[trigger] t.loose[i] by {
                if i < r.loose.len() {
                    assert(t.loose[i] == r.loose[i]);
                    let k = choose|k: int|
                        0 <= k < r.checked && (#[trigger] r.chunks[k]).message_id == r.loose[i];
                    assert(t.chunks[k].message_id == t.loose[i]);
                } else {
                    assert(t.chunks[r.checked as int].message_id == t.loose[i]);
                }
            }
            lemma_clean_up_keeps_valid(t);
        },
        _ => {},
    }
}

/// A consolidation under way.
pub struct Consolidation {
    phase: Phase<String>,
    key: String,
    chunk_size: usize,
    master_key: bool,
    protection: Protection,
    content_type: String,
    chunks: Vec<Chunk<String>>,
    fetched: usize,
    buf: Vec<u8>,
    staged: Vec<usize>,
    swapped: bool,
    checked: usize,
    loose: Vec<i64>,
}

impl View for Consolidation {
    type V = RunView;

    closed spec fn view(&self) -> RunView {
        RunView {
            phase: self.phase@,
            key: self.key@,
            chunk_size: self.chunk_size as nat,
            master_key: self.master_key,
            protection: self.protection,
            content_type: self.content_type@,
            chunks: chunk_views(self.chunks@),
            fetched: self.fetched as nat,
            buf: self.buf@,
            staged: self.staged@,
            swapped: self.swapped,
            checked: self.checked as nat,
            loose: self.loose@,
        }
    }
}

impl Consolidation {
    /// Begins to consolidate the object under `key`. First the object is looked up.
    pub fn new(key: String, chunk_size: usize, master_key: bool) -> (r: Consolidation)
        ensures
            r@ == begun(key@, chunk_size as nat, master_key),
            valid(r@),
    {
        let r: Consolidation = Consolidation {
            phase: Phase::LoadObject,
            key,
            chunk_size,
            master_key,
            protection: Protection::Plain,
            content_type: String::new(),
            chunks: Vec::new(),
            fetched: 0,
            buf: Vec::new(),
            staged: Vec::new(),
            swapped: false,
            checked: 0,
            loose: Vec::new(),
        };
        proof {
            assert(r@ =~= begun(key@, chunk_size as nat, master_key));
        }
        r
    }

    fn finish(&mut self, outcome: Result<String, String>) -> (r: NextAction)
        ensures
            (final(self)@, r@) == finished(old(self)@, result_view(outcome)),
    {
        self.phase = Phase::Done;
        Action::Finish { outcome }
    }

    fn is_sealed(&self) -> (r: bool)
        ensures
            r == sealed(self@),
    {
        match self.protection {
            Protection::Plain => false,
            _ => true,
        }
    }

    fn cut_piece(&mut self, n: usize) -> (r: NextAction)
        requires
            n <= old(self)@.buf.len(),
        ensures
            (final(self)@, r@) == cut(old(self)@, n as nat),
    {
        let sealed: bool = self.is_sealed();
        let index: usize = self.staged.len();
        let rest: Vec<u8> = self.buf.split_off(n);
        let mut data: Vec<u8> = rest;
        std::mem::swap(&mut self.buf, &mut data);
        self.staged.push(n);
        self.phase = Phase::Write;
        let name: String = u64_text(index as u64);
        let r: NextAction = Action::WritePiece { index, name, data, sealed };
        proof {
            assert(data@ =~= old(self)@.buf.take(n as int));
            assert(self@.buf =~= old(self)@.buf.skip(n as int));
        }
        r
    }

    fn weigh_pieces(&mut self) -> (r: NextAction)
        ensures
            (final(self)@, r@) == weigh(old(self)@),
    {
        let pieces: usize = self.staged.len();
        let chunks: usize = self.chunks.len();
        if pieces >= chunks {
            let text: String = "no benefit: re-chunking would still be ".to_owned().concat(
                u64_text(pieces as u64).as_str(),
            ).concat(" piece(s), not fewer than the current ").concat(
                u64_text(chunks as u64).as_str(),
            );
            self.phase = Phase::RemoveStage { outcome: Ok(text) };
            Action::RemoveStage
        } else {
            self.phase = Phase::Upload;
            let sizes: Vec<usize> = self.staged.clone();
            proof {
                assert(sizes@ =~= self.staged@);
            }
            Action::Upload {
                start: 0,
                sizes,
                filename: last_segment(self.key.as_str()),
                content_type: self.content_type.clone(),
                single: pieces == 1,
            }
        }
    }

    fn go_on(&mut self) -> (r: NextAction)
        ensures
            (final(self)@, r@) == proceed(old(self)@),
    {
        if self.fetched > 0 && self.buf.len() >= self.chunk_size {
            let n: usize = self.chunk_size;
            self.cut_piece(n)
        } else if self.fetched < self.chunks.len() {
            let sealed: bool = self.is_sealed();
            self.phase = Phase::Fetch;
            let file_id: String = self.chunks[self.fetched].file_id.clone();
            Action::Fetch { file_id, sealed }
        } else if self.buf.len() > 0 {
            let n: usize = self.buf.len();
            self.cut_piece(n)
        } else {
            self.weigh_pieces()
        }
    }

    fn finish_consolidated(&mut self) -> (r: NextAction)
        ensures
            (final(self)@, r@) == finished(
                old(self)@,
                Ok(consolidated_text(old(self)@.chunks.len(), old(self)@.staged.len())),
            ),
    {
        let text: String = "consolidated ".to_owned().concat(
            u64_text(self.chunks.len() as u64).as_str(),
        ).concat(" chunk(s) -> ").concat(u64_text(self.staged.len() as u64).as_str()).concat(
            " chunk(s)",
        );
        self.finish(Ok(text))
    }

    fn tidy(&mut self) -> (r: NextAction)
        ensures
            (final(self)@, r@) == clean_up(old(self)@),
    {
        if self.checked < self.chunks.len() {
            self.phase = Phase::CheckReference;
            Action::CheckReference { message_id: self.chunks[self.checked].message_id }
        } else if self.loose.len() > 0 {
            self.phase = Phase::Delete;
            let message_ids: Vec<i64> = self.loose.clone();
            proof {
                assert(message_ids@ =~= self.loose@);
            }
            Action::Delete { message_ids }
        } else {
            self.finish_consolidated()
        }
    }

    fn judge(&mut self) -> (r: NextAction)
        ensures
            (final(self)@, r@) == assess(old(self)@),
    {
        if self.chunks.len() <= 1 {
            return self.finish(Ok(SINGLE_CHUNK.to_owned()));
        }
        match self.protection {
            Protection::CustomerKey => self.finish(Err(CUSTOMER_KEY.to_owned())),
            Protection::MasterKey => {
                if self.master_key {
                    self.phase = Phase::MakeStage;
                    Action::MakeStage
                } else {
                    self.finish(Err(NO_MASTER_KEY.to_owned()))
                }
            },
            Protection::Plain => {
                self.phase = Phase::MakeStage;
                Action::MakeStage
            },
        }
    }

    /// What follows an event. One that the consolidation was not waiting for changes nothing.
    pub fn step(&mut self, event: Event) -> (r: NextAction)
        requires
            valid(old(self)@),
        ensures
            (final(self)@, r@) == advance(old(self)@, event),
            valid(final(self)@),
    {
        proof {
            advance_keeps_valid(self@, event);
        }
        let total: usize = self.chunks.len();
        let mut phase: Phase<String> = Phase::Done;
        std::mem::swap(&mut self.phase, &mut phase);
        match (phase, event) {
            (Phase::LoadObject, Event::Object(Ok(Some(o)))) => {
                self.protection = match (o.sse_algorithm, o.sse_customer_key_md5) {
                    (None, _) => Protection::Plain,
                    (Some(_), Some(_)) => Protection::CustomerKey,
                    (Some(_), None) => Protection::MasterKey,
                };
                self.content_type = o.content_type;
                self.phase = Phase::LoadChunks;
                Action::LoadChunks
            },
            (Phase::LoadObject, Event::Object(Ok(None))) => self.finish(Err(NOT_FOUND.to_owned())),
            (Phase::LoadObject, Event::Object(Err(e))) => self.finish(Err(e)),
            (Phase::LoadChunks, Event::Chunks(Ok(chunks))) => {
                self.chunks = chunks;
                self.judge()
            },
            (Phase::LoadChunks, Event::Chunks(Err(e))) => self.finish(Err(e)),
            (Phase::MakeStage, Event::StageMade(Ok(_))) => self.go_on(),
            (Phase::MakeStage, Event::StageMade(Err(e))) => self.finish(Err(e)),
            (Phase::Fetch, Event::Fetched(Fetched::Data(data))) => {
                let mut data: Vec<u8> = data;
                self.buf.append(&mut data);
                proof {
                    assert(self.fetched < total);
                }
                self.fetched = self.fetched + 1;
                self.go_on()
            },
            (Phase::Fetch, Event::Fetched(Fetched::Refused(status))) => {
                let text: String = "download of chunk #".to_owned().concat(
                    i64_text(self.chunks[self.fetched].idx).as_str(),
                ).concat(" failed: HTTP ").concat(status.as_str());
                self.phase = Phase::RemoveStage { outcome: Err(text) };
                Action::RemoveStage
            },
            (Phase::Fetch, Event::Fetched(Fetched::Failed(e))) => self.finish(Err(e)),
            (Phase::Write, Event::Written(Ok(_))) => self.go_on(),
            (Phase::Write, Event::Written(Err(e))) => self.finish(Err(e)),
            (Phase::RemoveStage { outcome }, Event::StageRemoved) => self.finish(outcome),
            (Phase::Upload, Event::Uploaded(Ok(_))) => {
                self.phase = Phase::Swap;
                Action::Swap
            },
            (Phase::Upload, Event::Uploaded(Err(e))) => {
                self.phase = Phase::RemovePieces { reason: e };
                Action::RemovePieces
            },
            (Phase::RemovePieces { reason }, Event::PiecesRemoved) => self.finish(
                Err("Telegram upload failed: ".to_owned().concat(reason.as_str())),
            ),
            (Phase::Swap, Event::Swapped(true)) => {
                self.swapped = true;
                self.tidy()
            },
            (Phase::Swap, Event::Swapped(false)) => {
                self.phase = Phase::RollBack;
                Action::RollBack
            },
            (Phase::RollBack, Event::RolledBack) => self.finish(Err(SWAP_FAILED.to_owned())),
            (Phase::CheckReference, Event::Referenced(still)) => {
                match still {
                    Some(false) => {
                        self.loose.push(self.chunks[self.checked].message_id);
                    },
                    _ => {},
                }
                proof {
                    assert(self.checked < total);
                }
                self.checked = self.checked + 1;
                self.tidy()
            },
            (Phase::Delete, Event::Deleted) => self.finish_consolidated(),
            (phase, _) => {
                self.phase = phase;
                Action::Nothing
            },
        }
    }
}

/// The state after these events.
pub open spec fn run(r: RunView, events: Seq<Event>) -> RunView
    decreases events.len(),
{
    if events.len() == 0 {
        r
    } else {
        advance(run(r, events.drop_last()), events.last()).0
    }
}

/// What the last of these events led to.
pub open spec fn last_action(r: RunView, events: Seq<Event>) -> ActionView {
    advance(run(r, events.drop_last()), events.last()).1
}

/// The bytes that an event brings, where they were waited for.
pub open spec fn bytes_in(r: RunView, event: Event) -> Seq<u8> {
    match (r.phase, event) {
        (Phase::Fetch, Event::Fetched(Fetched::Data(data))) => data@,
        _ => seq![],
    }
}

/// The bytes that an action stages.
pub open spec fn bytes_out(action: ActionView) -> Seq<u8> {
    match action {
        Action::WritePiece { data, .. } => data,
        _ => seq![],
    }
}

/// The bytes that have been fetched, in order.
pub open spec fn received(r: RunView, events: Seq<Event>) -> Seq<u8>
    decreases events.len(),
{
    if events.len() == 0 {
        seq![]
    } else {
        received(r, events.drop_last()) + bytes_in(run(r, events.drop_last()), events.last())
    }
}

/// The bytes that have been staged, in order.
pub open spec fn written(r: RunView, events: Seq<Event>) -> Seq<u8>
    decreases events.len(),
{
    if events.len() == 0 {
        seq![]
    } else {
        written(r, events.drop_last()) + bytes_out(last_action(r, events))
    }
}

/// How many bytes evenly cut pieces hold.
pub open spec fn staged_bytes(r: RunView) -> int {
    if r.staged.len() == 0 {
        0
    } else {
        (r.staged.len() - 1) * r.chunk_size + r.staged.last()
    }
}

/// Whatever happens, a consolidation stays in the states that it can be in.
pub proof fn runs_stay_valid(r: RunView, events: Seq<Event>)
    requires
        valid(r),
    ensures
        valid(run(r, events)),
        run(r, events).chunk_size == r.chunk_size,
    decreases events.len(),
{
    if events.len() > 0 {
        runs_stay_valid(r, events.drop_last());
        advance_keeps_valid(run(r, events.drop_last()), events.last());
    }
}

proof fn lemma_step_keeps_bytes(r: RunView, event: Event)
    requires
        valid(r),
    ensures
        bytes_out(advance(r, event).1) + advance(r, event).0.buf == r.buf + bytes_in(r, event),
        staged_bytes(advance(r, event).0) == staged_bytes(r) + bytes_out(advance(r, event).1).len(),
{
    let t = match (r.phase, event) {
        (Phase::Fetch, Event::Fetched(Fetched::Data(data))) => RunView {
            buf: r.buf + data@,
            fetched: r.fetched + 1,
            ..r
        },
        _ => r,
    };
    assert(t.buf =~= r.buf + bytes_in(r, event));
    let (u, a) = advance(r, event);
    if a is WritePiece {
        let n = bytes_out(a).len();
        assert((u, a) == cut(t, n));
        assert(bytes_out(a) + u.buf =~= t.buf);
        if t.staged.len() > 0 {
            assert(t.staged.last() == t.chunk_size);
            assert(staged_bytes(u) == staged_bytes(t) + n) by (nonlinear_arith)
                requires
                    staged_bytes(t) == (t.staged.len() - 1) * t.chunk_size + t.chunk_size,
                    staged_bytes(u) == t.staged.len() * t.chunk_size + n,
            ;
        } else {
            assert(staged_bytes(u) == n) by (nonlinear_arith)
                requires
                    staged_bytes(u) == 0 * t.chunk_size + n,
            ;
        }
    } else {
        assert(bytes_out(a) + u.buf =~= t.buf);
        assert(u.staged == r.staged);
    }
}

/// No byte is lost, added or moved: what has been staged, followed by what waits in the buffer, is
/// what has been fetched.
pub proof fn bytes_are_kept(r: RunView, events: Seq<Event>)
    requires
        valid(r),
    ensures
        written(r, events) + run(r, events).buf == r.buf + received(r, events),
        staged_bytes(run(r, events)) == staged_bytes(r) + written(r, events).len(),
    decreases events.len(),
{
    if events.len() == 0 {
        assert(written(r, events) + r.buf =~= r.buf + received(r, events));
    } else {
        let past = events.drop_last();
        bytes_are_kept(r, past);
        runs_stay_valid(r, past);
        let t = run(r, past);
        lemma_step_keeps_bytes(t, events.last());
        let (u, a) = advance(t, events.last());
        assert(written(r, events) + u.buf =~= written(r, past) + (bytes_out(a) + u.buf));
        assert(written(r, past) + (t.buf + bytes_in(t, events.last())) =~= (written(r, past)
            + t.buf) + bytes_in(t, events.last()));
        assert((r.buf + received(r, past)) + bytes_in(t, events.last()) =~= r.buf + received(
            r,
            events,
        ));
    }
}

/// Whether `m` is the least number of pieces of this size that hold so many bytes.
pub open spec fn is_fewest(m: nat, bytes: nat, size: nat) -> bool {
    &&& bytes <= m * size
    &&& m > 0 ==> (m - 1) * size < bytes
}

/// Where all bytes stand in pieces, there are as few of them as can be.
proof fn lemma_pieces_are_fewest(
    key: Seq<char>,
    chunk_size: nat,
    master_key: bool,
    events: Seq<Event>,
)
    requires
        chunk_size <= usize::MAX,
        run(begun(key, chunk_size, master_key), events).buf.len() == 0,
        chunk_size > 0,
    ensures
        is_fewest(
            run(begun(key, chunk_size, master_key), events).staged.len(),
            received(begun(key, chunk_size, master_key), events).len(),
            chunk_size,
        ),
{
    let r = begun(key, chunk_size, master_key);
    let u = run(r, events);
    runs_stay_valid(r, events);
    bytes_are_kept(r, events);
    assert(written(r, events) + u.buf =~= written(r, events));
    assert(r.buf + received(r, events) =~= received(r, events));
    let n = u.staged.len() as int;
    if n > 0 {
        assert(0 < u.staged[n - 1] <= chunk_size);
        assert(n * chunk_size == (n - 1) * chunk_size + chunk_size) by (nonlinear_arith);
    }
}

/// Whether all pieces have been staged, and found to be fewer than the chunks.
spec fn past_staging(r: RunView) -> bool {
    r.phase is Upload || r.phase is RemovePieces || r.phase is Swap || r.phase is RollBack
        || r.swapped
}

proof fn lemma_pieces_hold_the_bytes(
    key: Seq<char>,
    chunk_size: nat,
    master_key: bool,
    events: Seq<Event>,
)
    requires
        chunk_size <= usize::MAX,
    ensures
        ({
            let r = begun(key, chunk_size, master_key);
            let u = run(r, events);
            past_staging(u) ==> {
                &&& chunk_size > 0
                &&& u.fetched == u.chunks.len()
                &&& written(r, events) == received(r, events)
                &&& u.staged.len() < u.chunks.len()
                &&& is_fewest(u.staged.len(), received(r, events).len(), chunk_size)
            }
        }),
{
    let r = begun(key, chunk_size, master_key);
    let u = run(r, events);
    runs_stay_valid(r, events);
    bytes_are_kept(r, events);
    if past_staging(u) {
        assert(written(r, events) + u.buf =~= written(r, events));
        assert(r.buf + received(r, events) =~= received(r, events));
        lemma_pieces_are_fewest(key, chunk_size, master_key, events);
    }
}

proof fn lemma_actions_past_staging(r: RunView, event: Event)
    requires
        valid(r),
    ensures
        ({
            let (u, action) = advance(r, event);
            action is Upload || action is Swap || action is RollBack || action is CheckReference
                || action is Delete ==> past_staging(u)
        }),
{
    advance_keeps_valid(r, event);
}

/// When the pieces are uploaded, every chunk has been fetched and the pieces hold just its bytes, in
/// the least number of pieces that can hold them, and that is fewer than there were chunks.
pub proof fn upload_holds_the_whole_object(
    key: Seq<char>,
    chunk_size: nat,
    master_key: bool,
    events: Seq<Event>,
)
    requires
        chunk_size <= usize::MAX,
    ensures
        ({
            let r = begun(key, chunk_size, master_key);
            let u = run(r, events);
            u.phase is Upload ==> {
                &&& u.fetched == u.chunks.len()
                &&& written(r, events) == received(r, events)
                &&& u.staged.len() < u.chunks.len()
                &&& is_fewest(u.staged.len(), received(r, events).len(), chunk_size)
            }
        }),
{
    lemma_pieces_hold_the_bytes(key, chunk_size, master_key, events);
}

/// The pieces that have been staged, in order.
pub open spec fn pieces(r: RunView, events: Seq<Event>) -> Seq<Seq<u8>>
    decreases events.len(),
{
    if events.len() == 0 {
        seq![]
    } else {
        let past = pieces(r, events.drop_last());
        match last_action(r, events) {
            Action::WritePiece { data, .. } => past.push(data),
            _ => past,
        }
    }
}

/// How many times the pieces have been uploaded.
pub open spec fn uploads(r: RunView, events: Seq<Event>) -> nat
    decreases events.len(),
{
    if events.len() == 0 {
        0
    } else {
        uploads(r, events.drop_last()) + (if last_action(r, events) is Upload {
            1nat
        } else {
            0nat
        })
    }
}

/// Whether the pieces have these sizes.
spec fn sizes_match(sizes: Seq<usize>, pieces: Seq<Seq<u8>>) -> bool {
    &&& sizes.len() == pieces.len()
    &&& forall|i: int| 0 <= i < sizes.len() ==> (#[trigger] sizes[i]) == pieces[i].len()
}

proof fn lemma_staged_are_the_pieces(r: RunView, events: Seq<Event>)
    requires
        valid(r),
        r.staged.len() == 0,
    ensures
        sizes_match(run(r, events).staged, pieces(r, events)),
    decreases events.len(),
{
    if events.len() > 0 {
        let past = events.drop_last();
        lemma_staged_are_the_pieces(r, past);
        runs_stay_valid(r, past);
        let t = run(r, past);
        advance_keeps_valid(t, events.last());
        let (u, a) = advance(t, events.last());
        if a is WritePiece {
            assert(u.staged.drop_last() =~= t.staged);
            assert(u.staged =~= t.staged.push(u.staged.last()));
            assert(bytes_out(a).len() == u.staged.last());
        } else {
            assert(u.staged == t.staged);
        }
    }
}

proof fn lemma_uploads(r: RunView, events: Seq<Event>)
    requires
        valid(r),
        r.phase is LoadObject,
    ensures
        uploads(r, events) <= 1,
        ({
            let u = run(r, events);
            u.phase is LoadObject || u.phase is LoadChunks || u.phase is MakeStage || u.phase is Fetch
                || u.phase is Write || u.phase is RemoveStage ==> uploads(r, events) == 0
        }),
        past_staging(run(r, events)) ==> uploads(r, events) == 1,
    decreases events.len(),
{
    if events.len() > 0 {
        let past = events.drop_last();
        lemma_uploads(r, past);
        runs_stay_valid(r, past);
        let t = run(r, past);
        advance_keeps_valid(t, events.last());
    }
}

/// The pieces are uploaded once at most, and then all of them in their order, from the first chunk
/// on, under the last segment of the object's key and with the object's own content type. New
/// chunks are put in place only after that.
pub proof fn upload_is_of_all_pieces(
    key: Seq<char>,
    chunk_size: nat,
    master_key: bool,
    events: Seq<Event>,
)
    requires
        chunk_size <= usize::MAX,
        events.len() > 0,
    ensures
        ({
            let r = begun(key, chunk_size, master_key);
            let u = run(r, events);
            let all = pieces(r, events);
            &&& uploads(r, events) <= 1
            &&& last_action(r, events) is Swap ==> uploads(r, events) == 1
            &&& last_action(r, events) matches Action::Upload {
                start,
                sizes,
                filename,
                content_type,
                single,
            } ==> {
                &&& start == 0
                &&& sizes.len() == all.len()
                &&& forall|i: int| 0 <= i < sizes.len() ==> (#[trigger] sizes[i]) == all[i].len()
                &&& filename == after_last_slash(key)
                &&& content_type == u.content_type
                &&& single == (all.len() == 1)
            }
        }),
{
    let r = begun(key, chunk_size, master_key);
    let t = run(r, events.drop_last());
    lemma_uploads(r, events);
    lemma_staged_are_the_pieces(r, events);
    lemma_key_is_kept(r, events);
    runs_stay_valid(r, events.drop_last());
    lemma_actions_past_staging(t, events.last());
}

proof fn lemma_key_is_kept(r: RunView, events: Seq<Event>)
    ensures
        run(r, events).key == r.key,
    decreases events.len(),
{
    if events.len() > 0 {
        lemma_key_is_kept(r, events.drop_last());
    }
}

/// Chunks are fetched in their order and pieces are numbered in theirs, and pieces are sealed just
/// where the chunks are.
pub proof fn work_is_done_in_order(r: RunView, event: Event)
    requires
        valid(r),
        r.staged.len() < usize::MAX,
    ensures
        ({
            let (u, action) = advance(r, event);
            &&& action matches Action::Fetch { file_id, sealed: s } ==> u.fetched < u.chunks.len()
                && file_id == u.chunks[u.fetched as int].file_id && s == sealed(u)
            &&& action matches Action::WritePiece { index, name, data, sealed: s } ==> index + 1
                == u.staged.len() && name == dec(index as nat) && data.len() == u.staged.last() && s == sealed(u)
            &&& u.fetched != r.fetched ==> u.fetched == r.fetched + 1 && r.phase is Fetch
            &&& u.chunks != r.chunks ==> r.phase is LoadChunks
        }),
{
    advance_keeps_valid(r, event);
}

/// The old chunks are given up only once the new ones are in place, and a consolidation that fails
/// has not touched them: whatever happened on the way, the object is as it was.
pub proof fn failure_leaves_the_object_untouched(
    key: Seq<char>,
    chunk_size: nat,
    master_key: bool,
    events: Seq<Event>,
)
    requires
        chunk_size <= usize::MAX,
        events.len() > 0,
    ensures
        ({
            let r = begun(key, chunk_size, master_key);
            let before = run(r, events.drop_last());
            let after = run(r, events);
            let action = last_action(r, events);
            // New chunks come into place in one way only.
            &&& after.swapped ==> before.swapped || (before.phase is Swap && events.last()
                == Event::Swapped(true))
            // Old chunks are looked at and deleted only after that.
            &&& action is CheckReference || action is Delete ==> after.swapped
            // Whoever is told of a failure is told so of an object that has its old chunks.
            &&& action matches Action::Finish { outcome } ==> (outcome is Err ==> !after.swapped)
            // Nothing more happens after the end.
            &&& before.phase is Done ==> after == before && action == ActionView::Nothing
        }),
{
    let r = begun(key, chunk_size, master_key);
    runs_stay_valid(r, events.drop_last());
    let before = run(r, events.drop_last());
    advance_keeps_valid(before, events.last());
    match (before.phase, events.last()) {
        (Phase::MakeStage, Event::StageMade(Ok(_))) => {
            lemma_proceed_keeps_valid(before);
        },
        (Phase::Fetch, Event::Fetched(Fetched::Data(data))) => {
            lemma_proceed_keeps_valid(
                RunView { buf: before.buf + data@, fetched: before.fetched + 1, ..before },
            );
        },
        (Phase::Write, Event::Written(Ok(_))) => {
            lemma_proceed_keeps_valid(before);
        },
        _ => {},
    }
}

/// The messages that are deleted are the object's own old ones, and only those that nothing else was
/// found to refer to: one that is still in use, or of which that is not known, is kept.
pub proof fn only_unreferenced_messages_are_deleted(r: RunView, event: Event)
    requires
        valid(r),
    ensures
        advance(r, event).1 matches Action::Delete { message_ids } ==> {
            let u = advance(r, event).0;
            &&& message_ids == u.loose
            &&& own_messages(u.chunks, u.checked, message_ids)
        },
        advance(r, event).0.loose != r.loose ==> r.phase is CheckReference && event
            == Event::Referenced(Some(false)) && advance(r, event).0.loose == r.loose.push(
            r.chunks[r.checked as int].message_id,
        ),
{
    advance_keeps_valid(r, event);
}

/// The answers to the questions for references so far, in order.
pub open spec fn answers(r: RunView, events: Seq<Event>) -> Seq<Option<bool>>
    decreases events.len(),
{
    if events.len() == 0 {
        seq![]
    } else {
        let past = answers(r, events.drop_last());
        match (run(r, events.drop_last()).phase, events.last()) {
            (Phase::CheckReference, Event::Referenced(still)) => past.push(still),
            _ => past,
        }
    }
}

/// The messages of the chunks that were answered not to be referred to, in order: the first answer
/// is on the first chunk, and so on.
pub open spec fn unreferenced(chunks: Seq<Chunk<Seq<char>>>, answers: Seq<Option<bool>>) -> Seq<i64>
    decreases answers.len(),
{
    if answers.len() == 0 {
        seq![]
    } else {
        let past = unreferenced(chunks, answers.drop_last());
        if answers.last() == Some(false) {
            past.push(chunks[answers.len() - 1].message_id)
        } else {
            past
        }
    }
}

proof fn lemma_loose_is_unreferenced(r: RunView, events: Seq<Event>)
    requires
        valid(r),
        r.checked == 0,
        r.loose.len() == 0,
    ensures
        run(r, events).checked == answers(r, events).len(),
        run(r, events).loose == unreferenced(run(r, events).chunks, answers(r, events)),
    decreases events.len(),
{
    if events.len() > 0 {
        let past = events.drop_last();
        lemma_loose_is_unreferenced(r, past);
        runs_stay_valid(r, past);
        let t = run(r, past);
        let u = run(r, events);
        match (t.phase, events.last()) {
            (Phase::CheckReference, Event::Referenced(still)) => {
                assert(answers(r, events).drop_last() =~= answers(r, past));
                assert(u.chunks == t.chunks);
            },
            (Phase::LoadChunks, Event::Chunks(Ok(_))) => {
                assert(answers(r, events) =~= seq![]);
                assert(u.loose =~= t.loose);
            },
            _ => {
                assert(u.chunks == t.chunks);
                only_unreferenced_messages_are_deleted(t, events.last());
            },
        }
    }
}

/// Over a whole run, each old chunk's message is asked about in turn, and what is deleted is just the
/// messages that were answered not to be referred to, in order, once all have been asked about.
/// Where there are any they are deleted before success is reported.
pub proof fn deleted_messages_are_the_unreferenced_ones(
    key: Seq<char>,
    chunk_size: nat,
    master_key: bool,
    events: Seq<Event>,
)
    requires
        chunk_size <= usize::MAX,
        events.len() > 0,
    ensures
        ({
            let r = begun(key, chunk_size, master_key);
            let before = run(r, events.drop_last());
            let after = run(r, events);
            let given = answers(r, events);
            let action = last_action(r, events);
            &&& action matches Action::CheckReference { message_id } ==> given.len()
                < after.chunks.len() && message_id == after.chunks[given.len() as int].message_id
            &&& action matches Action::Delete { message_ids } ==> given.len() == after.chunks.len()
                && message_ids.len() > 0 && message_ids == unreferenced(after.chunks, given)
            &&& action is Finish && after.swapped && !(before.phase is Delete) ==> given.len()
                == after.chunks.len() && unreferenced(after.chunks, given).len() == 0
        }),
{
    let r = begun(key, chunk_size, master_key);
    runs_stay_valid(r, events.drop_last());
    advance_keeps_valid(run(r, events.drop_last()), events.last());
    lemma_loose_is_unreferenced(r, events);
}

/// Whether an event tells of a failure.
pub open spec fn fails(event: Event) -> bool {
    match event {
        Event::Object(found) => !(found matches Ok(Some(_))),
        Event::Chunks(found) => found is Err,
        Event::StageMade(made) => made is Err,
        Event::Fetched(fetched) => !(fetched is Data),
        Event::Written(written) => written is Err,
        Event::Uploaded(uploaded) => uploaded is Err,
        Event::Swapped(swapped) => !swapped,
        _ => false,
    }
}

/// Whether nothing failed.
pub open spec fn all_went_well(events: Seq<Event>) -> bool {
    forall|i: int| 0 <= i < events.len() ==> !fails(#[trigger] events[i])
}

/// What is reported of an object with `n` chunks whose bytes take `m` pieces at least.
pub open spec fn report(n: nat, m: nat) -> Seq<char> {
    if n <= 1 {
        SINGLE_CHUNK@
    } else if m >= n {
        no_benefit_text(m, n)
    } else {
        consolidated_text(n, m)
    }
}

proof fn lemma_fewest_is_unique(m: nat, k: nat, bytes: nat, size: nat)
    requires
        is_fewest(m, bytes, size),
        is_fewest(k, bytes, size),
    ensures
        m == k,
{
    if m < k {
        assert(m * size <= (k - 1) * size) by (nonlinear_arith)
            requires
                m <= k - 1,
        ;
    }
    if k < m {
        assert(k * size <= (m - 1) * size) by (nonlinear_arith)
            requires
                k <= m - 1,
        ;
    }
}

proof fn lemma_success(r: RunView, event: Event)
    requires
        valid(r),
    ensures
        ({
            let (u, action) = advance(r, event);
            action matches Action::Finish { outcome } ==> (outcome matches Ok(text) ==> {
                ||| u.chunks.len() <= 1 && text == SINGLE_CHUNK@
                ||| u.chunks.len() > 1 && u.chunk_size > 0 && u.fetched == u.chunks.len()
                    && u.buf.len() == 0 && text == report(u.chunks.len(), u.staged.len())
            })
        }),
{
    advance_keeps_valid(r, event);
}

proof fn lemma_phases_without_failure(r: RunView, events: Seq<Event>)
    requires
        valid(r),
        r.phase is LoadObject,
        all_went_well(events),
    ensures
        ({
            let u = run(r, events);
            &&& !(u.phase is RemovePieces)
            &&& !(u.phase is RollBack)
            &&& u.phase matches Phase::RemoveStage { outcome } ==> outcome is Ok
        }),
    decreases events.len(),
{
    if events.len() > 0 {
        let past = events.drop_last();
        assert forall|i: int| 0 <= i < past.len() implies !fails(#[trigger] past[i]) by {
            assert(past[i] == events[i]);
        }
        assert(!fails(events[events.len() - 1]));
        lemma_phases_without_failure(r, past);
    }
}

/// What a whole run reports. A run in which nothing fails, on an object that can be read, ends in
/// success; and with the least number of pieces that hold the object's bytes, success is reported
/// as the end of it where those are fewer than the chunks, and else as no benefit. Of an object
/// without several chunks it is reported that there is nothing to do.
pub proof fn reports_tell_what_was_done(
    key: Seq<char>,
    chunk_size: nat,
    master_key: bool,
    events: Seq<Event>,
    m: nat,
)
    requires
        chunk_size <= usize::MAX,
        events.len() > 0,
        last_action(begun(key, chunk_size, master_key), events) is Finish,
        is_fewest(m, received(begun(key, chunk_size, master_key), events).len(), chunk_size),
    ensures
        ({
            let r = begun(key, chunk_size, master_key);
            let u = run(r, events);
            let outcome = last_action(r, events)->outcome;
            &&& outcome matches Ok(text) ==> text == report(u.chunks.len(), m)
            &&& all_went_well(events) && (readable(u) || u.chunks.len() <= 1) ==> outcome is Ok
        }),
{
    let r = begun(key, chunk_size, master_key);
    let past = events.drop_last();
    let t = run(r, past);
    let u = run(r, events);
    runs_stay_valid(r, past);
    lemma_success(t, events.last());
    let outcome = last_action(r, events)->outcome;
    if outcome is Ok && u.chunks.len() > 1 {
        runs_stay_valid(r, events);
        lemma_pieces_are_fewest(key, chunk_size, master_key, events);
        lemma_fewest_is_unique(m, u.staged.len(), received(r, events).len(), chunk_size);
    }
    if all_went_well(events) {
        assert forall|i: int| 0 <= i < past.len() implies !fails(#[trigger] past[i]) by {
            assert(past[i] == events[i]);
        }
        assert(!fails(events[events.len() - 1]));
        lemma_phases_without_failure(r, past);
    }
}

/// A second consolidation of an object that is unchanged does nothing to it: it has the chunks that
/// the first one made of its bytes, those cannot be fewer, and so nothing is uploaded, put in place,
/// asked about or deleted. What it reports is that there is nothing to do, or no benefit.
pub proof fn second_consolidation_changes_nothing(
    key: Seq<char>,
    chunk_size: nat,
    first_master_key: bool,
    second_master_key: bool,
    first: Seq<Event>,
    second: Seq<Event>,
)
    requires
        chunk_size <= usize::MAX,
        second.len() > 0,
        // The first one has put its pieces in place.
        run(begun(key, chunk_size, first_master_key), first).swapped,
        // The second one finds those pieces, and in them the bytes that went into them.
        ({
            let r1 = begun(key, chunk_size, first_master_key);
            let r2 = begun(key, chunk_size, second_master_key);
            let u = run(r2, second);
            u.chunks.len() > 0 ==> {
                &&& u.chunks.len() == run(r1, first).staged.len()
                &&& u.fetched == u.chunks.len() ==> received(r2, second) == received(r1, first)
            }
        }),
    ensures
        ({
            let r2 = begun(key, chunk_size, second_master_key);
            let action = last_action(r2, second);
            &&& !run(r2, second).swapped
            &&& !(action is Upload)
            &&& !(action is Swap)
            &&& !(action is RollBack)
            &&& !(action is CheckReference)
            &&& !(action is Delete)
            &&& action matches Action::Finish { outcome } ==> (outcome matches Ok(text) ==> {
                let m = run(begun(key, chunk_size, first_master_key), first).staged.len();
                run(r2, second).chunks.len() == m ==> text == (if m <= 1 {
                    SINGLE_CHUNK@
                } else {
                    no_benefit_text(m, m)
                })
            })
        }),
{
    let r1 = begun(key, chunk_size, first_master_key);
    let r2 = begun(key, chunk_size, second_master_key);
    let n = run(r1, first).staged.len() as int;
    let m = run(r2, second).staged.len() as int;
    lemma_pieces_hold_the_bytes(key, chunk_size, first_master_key, first);
    lemma_pieces_hold_the_bytes(key, chunk_size, second_master_key, second);
    if past_staging(run(r2, second)) {
        assert(m * chunk_size <= (n - 1) * chunk_size) by (nonlinear_arith)
            requires
                m <= n - 1,
                chunk_size > 0,
        ;
    }
    runs_stay_valid(r2, second.drop_last());
    lemma_actions_past_staging(run(r2, second.drop_last()), second.last());
    let action = last_action(r2, second);
    if action is Finish && action->outcome is Ok && run(r2, second).chunks.len() == n {
        lemma_success(run(r2, second.drop_last()), second.last());
        runs_stay_valid(r1, first);
        runs_stay_valid(r2, second);
        if n > 1 {
            lemma_pieces_are_fewest(key, chunk_size, first_master_key, first);
            lemma_pieces_are_fewest(key, chunk_size, second_master_key, second);
            lemma_fewest_is_unique(n as nat, m as nat, received(r1, first).len(), chunk_size);
        }
    }
}

/// Whether `event` says how the action came out that the consolidation waits for.
pub open spec fn expects(r: RunView, event: Event) -> bool {
    match r.phase {
        Phase::LoadObject => event is Object,
        Phase::LoadChunks => event is Chunks,
        Phase::MakeStage => event is StageMade,
        Phase::Fetch => event is Fetched,
        Phase::Write => event is Written,
        Phase::RemoveStage { .. } => event is StageRemoved,
        Phase::Upload => event is Uploaded,
        Phase::RemovePieces { .. } => event is PiecesRemoved,
        Phase::Swap => event is Swapped,
        Phase::RollBack => event is RolledBack,
        Phase::CheckReference => event is Referenced,
        Phase::Delete => event is Deleted,
        Phase::Done => false,
    }
}

/// How far a consolidation is from its end, phase by phase.
pub open spec fn phases_left(r: RunView) -> nat {
    match r.phase {
        Phase::LoadObject => 9,
        Phase::LoadChunks => 8,
        Phase::MakeStage => 7,
        Phase::Fetch | Phase::Write => 6,
        Phase::Upload => 5,
        Phase::Swap => 4,
        Phase::CheckReference => 3,
        Phase::Delete => 2,
        Phase::RemoveStage { .. } | Phase::RemovePieces { .. } | Phase::RollBack => 1,
        Phase::Done => 0,
    }
}

/// How many chunks are still to be fetched or checked in this phase.
pub open spec fn chunks_left(r: RunView) -> int {
    if r.phase is CheckReference {
        r.chunks.len() - r.checked
    } else {
        r.chunks.len() - r.fetched
    }
}

/// How much is still to be staged before the next chunk is fetched.
pub open spec fn bytes_left(r: RunView) -> nat {
    if r.phase is Write {
        1 + r.buf.len()
    } else {
        0
    }
}

/// Every consolidation into pieces that have a size comes to an end: each event that it waits for brings the end nearer, and it
/// reports its outcome when it gets there and not before.
pub proof fn consolidations_end(r: RunView, event: Event)
    requires
        valid(r),
        r.chunk_size > 0,
        expects(r, event),
    ensures
        decreases_to!(phases_left(r), chunks_left(r), bytes_left(r) => phases_left(
            advance(r, event).0,
        ), chunks_left(advance(r, event).0), bytes_left(advance(r, event).0)),
        advance(r, event).0.phase is Done <==> advance(r, event).1 is Finish,
{
    advance_keeps_valid(r, event);
}

}
