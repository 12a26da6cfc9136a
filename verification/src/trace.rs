//! What a whole consolidation does, told by its events alone: which action follows what has been
//! heard so far.

use vstd::prelude::*;

use crate::consolidate::{
    advance, advance_keeps_valid, all_went_well, begun, chunk_views, fails, last_action, run,
    runs_stay_valid, valid, Action, ActionView, Chunk, Event, Fetched, NextAction, ObjectInfo,
    Phase, Protection, RunView,
};
use crate::text::{after_last_slash, dec, int_text};

verus! {

/// Whether an event says how an action came out.
pub open spec fn replies(action: ActionView, event: Event) -> bool {
    match action {
        Action::Nothing => false,
        Action::LoadObject => event is Object,
        Action::LoadChunks => event is Chunks,
        Action::MakeStage => event is StageMade,
        Action::Fetch { .. } => event is Fetched,
        Action::WritePiece { .. } => event is Written,
        Action::RemoveStage => event is StageRemoved,
        Action::Upload { .. } => event is Uploaded,
        Action::RemovePieces => event is PiecesRemoved,
        Action::Swap => event is Swapped,
        Action::RollBack => event is RolledBack,
        Action::CheckReference { .. } => event is Referenced,
        Action::Delete { .. } => event is Deleted,
        Action::Finish { .. } => false,
    }
}

/// The action that these events have led to. Before any of them the object is looked up.
pub open spec fn action_after(r: RunView, events: Seq<Event>) -> ActionView {
    if events.len() == 0 {
        Action::LoadObject
    } else {
        last_action(r, events)
    }
}

/// Whether each of these events replies to the action before it.
pub open spec fn orderly(r: RunView, events: Seq<Event>) -> bool
    decreases events.len(),
{
    events.len() == 0 || (orderly(r, events.drop_last()) && replies(
        action_after(r, events.drop_last()),
        events.last(),
    ))
}

/// The bytes that these events bring.
pub open spec fn data_in(events: Seq<Event>) -> Seq<u8>
    decreases events.len(),
{
    if events.len() == 0 {
        seq![]
    } else {
        match events.last() {
            Event::Fetched(Fetched::Data(data)) => data_in(events.drop_last()) + data@,
            _ => data_in(events.drop_last()),
        }
    }
}

/// How many of these events tell of a download.
pub open spec fn downloads(events: Seq<Event>) -> nat
    decreases events.len(),
{
    if events.len() == 0 {
        0
    } else {
        downloads(events.drop_last()) + (if events.last() is Fetched {
            1nat
        } else {
            0nat
        })
    }
}

/// How many of these events tell of a piece that was staged.
pub open spec fn stagings(events: Seq<Event>) -> nat
    decreases events.len(),
{
    if events.len() == 0 {
        0
    } else {
        stagings(events.drop_last()) + (if events.last() is Written {
            1nat
        } else {
            0nat
        })
    }
}

/// What these events say of references, in order.
pub open spec fn verdicts(events: Seq<Event>) -> Seq<Option<bool>>
    decreases events.len(),
{
    if events.len() == 0 {
        seq![]
    } else {
        match events.last() {
            Event::Referenced(still) => verdicts(events.drop_last()).push(still),
            _ => verdicts(events.drop_last()),
        }
    }
}

/// The messages of those chunks of which it was said that nothing refers to them.
pub open spec fn free_messages(chunks: Seq<Chunk<String>>, verdicts: Seq<Option<bool>>) -> Seq<i64>
    decreases verdicts.len(),
{
    if verdicts.len() == 0 {
        seq![]
    } else if verdicts.last() == Some(false) {
        free_messages(chunks, verdicts.drop_last()).push(chunks[verdicts.len() - 1].message_id)
    } else {
        free_messages(chunks, verdicts.drop_last())
    }
}

/// Whether there are several chunks and a key to read them with, where one is needed.
pub open spec fn can_be_split(o: ObjectInfo, chunks: Seq<Chunk<String>>, master_key: bool) -> bool {
    chunks.len() >= 2 && (o.sse_algorithm is Some ==> o.sse_customer_key_md5 is None && master_key)
}

/// Whether these are the events of a consolidation in which the object and its chunks were found and
/// can be split, every event replies to the action before it, and nothing has failed so far.
pub open spec fn under_way(
    key: Seq<char>,
    size: nat,
    master_key: bool,
    o: ObjectInfo,
    chunks: Vec<Chunk<String>>,
    events: Seq<Event>,
) -> bool {
    &&& size <= usize::MAX
    &&& events.len() >= 2
    &&& events[0] == Event::Object(Ok(Some(o)))
    &&& events[1] == Event::Chunks(Ok(chunks))
    &&& can_be_split(o, chunks@, master_key)
    &&& orderly(begun(key, size, master_key), events)
    &&& all_went_well(events)
}

/// Whether `action` is the one that a consolidation in this phase waits for.
spec fn goes_with(phase: Phase<Seq<char>>, action: ActionView) -> bool {
    match phase {
        Phase::LoadObject => action is LoadObject,
        Phase::LoadChunks => action is LoadChunks,
        Phase::MakeStage => action is MakeStage,
        Phase::Fetch => action is Fetch,
        Phase::Write => action is WritePiece,
        Phase::RemoveStage { .. } => action is RemoveStage,
        Phase::Upload => action is Upload,
        Phase::RemovePieces { .. } => action is RemovePieces,
        Phase::Swap => action is Swap,
        Phase::RollBack => action is RollBack,
        Phase::CheckReference => action is CheckReference,
        Phase::Delete => action is Delete,
        Phase::Done => action is Finish,
    }
}

/// Where the bytes begin that stand in none of `n` pieces.
spec fn cut_point(n: nat, size: nat, bytes: nat) -> nat {
    if n * size <= bytes {
        n * size
    } else {
        bytes
    }
}

/// What the state is made of, given the events.
spec fn told(
    key: Seq<char>,
    size: nat,
    master_key: bool,
    o: ObjectInfo,
    chunks: Vec<Chunk<String>>,
    events: Seq<Event>,
) -> bool {
    let r = begun(key, size, master_key);
    let u = run(r, events);
    let d = data_in(events);
    &&& valid(u)
    &&& u.key == key
    &&& u.chunk_size == size
    &&& u.protection == Protection::Plain <==> o.sse_algorithm is None
    &&& u.content_type == o.content_type@
    &&& u.chunks == chunk_views(chunks@)
    &&& !(u.phase is LoadObject) && !(u.phase is LoadChunks)
    &&& goes_with(u.phase, action_after(r, events))
    &&& u.fetched == downloads(events)
    &&& u.staged.len() == stagings(events) + (if u.phase is Write {
        1nat
    } else {
        0nat
    })
    &&& u.buf == d.skip(cut_point(u.staged.len(), size, d.len()) as int)
    &&& u.staged.len() * size <= d.len() || u.fetched == u.chunks.len()
    &&& forall|i: int|
        0 <= i < u.staged.len() ==> #[trigger] u.staged[i] == cut_point((i + 1) as nat, size, d.len())
            - cut_point(i as nat, size, d.len())
    &&& u.checked == verdicts(events).len()
    &&& u.loose == free_messages(chunks@, verdicts(events))
}

proof fn lemma_prefix_under_way(
    key: Seq<char>,
    size: nat,
    master_key: bool,
    o: ObjectInfo,
    chunks: Vec<Chunk<String>>,
    events: Seq<Event>,
)
    requires
        under_way(key, size, master_key, o, chunks, events),
        events.len() > 2,
    ensures
        under_way(key, size, master_key, o, chunks, events.drop_last()),
        !fails(events.last()),
{
    let past = events.drop_last();
    assert(past[0] == events[0]);
    assert(past[1] == events[1]);
    assert forall|i: int| 0 <= i < past.len() implies !fails(#[trigger] past[i]) by {
        assert(past[i] == events[i]);
    }
    assert(!fails(events[events.len() - 1]));
}

proof fn lemma_begun(
    key: Seq<char>,
    size: nat,
    master_key: bool,
    o: ObjectInfo,
    chunks: Vec<Chunk<String>>,
    events: Seq<Event>,
)
    requires
        under_way(key, size, master_key, o, chunks, events),
        events.len() == 2,
    ensures
        told(key, size, master_key, o, chunks, events),
        action_after(begun(key, size, master_key), events) is MakeStage,
{
    let r = begun(key, size, master_key);
    let one = events.drop_last();
    let none = one.drop_last();
    assert(one.last() == events[0]);
    assert(events.last() == events[1]);
    assert(none =~= seq![]);
    assert(run(r, none) == r);
    assert(run(r, one) == advance(r, events[0]).0);
    assert(run(r, events) == advance(run(r, one), events[1]).0);
    runs_stay_valid(r, events);
    assert(data_in(none) =~= seq![]);
    assert(data_in(one) =~= seq![]);
    assert(data_in(events) =~= seq![]);
    assert(downloads(none) == 0);
    assert(downloads(one) == downloads(none));
    assert(downloads(events) == downloads(one));
    assert(stagings(none) == 0);
    assert(stagings(one) == stagings(none));
    assert(stagings(events) == stagings(one));
    assert(verdicts(none) =~= seq![]);
    assert(verdicts(one) =~= seq![]);
    assert(verdicts(events) =~= seq![]);
    assert(0 * size == 0) by (nonlinear_arith);
    let u = run(r, events);
    assert(chunk_views(chunks@).len() == chunks@.len());
    assert(u.buf =~= data_in(events).skip(0));
    assert(u.loose =~= seq![]);
}

proof fn lemma_cut(d: Seq<u8>, n: nat, size: nat, took: nat)
    requires
        n * size <= d.len(),
        took <= d.len() - n * size,
        took == size || (took < size && took == d.len() - n * size),
    ensures
        d.skip((n * size) as int).skip(took as int) == d.skip(
            cut_point(n + 1, size, d.len()) as int,
        ),
        cut_point(n, size, d.len()) == n * size,
{
    assert((n + 1) * size == n * size + size) by (nonlinear_arith);
    assert(d.skip((n * size) as int).skip(took as int) =~= d.skip((n * size + took) as int));
}

proof fn lemma_told(
    key: Seq<char>,
    size: nat,
    master_key: bool,
    o: ObjectInfo,
    chunks: Vec<Chunk<String>>,
    events: Seq<Event>,
)
    requires
        under_way(key, size, master_key, o, chunks, events),
    ensures
        told(key, size, master_key, o, chunks, events),
    decreases events.len(),
{
    if events.len() == 2 {
        lemma_begun(key, size, master_key, o, chunks, events);
    } else {
        lemma_prefix_under_way(key, size, master_key, o, chunks, events);
        lemma_told(key, size, master_key, o, chunks, events.drop_last());
        lemma_told_step(key, size, master_key, o, chunks, events);
    }
}

proof fn lemma_told_step(
    key: Seq<char>,
    size: nat,
    master_key: bool,
    o: ObjectInfo,
    chunks: Vec<Chunk<String>>,
    events: Seq<Event>,
)
    requires
        under_way(key, size, master_key, o, chunks, events),
        events.len() > 2,
        told(key, size, master_key, o, chunks, events.drop_last()),
        !fails(events.last()),
    ensures
        told(key, size, master_key, o, chunks, events),
{
    let t = run(begun(key, size, master_key), events.drop_last());
    if t.phase is MakeStage || t.phase is Fetch || t.phase is Write {
        lemma_told_splitting(key, size, master_key, o, chunks, events);
    } else {
        lemma_told_later(key, size, master_key, o, chunks, events);
    }
}

/// Pieces that stand in full keep their sizes as more bytes come in.
proof fn lemma_full_pieces(n: nat, size: nat, bytes: nat, more: nat)
    requires
        n * size <= bytes <= more,
    ensures
        forall|i: int|
            0 <= i <= n ==> #[trigger] cut_point(i as nat, size, bytes) == cut_point(
                i as nat,
                size,
                more,
            ),
{
    assert forall|i: int| 0 <= i <= n implies #[trigger] cut_point(i as nat, size, bytes)
        == cut_point(i as nat, size, more) by {
        assert(i * size <= n * size) by (nonlinear_arith)
            requires
                0 <= i <= n,
        ;
    }
}

#[verifier::rlimit(30)]
#[verifier::spinoff_prover]
proof fn lemma_told_splitting(
    key: Seq<char>,
    size: nat,
    master_key: bool,
    o: ObjectInfo,
    chunks: Vec<Chunk<String>>,
    events: Seq<Event>,
)
    requires
        under_way(key, size, master_key, o, chunks, events),
        events.len() > 2,
        told(key, size, master_key, o, chunks, events.drop_last()),
        !fails(events.last()),
        ({
            let t = run(begun(key, size, master_key), events.drop_last());
            t.phase is MakeStage || t.phase is Fetch || t.phase is Write
        }),
    ensures
        told(key, size, master_key, o, chunks, events),
{
    let r = begun(key, size, master_key);
    let past = events.drop_last();
    let t = run(r, past);
    let e = events.last();
    let (u, a) = advance(t, e);
    let d = data_in(past);
    let b = data_in(events);
    let n = t.staged.len();
    advance_keeps_valid(t, e);
    assert(run(r, events) == u);
    assert(action_after(r, events) == a);
    assert(replies(action_after(r, past), e));
    lemma_waiting_bytes(key, size, master_key, o, chunks, events);
    if t.phase is Fetch {
        assert(b == d + e->Fetched_0->Data_0@);
        assert(n * size <= d.len());
        lemma_full_pieces(n, size, d.len(), b.len());
    }
    let buf = if t.phase is Fetch {
        t.buf + e->Fetched_0->Data_0@
    } else {
        t.buf
    };
    assert(buf == b.skip(cut_point(n, size, b.len()) as int));
    assert forall|i: int| 0 <= i < n implies #[trigger] t.staged[i] == cut_point(
        (i + 1) as nat,
        size,
        b.len(),
    ) - cut_point(i as nat, size, b.len()) by {
        if t.phase is Fetch {
            assert(cut_point(i as nat, size, d.len()) == cut_point(i as nat, size, b.len()));
            assert(cut_point((i + 1) as nat, size, d.len()) == cut_point(
                (i + 1) as nat,
                size,
                b.len(),
            ));
        }
    }
    if a is WritePiece {
        let took = a->data.len();
        if size == 0 {
            assert(n * size == 0) by (nonlinear_arith)
                requires
                    size == 0,
            ;
        }
        assert(n * size <= b.len());
        assert(u.staged == t.staged.push(took as usize));
        lemma_cut(b, n, size, took);
        assert((n + 1) * size == n * size + size) by (nonlinear_arith);
    } else {
        assert(u.staged == t.staged);
    }
}

#[verifier::rlimit(30)]
#[verifier::spinoff_prover]
proof fn lemma_told_later(
    key: Seq<char>,
    size: nat,
    master_key: bool,
    o: ObjectInfo,
    chunks: Vec<Chunk<String>>,
    events: Seq<Event>,
)
    requires
        under_way(key, size, master_key, o, chunks, events),
        events.len() > 2,
        told(key, size, master_key, o, chunks, events.drop_last()),
        !fails(events.last()),
        ({
            let t = run(begun(key, size, master_key), events.drop_last());
            !(t.phase is MakeStage || t.phase is Fetch || t.phase is Write)
        }),
    ensures
        told(key, size, master_key, o, chunks, events),
{
    let r = begun(key, size, master_key);
    let past = events.drop_last();
    let t = run(r, past);
    let e = events.last();
    let (u, a) = advance(t, e);
    advance_keeps_valid(t, e);
    assert(run(r, events) == u);
    assert(action_after(r, events) == a);
    assert(replies(action_after(r, past), e));
    assert(u.buf == t.buf && u.staged == t.staged && u.fetched == t.fetched);
    if t.phase is CheckReference {
        assert(verdicts(events).drop_last() =~= verdicts(past));
        assert(t.chunks[t.checked as int].message_id == chunks@[t.checked as int].message_id);
    }
}

/// The bytes that wait when a piece may be cut are those after the pieces that have been staged.
#[verifier::rlimit(30)]
#[verifier::spinoff_prover]
proof fn lemma_waiting_bytes(
    key: Seq<char>,
    size: nat,
    master_key: bool,
    o: ObjectInfo,
    chunks: Vec<Chunk<String>>,
    events: Seq<Event>,
)
    requires
        under_way(key, size, master_key, o, chunks, events),
        events.len() > 2,
        told(key, size, master_key, o, chunks, events.drop_last()),
        !fails(events.last()),
        ({
            let t = run(begun(key, size, master_key), events.drop_last());
            t.phase is MakeStage || t.phase is Fetch || t.phase is Write
        }),
    ensures
        ({
            let t = run(begun(key, size, master_key), events.drop_last());
            let d = data_in(events);
            let buf = if t.phase is Fetch {
                t.buf + events.last()->Fetched_0->Data_0@
            } else {
                t.buf
            };
            &&& buf == d.skip(cut_point(t.staged.len(), size, d.len()) as int)
            &&& t.staged.len() * size <= d.len() || t.fetched == t.chunks.len()
        }),
{
    let r = begun(key, size, master_key);
    let past = events.drop_last();
    let t = run(r, past);
    let e = events.last();
    let d = data_in(past);
    let b = data_in(events);
    let n = t.staged.len();
    assert(replies(action_after(r, past), e));
    if t.phase is Fetch {
        assert(b == d + e->Fetched_0->Data_0@);
        assert(n * size <= d.len());
        assert(b.skip((n * size) as int) =~= d.skip((n * size) as int) + e->Fetched_0->Data_0@);
    }
}

/// The look-up of the object decides whether its chunks are looked up.
pub proof fn object_comes_first(
    key: Seq<char>,
    size: nat,
    master_key: bool,
    found: Result<Option<ObjectInfo>, String>,
)
    ensures
        ({
            let r = begun(key, size, master_key);
            let a = action_after(r, seq![Event::Object(found)]);
            &&& found matches Ok(Some(_)) ==> a == ActionView::LoadChunks
            &&& found matches Ok(None) ==> a == (ActionView::Finish {
                outcome: Err("object not found"@),
            })
            &&& found matches Err(e) ==> a == (ActionView::Finish { outcome: Err(e@) })
        }),
{
    let r = begun(key, size, master_key);
    let events = seq![Event::Object(found)];
    assert(events.drop_last() =~= seq![]);
    assert(run(r, events.drop_last()) == r);
}

/// The object and its chunks decide whether there is anything to split, and whether it can be read.
pub proof fn chunks_decide_what_is_split(
    key: Seq<char>,
    size: nat,
    master_key: bool,
    o: ObjectInfo,
    found: Result<Vec<Chunk<String>>, String>,
)
    ensures
        ({
            let r = begun(key, size, master_key);
            let a = action_after(r, seq![Event::Object(Ok(Some(o))), Event::Chunks(found)]);
            &&& found matches Err(e) ==> a == (ActionView::Finish { outcome: Err(e@) })
            &&& found matches Ok(chunks) ==> if chunks@.len() <= 1 {
                a == (ActionView::Finish { outcome: Ok("already a single chunk; nothing to do"@) })
            } else if o.sse_algorithm is Some && o.sse_customer_key_md5 is Some {
                a == (ActionView::Finish {
                    outcome: Err(
                        "cannot auto-consolidate an SSE-C object: the customer key isn't stored server-side, so this can't decrypt it. Download and re-upload manually if you want it consolidated."@,
                    ),
                })
            } else if o.sse_algorithm is Some && !master_key {
                a == (ActionView::Finish {
                    outcome: Err("SSE-S3 master key not configured; cannot decrypt this object"@),
                })
            } else {
                a == ActionView::MakeStage
            }
        }),
{
    let r = begun(key, size, master_key);
    let events = seq![Event::Object(Ok(Some(o))), Event::Chunks(found)];
    let one = events.drop_last();
    assert(one.last() == events[0]);
    assert(one.drop_last() =~= seq![]);
    assert(run(r, one.drop_last()) == r);
    assert(run(r, one) == advance(r, events[0]).0);
    if let Ok(chunks) = found {
        assert(chunk_views(chunks@).len() == chunks@.len());
    }
}

/// How the bytes of the object become pieces. While there is enough for a piece of the usual size
/// one is staged, with just the bytes that follow those of the pieces before it; else the next chunk
/// is fetched; once all are there, what is left over becomes the last piece. Every chunk is
/// decrypted and every piece encrypted where the object has an encryption algorithm, and none where
/// it has not. Pieces that are fewer than the chunks are uploaded: all of them, with their sizes,
/// under the last segment of the key and with the object's content type. Others are thrown away.
#[verifier::rlimit(60)]
#[verifier::spinoff_prover]
pub proof fn pieces_follow_the_bytes(
    key: Seq<char>,
    size: nat,
    master_key: bool,
    o: ObjectInfo,
    chunks: Vec<Chunk<String>>,
    events: Seq<Event>,
)
    requires
        under_way(key, size, master_key, o, chunks, events),
        events.last() is StageMade || events.last() is Fetched || events.last() is Written,
    ensures
        ({
            let a = action_after(begun(key, size, master_key), events);
            let d = data_in(events);
            let k = downloads(events);
            let w = stagings(events);
            let encrypted = o.sse_algorithm is Some;
            if k > 0 && d.len() >= w * size + size {
                a == (ActionView::WritePiece {
                    index: w as usize,
                    name: dec(w),
                    data: d.subrange((w * size) as int, (w * size + size) as int),
                    sealed: encrypted,
                })
            } else if k < chunks@.len() {
                a == (ActionView::Fetch { file_id: chunks@[k as int].file_id@, sealed: encrypted })
            } else if d.len() > w * size {
                a == (ActionView::WritePiece {
                    index: w as usize,
                    name: dec(w),
                    data: d.skip((w * size) as int),
                    sealed: encrypted,
                })
            } else if w >= chunks@.len() {
                a == ActionView::RemoveStage
            } else {
                &&& a is Upload
                &&& a->start == 0
                &&& a->sizes.len() == w
                &&& forall|i: int|
                    0 <= i < w - 1 ==> #[trigger] a->sizes[i] == size
                &&& w > 0 ==> a->sizes[w - 1] == d.len() - (w - 1) * size
                &&& a->filename == after_last_slash(key)
                &&& a->content_type == o.content_type@
                &&& a->single == (w == 1)
            }
        }),
{
    lemma_told(key, size, master_key, o, chunks, events);
    if events.len() == 2 {
        assert(events.last() == events[1]);
    }
    lemma_prefix_under_way(key, size, master_key, o, chunks, events);
    lemma_told(key, size, master_key, o, chunks, events.drop_last());
    let r = begun(key, size, master_key);
    let t = run(r, events.drop_last());
    let e = events.last();
    let (u, a) = advance(t, e);
    let d = data_in(events);
    let w = stagings(events);
    let n = chunks@.len();
    assert(replies(action_after(r, events.drop_last()), e));
    assert(t.phase is MakeStage || t.phase is Fetch || t.phase is Write);
    assert(w == t.staged.len());
    assert(chunk_views(chunks@).len() == n);
    let buf = if t.phase is Fetch {
        t.buf + e->Fetched_0->Data_0@
    } else {
        t.buf
    };
    lemma_waiting_bytes(key, size, master_key, o, chunks, events);
    assert(buf == d.skip(cut_point(w, size, d.len()) as int));
    let k = downloads(events);
    assert(u.fetched == k);
    if size == 0 {
        assert(w * size == 0) by (nonlinear_arith)
            requires
                size == 0,
        ;
    }
    if k > 0 && d.len() >= w * size + size {
        assert(buf.take(size as int) =~= d.subrange((w * size) as int, (w * size + size) as int));
    } else if k < n {
        assert(buf.len() < size || k == 0);
    } else if d.len() > w * size {
        assert(buf.take(buf.len() as int) =~= d.skip((w * size) as int));
    } else {
        assert(buf.len() == 0);
        if w > 0 && w < n {
            assert(w * size == (w - 1) * size + size) by (nonlinear_arith);
            assert(u.staged[w - 1] > 0);
        }
    }
}

/// What is reported where `m` pieces would not be fewer than `n` chunks.
spec fn no_gain(m: nat, n: nat) -> Seq<char> {
    "no benefit: re-chunking would still be "@ + dec(m) + " piece(s), not fewer than the current "@
        + dec(n)
}

/// What follows once the pieces are staged, while nothing fails. An upload is followed by the swap,
/// and that by a question for each old chunk in turn. Then the messages that nothing refers to are
/// deleted, where there are any, and the numbers of old and new chunks are reported. Where the pieces
/// were thrown away their number is reported.
#[verifier::rlimit(60)]
#[verifier::spinoff_prover]
pub proof fn swap_follows_the_upload(
    key: Seq<char>,
    size: nat,
    master_key: bool,
    o: ObjectInfo,
    chunks: Vec<Chunk<String>>,
    events: Seq<Event>,
)
    requires
        under_way(key, size, master_key, o, chunks, events),
        events.len() > 2,
    ensures
        ({
            let a = action_after(begun(key, size, master_key), events);
            let n = chunks@.len();
            let m = stagings(events);
            let j = verdicts(events).len();
            let free = free_messages(chunks@, verdicts(events));
            let success = ActionView::Finish {
                outcome: Ok("consolidated "@ + dec(n) + " chunk(s) -> "@ + dec(m) + " chunk(s)"@),
            };
            &&& events.last() is Uploaded ==> a == ActionView::Swap
            &&& events.last() is Swapped ==> a == (ActionView::CheckReference {
                message_id: chunks@[0].message_id,
            })
            &&& events.last() is Referenced ==> if j < n {
                a == (ActionView::CheckReference { message_id: chunks@[j as int].message_id })
            } else if free.len() > 0 {
                a == (ActionView::Delete { message_ids: free })
            } else {
                a == success
            }
            &&& events.last() is Deleted ==> a == success
            &&& events.last() is StageRemoved ==> a == (ActionView::Finish {
                outcome: Ok(
                    "no benefit: re-chunking would still be "@ + dec(m)
                        + " piece(s), not fewer than the current "@ + dec(n),
                ),
            })
        }),
{
    let r = begun(key, size, master_key);
    let past = events.drop_last();
    lemma_told(key, size, master_key, o, chunks, events);
    lemma_prefix_under_way(key, size, master_key, o, chunks, events);
    lemma_told(key, size, master_key, o, chunks, past);
    lemma_no_gain(key, size, master_key, o, chunks, past);
    let t = run(r, past);
    let e = events.last();
    assert(replies(action_after(r, past), e));
    assert(chunk_views(chunks@).len() == chunks@.len());
    assert(verdicts(past).len() == 0 ==> t.checked == 0);
    if e is Swapped {
        assert(t.chunks[0].message_id == chunks@[0].message_id);
    }
    if e is Referenced {
        let j = verdicts(events).len() as int;
        if j < chunks@.len() {
            assert(run(r, events).chunks[j].message_id == chunks@[j].message_id);
        }
    }
}

/// A stage that is removed while nothing fails is removed for want of gain.
#[verifier::rlimit(30)]
#[verifier::spinoff_prover]
proof fn lemma_no_gain(
    key: Seq<char>,
    size: nat,
    master_key: bool,
    o: ObjectInfo,
    chunks: Vec<Chunk<String>>,
    events: Seq<Event>,
)
    requires
        under_way(key, size, master_key, o, chunks, events),
    ensures
        run(begun(key, size, master_key), events).phase matches Phase::RemoveStage { outcome }
            ==> outcome == Ok::<Seq<char>, Seq<char>>(no_gain(stagings(events), chunks@.len())),
    decreases events.len(),
{
    lemma_told(key, size, master_key, o, chunks, events);
    assert(chunk_views(chunks@).len() == chunks@.len());
    if events.len() > 2 {
        let past = events.drop_last();
        let t = run(begun(key, size, master_key), past);
        lemma_prefix_under_way(key, size, master_key, o, chunks, events);
        lemma_told(key, size, master_key, o, chunks, past);
        assert(replies(action_after(begun(key, size, master_key), past), events.last()));
        assert(!fails(events.last()));
    }
}

/// What follows a failure while an object is being consolidated. Where the work cannot go on its
/// reason is the outcome. Where the server refuses a chunk the staging directory is removed first,
/// where the upload fails the pieces, and where the swap fails the uploaded chunks; then that is
/// reported.
#[verifier::rlimit(60)]
#[verifier::spinoff_prover]
pub proof fn failures_are_reported(
    key: Seq<char>,
    size: nat,
    master_key: bool,
    o: ObjectInfo,
    chunks: Vec<Chunk<String>>,
    events: Seq<Event>,
    failure: Event,
    done: Event,
)
    requires
        under_way(key, size, master_key, o, chunks, events),
        replies(action_after(begun(key, size, master_key), events), failure),
        fails(failure),
    ensures
        ({
            let r = begun(key, size, master_key);
            let a = action_after(r, events.push(failure));
            let b = action_after(r, events.push(failure).push(done));
            match failure {
                Event::StageMade(Err(e)) => a == (ActionView::Finish { outcome: Err(e@) }),
                Event::Fetched(Fetched::Failed(e)) => a == (ActionView::Finish {
                    outcome: Err(e@),
                }),
                Event::Written(Err(e)) => a == (ActionView::Finish { outcome: Err(e@) }),
                Event::Fetched(Fetched::Refused(status)) => {
                    let idx = chunks@[downloads(events) as int].idx;
                    &&& a == ActionView::RemoveStage
                    &&& done is StageRemoved ==> b == (ActionView::Finish {
                        outcome: Err(
                            "download of chunk #"@ + int_text(idx as int) + " failed: HTTP "@
                                + status@,
                        ),
                    })
                },
                Event::Uploaded(Err(e)) => {
                    &&& a == ActionView::RemovePieces
                    &&& done is PiecesRemoved ==> b == (ActionView::Finish {
                        outcome: Err("Telegram upload failed: "@ + e@),
                    })
                },
                Event::Swapped(_) => {
                    &&& a == ActionView::RollBack
                    &&& done is RolledBack ==> b == (ActionView::Finish {
                        outcome: Err(
                            "database swap failed; new chunks were rolled back and the original object is untouched"@,
                        ),
                    })
                },
                _ => false,
            }
        }),
{
    let r = begun(key, size, master_key);
    lemma_told(key, size, master_key, o, chunks, events);
    let t = run(r, events);
    let one = events.push(failure);
    let two = one.push(done);
    assert(one.drop_last() =~= events);
    assert(two.drop_last() =~= one);
    assert(run(r, one) == advance(t, failure).0);
    assert(chunk_views(chunks@).len() == chunks@.len());
    if failure is Fetched {
        let k = downloads(events) as int;
        assert(t.chunks[k] == chunks@[k]@);
    }
}

proof fn lemma_step_waits(t: RunView, before: ActionView, e: Event)
    requires
        goes_with(t.phase, before),
    ensures
        replies(before, e) ==> goes_with(advance(t, e).0.phase, advance(t, e).1),
        !replies(before, e) ==> advance(t, e) == (t, ActionView::Nothing),
{
}

proof fn lemma_phase_waits_for_the_action(r: RunView, events: Seq<Event>)
    requires
        r.phase is LoadObject,
        orderly(r, events),
    ensures
        goes_with(run(r, events).phase, action_after(r, events)),
    decreases events.len(),
{
    if events.len() > 0 {
        let past = events.drop_last();
        lemma_phase_waits_for_the_action(r, past);
        lemma_step_waits(run(r, past), action_after(r, past), events.last());
    }
}

/// An event that is no reply to the action before it leads to nothing and leaves no trace.
pub proof fn strays_leave_no_trace(
    key: Seq<char>,
    size: nat,
    master_key: bool,
    events: Seq<Event>,
    stray: Event,
)
    requires
        orderly(begun(key, size, master_key), events),
        !replies(action_after(begun(key, size, master_key), events), stray),
    ensures
        ({
            let r = begun(key, size, master_key);
            &&& action_after(r, events.push(stray)) == ActionView::Nothing
            &&& run(r, events.push(stray)) == run(r, events)
        }),
{
    let r = begun(key, size, master_key);
    lemma_phase_waits_for_the_action(r, events);
    lemma_step_waits(run(r, events), action_after(r, events), stray);
    assert(events.push(stray).drop_last() =~= events);
    assert(events.push(stray).last() == stray);
}

/// The actions that are handed out say what the actions in texts and sequences say.
pub proof fn actions_are_handed_out_as_they_are(a: NextAction)
    ensures
        a is Nothing <==> a@ is Nothing,
        a is LoadObject <==> a@ is LoadObject,
        a is LoadChunks <==> a@ is LoadChunks,
        a is MakeStage <==> a@ is MakeStage,
        a is RemoveStage <==> a@ is RemoveStage,
        a is RemovePieces <==> a@ is RemovePieces,
        a is Swap <==> a@ is Swap,
        a is RollBack <==> a@ is RollBack,
        a matches Action::Fetch { file_id, sealed } ==> a@ == (ActionView::Fetch {
            file_id: file_id@,
            sealed,
        }),
        a matches Action::WritePiece { index, name, data, sealed } ==> a@ == (
        ActionView::WritePiece { index, name: name@, data: data@, sealed }),
        a matches Action::Upload { start, sizes, filename, content_type, single } ==> a@ == (
        ActionView::Upload {
            start,
            sizes: sizes@,
            filename: filename@,
            content_type: content_type@,
            single,
        }),
        a matches Action::CheckReference { message_id } ==> a@ == (ActionView::CheckReference {
            message_id,
        }),
        a matches Action::Delete { message_ids } ==> a@ == (ActionView::Delete {
            message_ids: message_ids@,
        }),
        a matches Action::Finish { outcome } ==> a@ == (ActionView::Finish {
            outcome: match outcome {
                Ok(text) => Ok(text@),
                Err(text) => Err(text@),
            },
        }),
{
}

}
