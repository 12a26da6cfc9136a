use tg_s3_bot::consolidate::{
    Action, Chunk, Consolidation, Event, Fetched, NextAction, ObjectInfo, CUSTOMER_KEY, NOT_FOUND,
    NO_MASTER_KEY, SINGLE_CHUNK, SWAP_FAILED,
};

fn s(text: &str) -> String {
    text.to_string()
}

fn object(sse: bool, customer: bool) -> Event {
    Event::Object(Ok(Some(ObjectInfo {
        sse_algorithm: if sse { Some(s("AES256")) } else { None },
        sse_customer_key_md5: if customer { Some(s("md5")) } else { None },
        content_type: s("text/plain"),
    })))
}

fn chunks(n: i64) -> Event {
    Event::Chunks(Ok((0..n)
        .map(|i| Chunk { idx: i, message_id: 100 + i, file_id: format!("f{}", i) })
        .collect()))
}

fn done(outcome: Result<&str, &str>) -> NextAction {
    Action::Finish { outcome: outcome.map(s).map_err(s) }
}

/// Fetches and stages until something else is to be done. Gives the pieces, and what that is.
fn work(c: &mut Consolidation, parts: &[&[u8]]) -> (Vec<Vec<u8>>, NextAction) {
    let mut pieces: Vec<Vec<u8>> = Vec::new();
    let mut fetched = 0;
    let mut action = c.step(Event::StageMade(Ok(())));
    loop {
        let event = match action {
            Action::Fetch { file_id, sealed } => {
                assert_eq!(file_id, format!("f{}", fetched));
                assert!(!sealed);
                fetched += 1;
                Event::Fetched(Fetched::Data(parts[fetched - 1].to_vec()))
            }
            Action::WritePiece { index, name, data, sealed } => {
                assert_eq!(index, pieces.len());
                assert_eq!(name, index.to_string());
                assert!(!sealed);
                pieces.push(data);
                Event::Written(Ok(()))
            }
            other => {
                assert_eq!(fetched, parts.len());
                return (pieces, other);
            }
        };
        action = c.step(event);
    }
}

fn staged(size: usize, parts: &[&[u8]]) -> (Consolidation, Vec<Vec<u8>>, NextAction) {
    let mut c = Consolidation::new(s("dir/file.bin"), size, false);
    assert_eq!(c.step(object(false, false)), Action::LoadChunks);
    assert_eq!(c.step(chunks(parts.len() as i64)), Action::MakeStage);
    let (pieces, action) = work(&mut c, parts);
    (c, pieces, action)
}

fn upload(sizes: &[usize]) -> NextAction {
    Action::Upload {
        start: 0,
        sizes: sizes.to_vec(),
        filename: s("file.bin"),
        content_type: s("text/plain"),
        single: sizes.len() == 1,
    }
}

#[test]
fn objects_that_cannot_be_consolidated() {
    let new = |key: bool| Consolidation::new(s("k"), 4, key);
    let mut c = new(false);
    assert_eq!(c.step(Event::Object(Ok(None))), done(Err(NOT_FOUND)));
    let mut c = new(false);
    assert_eq!(c.step(Event::Object(Err(s("locked")))), done(Err("locked")));
    let mut c = new(false);
    c.step(object(true, true));
    assert_eq!(c.step(chunks(1)), done(Ok(SINGLE_CHUNK)));
    let mut c = new(true);
    c.step(object(true, true));
    assert_eq!(c.step(chunks(2)), done(Err(CUSTOMER_KEY)));
    let mut c = new(false);
    c.step(object(true, false));
    assert_eq!(c.step(chunks(2)), done(Err(NO_MASTER_KEY)));
    let mut c = new(false);
    c.step(object(false, true));
    assert_eq!(c.step(chunks(2)), Action::MakeStage);
    let mut c = new(false);
    c.step(object(false, false));
    assert_eq!(c.step(Event::Chunks(Err(s("gone")))), done(Err("gone")));
}

#[test]
fn sealed_objects_stay_sealed() {
    let mut c = Consolidation::new(s("k"), 2, true);
    c.step(object(true, false));
    assert_eq!(c.step(chunks(2)), Action::MakeStage);
    assert_eq!(
        c.step(Event::StageMade(Ok(()))),
        Action::Fetch { file_id: s("f0"), sealed: true }
    );
    assert_eq!(
        c.step(Event::Fetched(Fetched::Data(vec![1, 2, 3]))),
        Action::WritePiece { index: 0, name: s("0"), data: vec![1, 2], sealed: true }
    );
}

#[test]
fn pieces_hold_the_bytes_in_order() {
    let parts: [&[u8]; 5] = [b"abc", b"", b"defgh", b"i", b"j"];
    let (_, pieces, action) = staged(4, &parts);
    assert_eq!(pieces, vec![b"abcd".to_vec(), b"efgh".to_vec(), b"ij".to_vec()]);
    assert_eq!(action, upload(&[4, 4, 2]));
    let (_, pieces, action) = staged(100, &parts);
    assert_eq!(pieces, vec![b"abcdefghij".to_vec()]);
    assert_eq!(action, upload(&[10]));
    let (_, pieces, action) = staged(5, &parts);
    assert_eq!(pieces, vec![b"abcde".to_vec(), b"fghij".to_vec()]);
    assert_eq!(action, upload(&[5, 5]));
    let (_, pieces, action) = staged(5, &[b"", b""]);
    assert_eq!(pieces.len(), 0);
    assert_eq!(action, upload(&[]));
}

#[test]
fn no_gain_is_given_up() {
    let (mut c, pieces, action) = staged(2, &[b"ab", b"c"]);
    assert_eq!(pieces.len(), 2);
    assert_eq!(action, Action::RemoveStage);
    assert_eq!(
        c.step(Event::StageRemoved),
        done(Ok("no benefit: re-chunking would still be 2 piece(s), not fewer than the current 2"))
    );
}

#[test]
fn old_messages_are_deleted_unless_referenced() {
    let (mut c, _, action) = staged(8, &[b"ab", b"c", b"d"]);
    assert_eq!(action, upload(&[4]));
    assert_eq!(c.step(Event::Uploaded(Ok(()))), Action::Swap);
    assert_eq!(c.step(Event::Swapped(true)), Action::CheckReference { message_id: 100 });
    assert_eq!(c.step(Event::Referenced(Some(false))), Action::CheckReference { message_id: 101 });
    assert_eq!(c.step(Event::Referenced(Some(true))), Action::CheckReference { message_id: 102 });
    assert_eq!(c.step(Event::Referenced(Some(false))), Action::Delete { message_ids: vec![100, 102] });
    assert_eq!(c.step(Event::Deleted), done(Ok("consolidated 3 chunk(s) -> 1 chunk(s)")));
    assert_eq!(c.step(Event::Deleted), Action::Nothing);
}

#[test]
fn nothing_is_deleted_where_all_is_referenced() {
    let (mut c, _, _) = staged(8, &[b"ab", b"c"]);
    c.step(Event::Uploaded(Ok(())));
    c.step(Event::Swapped(true));
    c.step(Event::Referenced(Some(true)));
    assert_eq!(
        c.step(Event::Referenced(None)),
        done(Ok("consolidated 2 chunk(s) -> 1 chunk(s)"))
    );
}

#[test]
fn failures_before_the_swap() {
    let begun = || {
        let mut c = Consolidation::new(s("k"), 2, false);
        c.step(object(false, false));
        c.step(chunks(3));
        c
    };
    let mut c = begun();
    assert_eq!(c.step(Event::StageMade(Err(s("full")))), done(Err("full")));
    let mut c = begun();
    c.step(Event::StageMade(Ok(())));
    assert_eq!(c.step(Event::Fetched(Fetched::Failed(s("reset")))), done(Err("reset")));
    let mut c = begun();
    c.step(Event::StageMade(Ok(())));
    assert_eq!(
        c.step(Event::Fetched(Fetched::Data(b"a".to_vec()))),
        Action::Fetch { file_id: s("f1"), sealed: false }
    );
    assert_eq!(c.step(Event::Fetched(Fetched::Refused(s("404 Not Found")))), Action::RemoveStage);
    assert_eq!(
        c.step(Event::StageRemoved),
        done(Err("download of chunk #1 failed: HTTP 404 Not Found"))
    );
    let mut c = begun();
    c.step(Event::StageMade(Ok(())));
    c.step(Event::Fetched(Fetched::Data(b"ab".to_vec())));
    assert_eq!(c.step(Event::Written(Err(s("full")))), done(Err("full")));
    let (mut c, _, _) = staged(8, &[b"ab", b"c"]);
    assert_eq!(c.step(Event::Uploaded(Err(s("flood")))), Action::RemovePieces);
    assert_eq!(c.step(Event::PiecesRemoved), done(Err("Telegram upload failed: flood")));
    let (mut c, _, _) = staged(8, &[b"ab", b"c"]);
    c.step(Event::Uploaded(Ok(())));
    assert_eq!(c.step(Event::Swapped(false)), Action::RollBack);
    assert_eq!(c.step(Event::RolledBack), done(Err(SWAP_FAILED)));
}

#[test]
fn a_second_consolidation_changes_nothing() {
    let (mut c, pieces, action) = staged(4, &[b"abc", b"def", b"gh", b"i"]);
    assert_eq!(action, upload(&[4, 4, 1]));
    assert_eq!(c.step(Event::Uploaded(Ok(()))), Action::Swap);
    c.step(Event::Swapped(true));
    let parts: Vec<&[u8]> = pieces.iter().map(|p| p.as_slice()).collect();
    let (mut c, again, action) = staged(4, &parts);
    assert_eq!(again, pieces);
    assert_eq!(action, Action::RemoveStage);
    assert_eq!(
        c.step(Event::StageRemoved),
        done(Ok("no benefit: re-chunking would still be 3 piece(s), not fewer than the current 3"))
    );
}

#[test]
fn pieces_without_a_size() {
    let mut c = Consolidation::new(s("k"), 0, false);
    assert_eq!(c.step(Event::Object(Ok(None))), done(Err(NOT_FOUND)));
    let mut c = Consolidation::new(s("k"), 0, false);
    c.step(object(false, false));
    assert_eq!(c.step(chunks(1)), done(Ok(SINGLE_CHUNK)));
    let mut c = Consolidation::new(s("k"), 0, false);
    c.step(object(false, false));
    c.step(chunks(2));
    assert_eq!(
        c.step(Event::StageMade(Ok(()))),
        Action::Fetch { file_id: s("f0"), sealed: false }
    );
    let mut action = c.step(Event::Fetched(Fetched::Data(b"a".to_vec())));
    for index in 0..10 {
        let name = index.to_string();
        assert_eq!(action, Action::WritePiece { index, name, data: vec![], sealed: false });
        action = c.step(Event::Written(Ok(())));
    }
}

#[test]
fn a_second_consolidation_of_one_piece_has_nothing_to_do() {
    let (_, pieces, _) = staged(8, &[b"ab", b"c"]);
    assert_eq!(pieces.len(), 1);
    let mut c = Consolidation::new(s("dir/file.bin"), 8, false);
    c.step(object(false, false));
    assert_eq!(c.step(chunks(1)), done(Ok(SINGLE_CHUNK)));
}

#[test]
fn reports_go_by_the_least_number_of_pieces() {
    for size in 1usize..12 {
        for count in 2usize..6 {
            let parts: Vec<&[u8]> = vec![b"abc"; count];
            let (mut c, pieces, action) = staged(size, &parts);
            let least = (3 * count + size - 1) / size;
            assert_eq!(pieces.len(), least);
            if least >= count {
                assert_eq!(action, Action::RemoveStage);
                let text = format!("no benefit: re-chunking would still be {} piece(s), not fewer than the current {}", least, count);
                assert_eq!(c.step(Event::StageRemoved), done(Ok(&text)));
            } else {
                c.step(Event::Uploaded(Ok(())));
                let mut action = c.step(Event::Swapped(true));
                while matches!(action, Action::CheckReference { .. }) {
                    action = c.step(Event::Referenced(Some(true)));
                }
                let text = format!("consolidated {} chunk(s) -> {} chunk(s)", count, least);
                assert_eq!(action, done(Ok(&text)));
            }
        }
    }
}
