use std::collections::HashMap;

use transfer_rs::headers::classify_header;
use transfer_rs::model::{Fault, ParseState};
use transfer_rs::session::{ParseSession, SinkAction};

/// Feeds the chunks in order and plays the storage actions into memory.
/// Returns the session, the stored files by `id/filename`, and every fault.
fn run(boundary: &[u8], chunks: &[&[u8]]) -> (ParseSession, HashMap<String, Vec<u8>>, Vec<Fault>) {
    let mut session = ParseSession::new(boundary);
    let mut files: HashMap<String, Vec<u8>> = HashMap::new();
    let mut open: Option<String> = None;
    let mut faults = Vec::new();
    for chunk in chunks {
        let result = session.feed(chunk);
        faults.extend(result.faults);
        for action in result.actions {
            match action {
                SinkAction::Open { id, filename } => {
                    let key = format!("{}/{}", id, String::from_utf8(filename).unwrap());
                    files.insert(key.clone(), Vec::new());
                    open = Some(key);
                }
                SinkAction::Write(bytes) => {
                    let key = open.as_ref().expect("write without an open sink");
                    files.get_mut(key).unwrap().extend(bytes);
                }
                SinkAction::Close => {
                    assert!(open.take().is_some(), "close without an open sink");
                }
            }
        }
    }
    (session, files, faults)
}

fn completed_names(session: &ParseSession) -> Vec<String> {
    session
        .completed()
        .iter()
        .map(|p| String::from_utf8(p.filename.clone()).unwrap())
        .collect()
}

fn stored(session: &ParseSession, files: &HashMap<String, Vec<u8>>, index: usize) -> Option<Vec<u8>> {
    let part = &session.completed()[index];
    let key = format!("{}/{}", part.id, String::from_utf8(part.filename.clone()).unwrap());
    files.get(&key).cloned()
}

const SCENARIO_A: &[u8] =
    b"--X\r\nContent-Disposition: form-data; name=\"f\"; filename=\"a.txt\"\r\n\r\nhello\r\n--X--\r\n";

#[test]
fn classifier_reads_name_and_filename() {
    let line = b"Content-Disposition: form-data; name=\"f\"; filename=\"x.png\"\r\n";
    for _ in 0..2 {
        let info = classify_header(line);
        assert!(info.form_data);
        assert_eq!(info.name, Some(b"f".to_vec()));
        assert_eq!(info.filename, Some(b"x.png".to_vec()));
        assert_eq!(info.mime, None);
    }
}

#[test]
fn classifier_reads_content_type() {
    let info = classify_header(b"Content-Type: image/png\r\n");
    assert!(!info.form_data);
    assert_eq!(info.mime, Some(b"image/png".to_vec()));
    assert_eq!(info.name, None);
    assert_eq!(info.filename, None);
}

#[test]
fn classifier_ignores_unquoted_and_unknown_lines() {
    let info = classify_header(b"Content-Disposition: form-data; name=f; filename=x\r\n");
    assert!(info.form_data);
    assert_eq!(info.name, None);
    assert_eq!(info.filename, None);
    let info = classify_header(b"X-Extra: 1\r\n");
    assert!(!info.form_data);
    assert_eq!((info.name, info.filename, info.mime), (None, None, None));
    let info = classify_header(b"Content-Disposition: attachment; filename=\"a\"\r\n");
    assert!(!info.form_data);
    assert_eq!(info.filename, None);
}

#[test]
fn classifier_takes_last_attribute() {
    let info = classify_header(b"Content-Disposition: form-data; name=\"a\"; name=\"b\"\r\n");
    assert_eq!(info.name, Some(b"b".to_vec()));
    let info = classify_header(b"Content-Disposition: form-data; name=\"\"; filename=\"\"\r\n");
    assert_eq!(info.name, Some(Vec::new()));
    assert_eq!(info.filename, Some(Vec::new()));
}

#[test]
fn single_part_split_inside_payload() {
    let split = SCENARIO_A.len() - 11;
    assert_eq!(&SCENARIO_A[split - 3..split], b"hel");
    let (session, files, faults) = run(b"X", &[&SCENARIO_A[..split], &SCENARIO_A[split..]]);
    assert_eq!(completed_names(&session), vec!["a.txt".to_string()]);
    assert_eq!(stored(&session, &files, 0), Some(b"hello".to_vec()));
    assert_eq!(session.state(), ParseState::End);
    assert!(faults.is_empty());
    assert_eq!(session.completed()[0].id.len(), 36);
}

#[test]
fn every_split_gives_the_same_parts() {
    let body: &[u8] = b"--b\r\nContent-Disposition: form-data; name=\"f\"; filename=\"one.bin\"\r\nContent-Type: application/octet-stream\r\n\r\nline1\r\n\r\nline\n3\r\n--b\r\nContent-Disposition: form-data; name=\"g\"\r\n\r\nplain\r\n--b\r\nContent-Disposition: form-data; name=\"h\"; filename=\"two.txt\"\r\n\r\nxy\r\n--b--\r\n";
    let (whole, whole_files, _) = run(b"b", &[body]);
    let names = completed_names(&whole);
    assert_eq!(names, vec!["one.bin".to_string(), "two.txt".to_string()]);
    assert_eq!(stored(&whole, &whole_files, 0), Some(b"line1\r\n\r\nline\n3".to_vec()));
    assert_eq!(stored(&whole, &whole_files, 1), Some(b"xy".to_vec()));
    for i in 0..=body.len() {
        let (split, files, _) = run(b"b", &[&body[..i], &body[i..]]);
        assert_eq!(completed_names(&split), names, "split at {}", i);
        assert_eq!(stored(&split, &files, 0), Some(b"line1\r\n\r\nline\n3".to_vec()));
        assert_eq!(stored(&split, &files, 1), Some(b"xy".to_vec()));
        assert_eq!(split.state(), ParseState::End);
    }
    let bytes: Vec<&[u8]> = body.chunks(1).collect();
    let (single, files, _) = run(b"b", &bytes);
    assert_eq!(completed_names(&single), names);
    assert_eq!(stored(&single, &files, 0), Some(b"line1\r\n\r\nline\n3".to_vec()));
}

#[test]
fn payload_round_trip_of_zero_one_and_many_lines() {
    let head: &[u8] = b"--X\r\nContent-Disposition: form-data; name=\"f\"; filename=\"p\"\r\n\r\n";
    let cases: Vec<(&[u8], &[u8])> = vec![
        (b"", b""),
        (b"\r\n", b""),
        (b"abc\r\n", b"abc"),
        (b"a\r\nb\r\n\r\nc\r\n", b"a\r\nb\r\n\r\nc"),
        (b"\x00\xff\r\n\xfe\r\n", b"\x00\xff\r\n\xfe"),
    ];
    for (region, expected) in cases {
        let mut body = head.to_vec();
        body.extend_from_slice(region);
        body.extend_from_slice(b"--X--\r\n");
        let (session, files, _) = run(b"X", &[&body]);
        assert_eq!(completed_names(&session), vec!["p".to_string()]);
        let content = stored(&session, &files, 0).unwrap_or_default();
        assert_eq!(content, expected.to_vec());
    }
}

#[test]
fn boundary_is_matched_literally() {
    let body: &[u8] = b"--a.b*c\r\nContent-Disposition: form-data; name=\"f\"; filename=\"r.txt\"\r\n\r\n--aXbbbc\r\n--a.b*c--\r\n";
    let (session, files, _) = run(b"a.b*c", &[body]);
    assert_eq!(completed_names(&session), vec!["r.txt".to_string()]);
    assert_eq!(stored(&session, &files, 0), Some(b"--aXbbbc".to_vec()));
    assert_eq!(session.state(), ParseState::End);
}

#[test]
fn two_parts_in_submission_order() {
    let body: &[u8] = b"--X\r\nContent-Disposition: form-data; name=\"a\"; filename=\"first.txt\"\r\n\r\n1\r\n--X\r\nContent-Disposition: form-data; name=\"b\"; filename=\"second.txt\"\r\n\r\n2\r\n--X--\r\n";
    let (session, files, _) = run(b"X", &[body]);
    assert_eq!(completed_names(&session), vec!["first.txt".to_string(), "second.txt".to_string()]);
    assert_eq!(stored(&session, &files, 0), Some(b"1".to_vec()));
    assert_eq!(stored(&session, &files, 1), Some(b"2".to_vec()));
    assert_ne!(session.completed()[0].id, session.completed()[1].id);
}

#[test]
fn plain_field_never_touches_storage() {
    let body: &[u8] = b"--X\r\nContent-Disposition: form-data; name=\"f\"\r\n\r\nvalue\r\n--X--\r\n";
    let mut session = ParseSession::new(b"X");
    let result = session.feed(body);
    assert!(result.actions.is_empty());
    assert!(session.completed().is_empty());
    assert_eq!(session.state(), ParseState::End);
}

#[test]
fn plain_field_after_file_part_writes_nothing() {
    let body: &[u8] = b"--X\r\nContent-Disposition: form-data; name=\"a\"; filename=\"f.txt\"\r\n\r\nfile\r\n--X\r\nContent-Disposition: form-data; name=\"g\"\r\n\r\nvalue\r\n--X--\r\n";
    let (session, files, _) = run(b"X", &[body]);
    assert_eq!(completed_names(&session), vec!["f.txt".to_string()]);
    assert_eq!(stored(&session, &files, 0), Some(b"file".to_vec()));
    assert_eq!(files.len(), 1);
}

#[test]
fn body_without_parts_reaches_end() {
    let (session, files, faults) = run(b"X", &[b"--X\r\n--X--\r\n"]);
    assert!(session.completed().is_empty());
    assert!(files.is_empty());
    assert!(faults.is_empty());
    assert_eq!(session.state(), ParseState::End);
}

#[test]
fn truncated_body_keeps_closed_parts() {
    let body: &[u8] = b"--X\r\nContent-Disposition: form-data; name=\"a\"; filename=\"done.txt\"\r\n\r\nok\r\n--X\r\nContent-Disposition: form-data; name=\"b\"; filename=\"cut.txt\"\r\n\r\npartial\r\n--X-";
    let (session, files, faults) = run(b"X", &[body, b""]);
    assert_eq!(session.state(), ParseState::Body);
    assert!(faults.is_empty());
    assert_eq!(stored(&session, &files, 0), Some(b"ok".to_vec()));
    let parts = session.finish();
    assert_eq!(parts.len(), 1);
    assert_eq!(parts[0].filename, b"done.txt".to_vec());
}

#[test]
fn preamble_line_is_a_protocol_mismatch() {
    let (session, _, faults) = run(b"X", &[b"preamble\r\n--X\r\n--X--\r\n"]);
    assert_eq!(faults, vec![Fault::ProtocolMismatch]);
    assert_eq!(session.state(), ParseState::End);
}

#[test]
fn undecodable_header_is_dropped() {
    let body: &[u8] = b"--X\r\nContent-Disposition: form-data; name=\"f\"; filename=\"\xff.txt\"\r\n\r\ndata\r\n--X--\r\n";
    let (session, files, faults) = run(b"X", &[body]);
    assert_eq!(faults, vec![Fault::EncodingFailure]);
    assert!(session.completed().is_empty());
    assert!(files.is_empty());
}

#[test]
fn utf8_filename_is_kept() {
    let body = "--X\r\nContent-Disposition: form-data; name=\"f\"; filename=\"r\u{e9}sum\u{e9}.txt\"\r\n\r\nd\r\n--X--\r\n";
    let (session, _, faults) = run(b"X", &[body.as_bytes()]);
    assert!(faults.is_empty());
    assert_eq!(completed_names(&session), vec!["r\u{e9}sum\u{e9}.txt".to_string()]);
}

#[test]
fn chunk_after_end_is_a_state_violation() {
    let mut session = ParseSession::new(b"X");
    let first = session.feed(b"--X\r\n--X--\r\ntrailing\r\n");
    assert_eq!(first.faults, vec![Fault::StateViolation]);
    let second = session.feed(b"--X\r\n");
    assert_eq!(second.faults, vec![Fault::StateViolation]);
    assert!(second.actions.is_empty());
    assert_eq!(session.state(), ParseState::End);
}

#[test]
fn terminator_split_between_chunks() {
    let (session, files, _) = run(
        b"X",
        &[
            b"--X\r",
            b"\nContent-Disposition: form-data; name=\"f\"; filename=\"s\"\r",
            b"\n\r",
            b"\nab\r",
            b"\n--X--\r",
            b"\n",
        ],
    );
    assert_eq!(completed_names(&session), vec!["s".to_string()]);
    assert_eq!(stored(&session, &files, 0), Some(b"ab".to_vec()));
    assert_eq!(session.state(), ParseState::End);
}

#[test]
fn open_and_write_actions_of_a_part() {
    let mut session = ParseSession::new(b"X");
    let result = session.feed(SCENARIO_A);
    assert_eq!(result.actions.len(), 3);
    match &result.actions[0] {
        SinkAction::Open { id, filename } => {
            assert_eq!(id.len(), 36);
            assert_eq!(filename, &b"a.txt".to_vec());
        }
        other => panic!("unexpected {:?}", other),
    }
    match &result.actions[1] {
        SinkAction::Write(bytes) => assert_eq!(bytes, &b"hello".to_vec()),
        other => panic!("unexpected {:?}", other),
    }
    assert!(matches!(result.actions[2], SinkAction::Close));
}

#[test]
fn terminal_line_before_first_separator_is_a_mismatch() {
    let mut session = ParseSession::new(b"X");
    let result = session.feed(b"--X--\r\n");
    assert_eq!(result.faults, vec![Fault::ProtocolMismatch]);
    assert_eq!(session.state(), ParseState::LoadBoundary);
    let result = session.feed(b"--X\r\n--X--\r\n");
    assert!(result.faults.is_empty());
    assert_eq!(session.state(), ParseState::End);
}

#[test]
fn terminal_line_alone_in_its_chunk_reports_nothing_more() {
    let mut session = ParseSession::new(b"X");
    let result = session.feed(b"--X\r\n--X--\r\n");
    assert!(result.faults.is_empty());
    assert_eq!(session.state(), ParseState::End);
}

#[test]
fn opened_files_belong_to_the_reported_parts() {
    let body: &[u8] = b"--X\r\nContent-Disposition: form-data; name=\"a\"; filename=\"a.txt\"\r\n\r\nA\r\n--X\r\nContent-Disposition: form-data; name=\"b\"; filename=\"b.txt\"\r\n\r\nB\r\n--X--\r\n";
    let mut session = ParseSession::new(b"X");
    let result = session.feed(body);
    let opened: Vec<(String, Vec<u8>)> = result
        .actions
        .iter()
        .filter_map(|a| match a {
            SinkAction::Open { id, filename } => Some((id.clone(), filename.clone())),
            _ => None,
        })
        .collect();
    let parts: Vec<(String, Vec<u8>)> = session
        .completed()
        .iter()
        .map(|p| (p.id.clone(), p.filename.clone()))
        .collect();
    assert_eq!(opened, parts);
    for (id, _) in &parts {
        let bytes = id.as_bytes();
        assert_eq!(bytes.len(), 36);
        for (i, b) in bytes.iter().enumerate() {
            if i == 8 || i == 13 || i == 18 || i == 23 {
                assert_eq!(*b, b'-');
            } else {
                assert!(b.is_ascii_digit() || (b'a'..=b'f').contains(b));
            }
        }
        assert_eq!(bytes[14], b'4');
    }
}
