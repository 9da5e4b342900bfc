use ocipkg::distribution::upload::{content_range, received, UploadSession, UploadStep};
use ocipkg::error::Error;

#[test]
fn small_blob_goes_in_one_piece() {
    let mut session = UploadSession::begin("/v2/a/blobs/uploads/1".to_string(), 10, 16);
    assert_eq!(session.next_step(), UploadStep::Whole);
    assert_eq!(session.chunk_of(b"0123456789"), b"");
    assert!(!session.is_closed());
    assert_eq!(session.close(), Ok(()));
    assert!(session.is_closed());
    assert_eq!(session.offset(), 10);
    assert_eq!(session.next_step(), UploadStep::Done);
    assert_eq!(session.close(), Ok(()));
}

#[test]
fn empty_blob_goes_in_one_piece() {
    let session = UploadSession::begin("loc".to_string(), 0, 4);
    assert_eq!(session.next_step(), UploadStep::Whole);
}

#[test]
fn large_blob_goes_chunk_by_chunk() {
    let data = b"0123456789";
    let mut session = UploadSession::begin("loc0".to_string(), 10, 4);
    let mut sent: Vec<u8> = Vec::new();
    let mut steps: Vec<UploadStep> = Vec::new();
    let mut round = 0;
    loop {
        let step = session.next_step();
        steps.push(step);
        match step {
            UploadStep::Chunk { start, end } => {
                assert_eq!(session.chunk_of(data), &data[start as usize..end as usize]);
                sent.extend_from_slice(session.chunk_of(data));
                round += 1;
                assert_eq!(session.advance(format!("loc{}", round), end), Ok(()));
                assert_eq!(session.location(), format!("loc{}", round));
                assert_eq!(session.offset(), end);
            }
            UploadStep::Finish => {
                assert_eq!(session.close(), Ok(()));
            }
            UploadStep::Done => break,
            UploadStep::Whole => unreachable!(),
        }
    }
    assert_eq!(
        steps,
        vec![
            UploadStep::Chunk { start: 0, end: 4 },
            UploadStep::Chunk { start: 4, end: 8 },
            UploadStep::Chunk { start: 8, end: 10 },
            UploadStep::Finish,
            UploadStep::Done,
        ]
    );
    assert_eq!(sent, data.to_vec());
}

#[test]
fn chunks_of_any_size_reassemble_to_the_blob() {
    let data: Vec<u8> = (0..=255u8).cycle().take(1000).collect();
    for chunk_size in [1u64, 2, 3, 7, 64, 333, 999] {
        let mut session = UploadSession::begin("loc".to_string(), 1000, chunk_size);
        let mut sent: Vec<u8> = Vec::new();
        while let UploadStep::Chunk { start, end } = session.next_step() {
            assert!(end - start <= chunk_size);
            sent.extend_from_slice(session.chunk_of(&data));
            session.advance("loc".to_string(), end).unwrap();
        }
        assert_eq!(session.next_step(), UploadStep::Finish);
        assert_eq!(sent, data);
    }
}

#[test]
fn upload_resumes_from_the_confirmed_offset() {
    let mut session = UploadSession::begin("loc".to_string(), 10, 4);
    assert_eq!(session.advance("next".to_string(), 2), Ok(()));
    assert_eq!(session.offset(), 2);
    assert_eq!(session.next_step(), UploadStep::Chunk { start: 2, end: 6 });
    assert_eq!(session.advance("next".to_string(), 2), Ok(()));
    assert_eq!(session.next_step(), UploadStep::Chunk { start: 2, end: 6 });
}

#[test]
fn impossible_confirmations_are_refused() {
    let mut session = UploadSession::begin("loc".to_string(), 10, 4);
    assert_eq!(session.advance("x".to_string(), 5), Err(Error::ProtocolError));
    assert_eq!(session.location(), "loc");
    assert_eq!(session.offset(), 0);
    session.advance("loc".to_string(), 4).unwrap();
    assert_eq!(session.advance("x".to_string(), 3), Err(Error::ProtocolError));
    assert_eq!(session.advance("x".to_string(), 9), Err(Error::ProtocolError));
    assert_eq!(session.offset(), 4);
    assert_eq!(session.close(), Err(Error::ProtocolError));
    assert!(!session.is_closed());
    session.advance("loc".to_string(), 8).unwrap();
    session.advance("loc".to_string(), 10).unwrap();
    assert_eq!(session.advance("x".to_string(), 11), Err(Error::ProtocolError));
    session.close().unwrap();
    assert_eq!(session.advance("x".to_string(), 10), Err(Error::ProtocolError));
}

#[test]
fn chunk_size_zero_is_taken_as_one() {
    let session = UploadSession::begin("loc".to_string(), 3, 0);
    assert_eq!(session.next_step(), UploadStep::Chunk { start: 0, end: 1 });
}

#[test]
fn content_range_names_first_and_last_offset() {
    assert_eq!(content_range(0, 1), "0-0");
    assert_eq!(content_range(0, 1024), "0-1023");
    assert_eq!(content_range(1024, 4096), "1024-4095");
    assert_eq!(content_range(0, u64::MAX), "0-18446744073709551614");
}

#[test]
fn received_is_one_more_than_the_last_offset() {
    assert_eq!(received("0-1023"), Some(1024));
    assert_eq!(received("0-0"), Some(1));
    assert_eq!(received("512-0999"), Some(1000));
    assert_eq!(received("99999999999999999999999-7"), Some(8));
    assert_eq!(received("0-18446744073709551614"), Some(u64::MAX));
    assert_eq!(received(&content_range(16, 48)), Some(48));
}

#[test]
fn received_refuses_other_forms() {
    for range in [
        "",
        "-",
        "0-",
        "-5",
        "1023",
        "0-1-2",
        "0 - 5",
        "bytes=0-5",
        "a-5",
        "0-5x",
        "0-18446744073709551615",
        "0-18446744073709551616",
    ] {
        assert_eq!(received(range), None, "{}", range);
    }
}
