use json_hook::frame::{FrameError, FrameReader};

fn frames_in_chunks(data: &[u8], cut: usize, max: usize) -> Result<Vec<Vec<u8>>, FrameError> {
    let mut reader = FrameReader::new(max);
    let mut out = Vec::new();
    let mut start = 0;
    while start < data.len() {
        let end = std::cmp::min(start + cut, data.len());
        let (frames, status) = reader.push(&data[start..end]);
        out.extend(frames);
        status?;
        start = end;
    }
    Ok(out)
}

#[test]
fn one_frame_in_one_read() {
    let mut reader = FrameReader::new(1024);
    let (frames, status) = reader.push(b"{\"a\":1}\n\n");
    assert_eq!(status, Ok(()));
    assert_eq!(frames, vec![b"{\"a\":1}".to_vec()]);
    assert_eq!(reader.pending_len(), 0);
}

#[test]
fn partial_tail_is_kept_between_reads() {
    let mut reader = FrameReader::new(1024);
    assert_eq!(reader.push(b"{\"a\":"), (vec![], Ok(())));
    assert_eq!(reader.push(b"1}\n"), (vec![], Ok(())));
    assert_eq!(reader.pending_len(), 8);
    let (frames, status) = reader.push(b"\n{\"b\"");
    assert_eq!(status, Ok(()));
    assert_eq!(frames, vec![b"{\"a\":1}".to_vec()]);
    assert_eq!(reader.pending_len(), 4);
}

#[test]
fn framing_does_not_depend_on_read_boundaries() {
    let data: &[u8] = b"{\"x\":[1,2]}\n\n{\"y\":\"a\\nb\"}\n\n\n\n{\"z\":0}\n\ntrailing";
    let whole = frames_in_chunks(data, data.len(), 4096).unwrap();
    assert_eq!(whole.len(), 4);
    assert_eq!(whole[0], b"{\"x\":[1,2]}".to_vec());
    assert_eq!(whole[2], b"".to_vec());
    for cut in 1..data.len() {
        assert_eq!(frames_in_chunks(data, cut, 4096).unwrap(), whole);
    }
}

#[test]
fn oversized_frame_is_refused() {
    let mut reader = FrameReader::new(8);
    let (frames, status) = reader.push(b"0123456789");
    assert!(frames.is_empty());
    assert_eq!(status, Err(FrameError::FrameTooLarge));
    assert!(reader.pending_len() <= 8);
}

#[test]
fn oversized_frame_is_refused_across_reads() {
    let mut reader = FrameReader::new(8);
    assert_eq!(reader.push(b"01234"), (vec![], Ok(())));
    let (frames, status) = reader.push(b"56789\n\n");
    assert!(frames.is_empty());
    assert_eq!(status, Err(FrameError::FrameTooLarge));
    assert!(reader.pending_len() <= 8);
}

#[test]
fn frame_fits_exactly_with_its_terminator() {
    let mut reader = FrameReader::new(8);
    assert_eq!(reader.push(b"012345\n\n"), (vec![b"012345".to_vec()], Ok(())));
    let mut tight = FrameReader::new(8);
    let (frames, status) = tight.push(b"0123456\n\n");
    assert!(frames.is_empty());
    assert_eq!(status, Err(FrameError::FrameTooLarge));
}

#[test]
fn frames_before_an_oversized_one_are_returned() {
    let data: &[u8] = b"ab\n\ncd\n\n0123456789\n\n";
    let mut whole = FrameReader::new(8);
    let (frames, status) = whole.push(data);
    assert_eq!(frames, vec![b"ab".to_vec(), b"cd".to_vec()]);
    assert_eq!(status, Err(FrameError::FrameTooLarge));
    for cut in 1..data.len() {
        let mut reader = FrameReader::new(8);
        let mut got = Vec::new();
        let mut failed = false;
        let mut start = 0;
        while start < data.len() && !failed {
            let end = std::cmp::min(start + cut, data.len());
            let (more, status) = reader.push(&data[start..end]);
            got.extend(more);
            failed = status.is_err();
            start = end;
        }
        assert!(failed);
        assert_eq!(got, frames);
    }
}

#[test]
fn frames_within_the_limit_pass_in_any_number() {
    let mut reader = FrameReader::new(8);
    let (frames, status) = reader.push(b"abc\n\ndef\n\nghi\n\n");
    assert_eq!(status, Ok(()));
    assert_eq!(frames.len(), 3);
    assert_eq!(frames[2], b"ghi".to_vec());
}
