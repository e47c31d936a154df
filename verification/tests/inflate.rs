use epub::container::LocalFileHeader;
use epub::inflate::{inflate_step, InflateStep, INFLATE_CHUNK};
use epub::io::{BufReader, InputFile, OutputFile};
use epub::InflateStatus::{Done, Failed, HasMoreOutput, NeedsMoreInput};
use epub::{EPubError, InflateStatus};

fn header(method: u16, compressed: usize, uncompressed: usize) -> LocalFileHeader {
    LocalFileHeader {
        extract_version: 20,
        general_purpose_flag: 0,
        compression_method: method,
        last_mod_file_time: 0,
        last_mod_file_date: 0,
        crc32: 0,
        compressed_size: compressed as u32,
        uncompressed_size: uncompressed as u32,
        file_name: String::from("file"),
        extra_field: None,
        data_descriptor: None,
    }
}

/// Bytes that do not deflate well, so that the payload stays long.
fn noise(n: usize) -> Vec<u8> {
    let mut state: u32 = 0x2545f491;
    (0..n)
        .map(|_| {
            state ^= state << 13;
            state ^= state >> 17;
            state ^= state << 5;
            (state >> 11) as u8
        })
        .collect()
}

/// Inflates `plain` after deflating it, and checks what comes out.
fn round_trip(plain: &[u8], cluster_size: usize) {
    let payload = miniz_oxide::deflate::compress_to_vec(plain, 6);
    let mut bytes = payload.clone();
    bytes.extend_from_slice(&[0xca, 0xfe]);
    let mut rdr = BufReader::new(InputFile::new(bytes)).unwrap();
    let mut out = OutputFile::with_cluster_size(cluster_size);
    out.write_all(&vec![b'>'], 0, 1);
    let written = header(8, payload.len(), plain.len()).inflate(&mut rdr, &mut out).unwrap();
    assert_eq!(written, plain.len());
    let data = out.into_data();
    assert_eq!(data[0], b'>');
    assert!(data[1..] == plain[..]);
    // the reader stands behind the payload
    assert_eq!(rdr.read2().unwrap(), 0xfeca);
}

#[test]
fn inflates_an_empty_file() {
    round_trip(b"", 512);
}

#[test]
fn inflates_a_small_payload() {
    round_trip(b"Hello, hello, hello, world!\n", 512);
    round_trip(b"x", 1);
}

#[test]
fn inflates_a_payload_that_fills_the_window_more_than_once() {
    // a short payload with a long output
    let plain: Vec<u8> = (0..200_000).map(|i| b"abcdefghij"[i % 10]).collect();
    round_trip(&plain, 4096);
    let plain = vec![0u8; 3 * INFLATE_CHUNK];
    round_trip(&plain, 512);
}

#[test]
fn inflates_a_payload_of_more_than_one_chunk() {
    let mut plain = noise(90_000);
    plain.extend_from_slice(&vec![b'z'; 50_000]);
    plain.extend_from_slice(&noise(40_000));
    let payload = miniz_oxide::deflate::compress_to_vec(&plain, 6);
    assert!(payload.len() > 2 * INFLATE_CHUNK);
    round_trip(&plain, 4096);
    round_trip(&plain, 1000);
}

#[test]
fn inflates_text_with_references_across_chunks() {
    let mut plain: Vec<u8> = Vec::new();
    let words = noise(3000);
    let fresh = noise(200_000);
    let mut i = 0;
    while 100 * (i + 1) <= fresh.len() {
        let start = (i * 37) % 2900;
        plain.extend_from_slice(&words[start..start + 1 + (i % 90)]);
        plain.extend_from_slice(&fresh[100 * i..100 * (i + 1)]);
        i += 1;
    }
    let payload = miniz_oxide::deflate::compress_to_vec(&plain, 9);
    assert!(payload.len() > INFLATE_CHUNK);
    round_trip(&plain, 512);
}

#[test]
fn inflate_stops_at_the_declared_size() {
    let plain = vec![7u8; 1000];
    let payload = miniz_oxide::deflate::compress_to_vec(&plain, 6);
    let mut rdr = BufReader::new(InputFile::new(payload.clone())).unwrap();
    let mut out = OutputFile::new();
    let r = header(8, payload.len(), 999).inflate(&mut rdr, &mut out);
    assert!(matches!(r, Err(EPubError::FormatError(_))));
    assert!(out.data().len() <= 999);
    // a header that declares more than the stream holds is refused as well
    let mut rdr = BufReader::new(InputFile::new(payload.clone())).unwrap();
    let mut out = OutputFile::new();
    let r = header(8, payload.len(), 1001).inflate(&mut rdr, &mut out);
    assert!(matches!(r, Err(EPubError::FormatError(_))));
    assert!(out.data().len() <= 1001);
}

#[test]
fn inflate_reports_the_decompressor_status() {
    // block type 3 does not exist
    let payload = vec![0x07u8, 0, 0, 0];
    let mut rdr = BufReader::new(InputFile::new(payload.clone())).unwrap();
    let mut out = OutputFile::new();
    let r = header(8, payload.len(), 10).inflate(&mut rdr, &mut out);
    assert_eq!(r, Err(EPubError::Decompress(InflateStatus::Failed)));
    // a stream that ends too early
    let plain = noise(5000);
    let payload = miniz_oxide::deflate::compress_to_vec(&plain, 6);
    let cut = &payload[..payload.len() / 2];
    let mut rdr = BufReader::new(InputFile::new(cut.to_vec())).unwrap();
    let mut out = OutputFile::new();
    let r = header(8, cut.len(), plain.len()).inflate(&mut rdr, &mut out);
    assert_eq!(r, Err(EPubError::Decompress(InflateStatus::FailedCannotMakeProgress)));
}

#[test]
fn inflate_needs_the_whole_payload() {
    let plain = noise(5000);
    let payload = miniz_oxide::deflate::compress_to_vec(&plain, 6);
    let mut rdr = BufReader::new(InputFile::new(payload[..100].to_vec())).unwrap();
    let mut out = OutputFile::new();
    let r = header(8, payload.len(), plain.len()).inflate(&mut rdr, &mut out);
    assert_eq!(r, Err(EPubError::TruncatedRead));
    let mut rdr = BufReader::new(InputFile::failing_after(payload[..100].to_vec())).unwrap();
    let r = header(8, payload.len(), plain.len()).inflate(&mut rdr, &mut out);
    assert_eq!(r, Err(EPubError::IO));
}

#[test]
fn inflate_without_compressed_data() {
    let mut rdr = BufReader::new(InputFile::new(vec![1, 2, 3])).unwrap();
    let mut out = OutputFile::new();
    assert_eq!(header(8, 0, 0).inflate(&mut rdr, &mut out), Ok(0));
    assert!(out.data().is_empty());
    assert_eq!(rdr.read1().unwrap(), 1);
    assert!(matches!(
        header(8, 0, 5).inflate(&mut rdr, &mut out),
        Err(EPubError::FormatError(_))
    ));
}

#[test]
fn stored_payload_is_copied_byte_for_byte() {
    for len in [1usize, 3, 255, 256, 257, 512, 2000] {
        let plain = noise(len);
        let mut bytes = plain.clone();
        bytes.push(0x99);
        let mut rdr = BufReader::new(InputFile::new(bytes)).unwrap();
        let mut out = OutputFile::with_cluster_size(100);
        let written = header(0, len, len).copy_stored(&mut rdr, &mut out).unwrap();
        assert_eq!(written, len);
        assert_eq!(out.into_data(), plain);
        assert_eq!(rdr.read1().unwrap(), 0x99);
    }
}

#[test]
fn stored_payload_has_one_size() {
    let mut rdr = BufReader::new(InputFile::new(vec![1, 2, 3, 4])).unwrap();
    let mut out = OutputFile::new();
    assert!(matches!(
        header(0, 3, 4).copy_stored(&mut rdr, &mut out),
        Err(EPubError::FormatError(_))
    ));
    // nothing was read
    assert_eq!(rdr.read4().unwrap(), 0x04030201);
    let mut rdr = BufReader::new(InputFile::new(vec![1, 2, 3, 4])).unwrap();
    assert_eq!(header(0, 5, 5).copy_stored(&mut rdr, &mut out), Err(EPubError::TruncatedRead));
}

#[test]
fn inflates_a_stored_block() {
    // one final stored block of three bytes
    let payload = vec![0x01u8, 0x03, 0x00, 0xfc, 0xff, 0x68, 0x69, 0x0a];
    let mut rdr = BufReader::new(InputFile::new(payload.clone())).unwrap();
    let mut out = OutputFile::new();
    assert_eq!(header(8, 8, 3).inflate(&mut rdr, &mut out), Ok(3));
    assert_eq!(out.into_data(), vec![0x68, 0x69, 0x0a]);
    // the stream of an empty file
    let mut rdr = BufReader::new(InputFile::new(vec![0x03, 0x00])).unwrap();
    let mut out = OutputFile::new();
    assert_eq!(header(8, 2, 0).inflate(&mut rdr, &mut out), Ok(0));
    assert!(out.data().is_empty());
    // one final stored block of 40000 bytes, in two chunks
    let plain: Vec<u8> = (0..40000).map(|i| (i % 251) as u8).collect();
    let mut payload = vec![0x01u8, 0x40, 0x9c, 0xbf, 0x63];
    payload.extend_from_slice(&plain);
    let mut rdr = BufReader::new(InputFile::new(payload)).unwrap();
    let mut out = OutputFile::new();
    assert_eq!(header(8, 40005, 40000).inflate(&mut rdr, &mut out), Ok(40000));
    assert_eq!(out.into_data(), plain);
}

#[test]
fn inflate_writes_nothing_without_compressed_data() {
    let mut rdr = BufReader::new(InputFile::new(vec![1, 2, 3])).unwrap();
    let mut out = OutputFile::new();
    out.write_all(&vec![9u8], 0, 1);
    assert!(matches!(header(8, 0, 5).inflate(&mut rdr, &mut out), Err(EPubError::FormatError(_))));
    assert_eq!(out.data(), &vec![9u8]);
    assert_eq!(rdr.read1().unwrap(), 1);
}

#[test]
fn stream_must_end_with_the_payload() {
    // the stream ends in the first chunk, the payload goes on
    let plain = noise(100);
    let mut payload = miniz_oxide::deflate::compress_to_vec(&plain, 6);
    payload.resize(INFLATE_CHUNK + 10, 0);
    let mut rdr = BufReader::new(InputFile::new(payload.clone())).unwrap();
    let mut out = OutputFile::new();
    let r = header(8, payload.len(), 100).inflate(&mut rdr, &mut out);
    assert!(matches!(r, Err(EPubError::FormatError(_))));
    assert_eq!(out.data(), &plain);
}

#[test]
fn step_after_a_call_of_the_decompressor() {
    // a full output buffer: the same chunk goes on behind what was used
    assert_eq!(inflate_step(HasMoreOutput, 100, 32768, 50, 1000, 0, 40000), Ok(InflateStep::SameChunk(150)));
    // ... but it must hold something, and fit into what is declared
    assert!(matches!(inflate_step(HasMoreOutput, 100, 0, 50, 1000, 0, 40000), Err(EPubError::FormatError(_))));
    assert!(matches!(inflate_step(HasMoreOutput, 100, 11, 50, 1000, 30, 40), Err(EPubError::FormatError(_))));
    assert_eq!(inflate_step(HasMoreOutput, 100, 10, 50, 1000, 30, 40), Ok(InflateStep::SameChunk(150)));
    assert!(matches!(inflate_step(HasMoreOutput, 951, 10, 50, 1000, 30, 40), Err(EPubError::FormatError(_))));
    // the input is used up
    assert_eq!(inflate_step(NeedsMoreInput, 1000, 7, 0, 1000, 3, 10), Ok(InflateStep::NextChunk));
    assert_eq!(inflate_step(NeedsMoreInput, 1000, 0, 0, 1000, 3, 10), Ok(InflateStep::NextChunk));
    assert!(matches!(inflate_step(NeedsMoreInput, 1000, 8, 0, 1000, 3, 10), Err(EPubError::FormatError(_))));
    // the stream has ended: all that was declared must be there
    assert_eq!(inflate_step(Done, 20, 7, 0, 20, 3, 10), Ok(InflateStep::Done));
    assert_eq!(inflate_step(Done, 2, 0, 0, 2, 0, 0), Ok(InflateStep::Done));
    assert!(matches!(inflate_step(Done, 20, 6, 0, 20, 3, 10), Err(EPubError::FormatError(_))));
    assert!(matches!(inflate_step(Done, 20, 8, 0, 20, 3, 10), Err(EPubError::FormatError(_))));
    // a failure is the error
    assert_eq!(inflate_step(Failed, 0, 0, 0, 20, 3, 10), Err(EPubError::Decompress(Failed)));
}
