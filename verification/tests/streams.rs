use streamcopy::copy_until;
use streamcopy::AlwaysStop;
use streamcopy::ByteSink;
use streamcopy::ByteSource;
use streamcopy::BytesSource;
use streamcopy::IoError;
use streamcopy::IterReader;
use streamcopy::NeverStop;
use streamcopy::ReadStep;
use streamcopy::RejectingSink;
use streamcopy::RepeatSource;
use streamcopy::ScriptedSource;
use streamcopy::SinkLenAbove;
use streamcopy::VecChunks;

#[test]
fn test_copy_until_with_empty_buffer() {
    let mut reader = BytesSource::new(Vec::new());
    let mut writer: Vec<u8> = vec![];

    assert!(copy_until(&mut reader, &mut writer, NeverStop).is_ok());
    assert_eq!(writer, b"");
}

#[test]
fn test_copy_until_begin() {
    let mut reader = BytesSource::new(b"foobar".to_vec());
    let mut writer: Vec<u8> = vec![];

    assert!(copy_until(&mut reader, &mut writer, AlwaysStop).is_ok());
    assert_eq!(writer, b"");
}

#[test]
fn test_copy_until_end() {
    let mut reader = BytesSource::new(b"foobar".to_vec());
    let mut writer: Vec<u8> = vec![];

    assert!(copy_until(&mut reader, &mut writer, NeverStop).is_ok());
    assert_eq!(writer, b"foobar");
}

#[test]
fn test_copy_until_specific_size() {
    let limit = 4 * 1024 * 1024;

    let mut reader = RepeatSource::new(0x42);
    let mut writer: Vec<u8> = vec![];

    // This should verify that copying eventually stops after the condition
    // is met since the reader is infinite.
    assert!(copy_until(&mut reader, &mut writer, SinkLenAbove { limit }).is_ok());

    assert!(writer.iter().all(|item| *item == 0x42));
    assert!(writer.len() > limit);
}

#[test]
fn test_copy_until_overshoots_at_most_one_buffer() {
    let limit = 4 * 1024 * 1024;

    let mut reader = RepeatSource::new(0x42);
    let mut writer: Vec<u8> = vec![];

    assert!(copy_until(&mut reader, &mut writer, SinkLenAbove { limit }).is_ok());
    assert!(writer.len() > limit);
    assert!(writer.len() <= limit + streamcopy::DEFAULT_BUF_SIZE);
}

#[test]
fn test_copy_until_size_limit_not_reached() {
    let mut reader = BytesSource::new(b"short".to_vec());
    let mut writer: Vec<u8> = vec![];

    // The source runs out before the sink ever exceeds the limit: the
    // copy still ends successfully, by exhaustion.
    assert!(copy_until(&mut reader, &mut writer, SinkLenAbove { limit: 100 }).is_ok());
    assert_eq!(writer, b"short");
}

#[test]
fn test_copy_until_retries_interrupted() {
    let script = vec![
        ReadStep::Give(7),
        ReadStep::Interrupt,
        ReadStep::Interrupt,
        ReadStep::Give(8),
    ];
    let mut reader = ScriptedSource::new(script);
    let mut writer: Vec<u8> = vec![];

    assert!(copy_until(&mut reader, &mut writer, NeverStop).is_ok());
    assert_eq!(writer, [7, 8]);
}

#[test]
fn test_copy_until_propagates_read_error() {
    let script = vec![
        ReadStep::Give(1),
        ReadStep::Give(2),
        ReadStep::Fail,
        ReadStep::Give(3),
    ];
    let mut reader = ScriptedSource::new(script);
    let mut writer: Vec<u8> = vec![];

    assert_eq!(
        copy_until(&mut reader, &mut writer, NeverStop),
        Err(IoError::Failed)
    );
    // Whatever was written before the error stays in the sink, and the
    // byte after the failing step is never read.
    assert_eq!(writer, [1, 2]);
    assert_eq!(reader.pos, 3);
}

#[test]
fn test_copy_until_propagates_write_error() {
    let mut reader = BytesSource::new(b"xy".to_vec());
    let mut writer = RejectingSink;

    assert_eq!(
        copy_until(&mut reader, &mut writer, NeverStop),
        Err(IoError::Failed)
    );
}

#[test]
fn test_copy_until_immediate_stop_reads_nothing() {
    let mut reader = ScriptedSource::new(vec![ReadStep::Fail]);
    let mut writer: Vec<u8> = vec![];

    assert!(copy_until(&mut reader, &mut writer, AlwaysStop).is_ok());
    assert_eq!(writer, b"");
    assert_eq!(reader.pos, 0);
}

#[test]
fn test_scripted_source_interrupts_then_ends() {
    let mut reader = ScriptedSource::new(vec![ReadStep::Interrupt, ReadStep::Give(5)]);
    let mut buf = vec![0u8; 4];

    assert_eq!(reader.read(&mut buf), Err(IoError::Interrupted));
    assert_eq!(reader.read(&mut buf), Ok(1));
    assert_eq!(buf[0], 5);
    assert_eq!(reader.read(&mut buf), Ok(0));
}

#[test]
fn test_repeat_source_fills_buffer() {
    let mut reader = RepeatSource::new(0x42);
    let mut buf = vec![0u8; 4];

    assert_eq!(reader.read(&mut buf), Ok(4));
    assert_eq!(buf, [0x42, 0x42, 0x42, 0x42]);
}

#[test]
fn test_vec_sink_accepts_all() {
    let mut writer: Vec<u8> = vec![];

    assert!(writer.write_all(b"abc").is_ok());
    assert!(writer.write_all(b"").is_ok());
    assert!(writer.write_all(b"de").is_ok());
    assert_eq!(writer, b"abcde");
    assert_eq!(writer.byte_len(), 5);
}

#[test]
fn test_iter_reader_reassembles_chunks() {
    let chunks = vec![b"fo".to_vec(), b"oba".to_vec(), b"r".to_vec()];
    let mut reader = IterReader::new(VecChunks::new(chunks));
    let mut buf = vec![0u8; 2];
    let mut total: Vec<u8> = vec![];

    // Each read copies from at most one chunk, so a read stops at a chunk
    // boundary even when the buffer has room left; the bytes reassembled
    // across all reads are exactly the concatenated chunks.
    assert_eq!(reader.read(&mut buf), Ok(2));
    assert_eq!(buf, b"fo");
    total.extend_from_slice(&buf[..2]);
    assert_eq!(reader.read(&mut buf), Ok(2));
    assert_eq!(buf, b"ob");
    total.extend_from_slice(&buf[..2]);
    assert_eq!(reader.read(&mut buf), Ok(1));
    assert_eq!(buf[0], b'a');
    total.extend_from_slice(&buf[..1]);
    assert_eq!(reader.read(&mut buf), Ok(1));
    assert_eq!(buf[0], b'r');
    total.extend_from_slice(&buf[..1]);
    assert_eq!(reader.read(&mut buf), Ok(0));
    assert_eq!(total, b"foobar");
}

#[test]
fn test_iter_reader_empty_sequence() {
    let mut reader = IterReader::new(VecChunks::new(vec![]));
    let mut buf = vec![0u8; 8];

    assert_eq!(reader.read(&mut buf), Ok(0));
}

#[test]
fn test_iter_reader_skips_empty_chunk() {
    let chunks = vec![b"".to_vec(), b"ab".to_vec()];
    let mut reader = IterReader::new(VecChunks::new(chunks));
    let mut buf = vec![0u8; 8];

    // The empty chunk is skipped silently: the first read already hands
    // out "ab" instead of a spurious end-of-stream.
    assert_eq!(reader.read(&mut buf), Ok(2));
    assert_eq!(&buf[..2], b"ab");
    assert_eq!(reader.read(&mut buf), Ok(0));
}

#[test]
fn test_copy_until_from_iter_reader() {
    let chunks = vec![b"foo".to_vec(), b"".to_vec(), b"bar".to_vec()];
    let mut reader = IterReader::new(VecChunks::new(chunks));
    let mut writer: Vec<u8> = vec![];

    assert!(copy_until(&mut reader, &mut writer, NeverStop).is_ok());
    assert_eq!(writer, b"foobar");
}
