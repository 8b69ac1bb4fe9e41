use miniz_oxide::deflate::compress_to_vec;
use smol_epub::cache::inflate::{InflateStatus, FLAG_HAS_MORE_INPUT, WINDOW_SIZE};
use smol_epub::cache::progress::{FLUSH_THRESHOLD, READ_BUF_SIZE, STRIP_BUF_SIZE};
use smol_epub::cache::{allocation_outcome, stream_strip_entry, Buffers, EntryStream, Step};
use smol_epub::zip::{local_header_data_skip, ZipEntry, METHOD_DEFLATE, METHOD_STORED};

/// How the text stripper of a test behaves.
#[derive(Clone, Copy)]
enum Stripper {
    /// Give back what is taken, at most so many bytes at once.
    Copy(usize),
    /// Leave out everything between angle brackets.
    Tags,
    /// Neither take nor give anything.
    Idle,
    /// Copy, but take nothing while text is held back.
    Hesitant,
}

struct Outcome {
    result: Result<u32, &'static str>,
    chunks: Vec<Vec<u8>>,
    reads: Vec<(u32, usize)>,
}

/// Run a stream over an archive in memory.
fn drive(
    entry: ZipEntry,
    archive: &[u8],
    piece: usize,
    stripper: Stripper,
    fail_write: Option<usize>,
) -> Outcome {
    let mut stream = stream_strip_entry(&entry, entry.local_offset);
    let mut chunks: Vec<Vec<u8>> = Vec::new();
    let mut reads: Vec<(u32, usize)> = Vec::new();
    let mut in_tag = false;
    loop {
        match stream.step() {
            Step::ReadHeader => {
                assert_eq!(stream.read_len(), 30);
                let at = stream.read_offset() as usize;
                if at > archive.len() {
                    stream.read_failed();
                    continue;
                }
                let mut header = [0u8; 30];
                let n = 30.min(archive.len() - at);
                header[..n].copy_from_slice(&archive[at..at + n]);
                stream.header_read(&header);
            }
            Step::Allocate => stream.allocate(),
            Step::Read => {
                let at = stream.read_offset() as usize;
                let n = stream.read_len().min(piece).min(archive.len() - at);
                reads.push((at as u32, stream.read_len()));
                stream.data_read(&archive[at..at + n]);
            }
            Step::Inflate => stream.inflate(),
            Step::Feed => {
                assert!(stream.room() > 128);
                let input = stream.input().to_vec();
                let held = stream.pending().len();
                let mut text: Vec<u8> = Vec::new();
                let mut taken = 0;
                match stripper {
                    Stripper::Copy(most) => {
                        taken = input.len().min(stream.room()).min(most);
                        text.extend_from_slice(&input[..taken]);
                    }
                    Stripper::Tags => {
                        while taken < input.len() && text.len() < stream.room() {
                            let b = input[taken];
                            if b == b'<' {
                                in_tag = true;
                            } else if b == b'>' && in_tag {
                                in_tag = false;
                            } else if !in_tag {
                                text.push(b);
                            }
                            taken += 1;
                        }
                    }
                    Stripper::Idle => {}
                    Stripper::Hesitant => {
                        if held == 0 {
                            taken = input.len().min(10);
                            text.extend_from_slice(&input[..taken]);
                        }
                    }
                }
                stream.fed(taken, &text);
            }
            Step::Flush => {
                if fail_write == Some(chunks.len()) {
                    stream.write_failed("disk full");
                    continue;
                }
                chunks.push(stream.pending().to_vec());
                stream.written();
            }
            Step::Finish => {
                let text: &[u8] = if matches!(stripper, Stripper::Tags) { b"\n" } else { b"" };
                stream.finished(text);
            }
            Step::Done => {
                return Outcome { result: stream.outcome(), chunks, reads };
            }
        }
    }
}

/// A local header with a name and an extra field, behind some other bytes.
fn archive(data: &[u8]) -> Vec<u8> {
    let mut a = vec![0xAA; 100];
    a.extend_from_slice(&[0x50, 0x4B, 3, 4]);
    a.extend_from_slice(&[0; 22]);
    a.extend_from_slice(&[5, 0, 2, 0]);
    a.extend_from_slice(b"a.txt");
    a.extend_from_slice(&[9, 9]);
    a.extend_from_slice(data);
    a
}

fn stored(data: &[u8]) -> (ZipEntry, Vec<u8>) {
    let n = data.len() as u32;
    let entry =
        ZipEntry { method: METHOD_STORED, comp_size: n, uncomp_size: n, local_offset: 100 };
    (entry, archive(data))
}

fn deflated(data: &[u8], level: u8) -> (ZipEntry, Vec<u8>) {
    let packed = compress_to_vec(data, level);
    let entry = ZipEntry {
        method: METHOD_DEFLATE,
        comp_size: packed.len() as u32,
        uncomp_size: data.len() as u32,
        local_offset: 100,
    };
    (entry, archive(&packed))
}

fn prose(n: usize) -> Vec<u8> {
    let mut out = Vec::new();
    let mut x: u32 = 12345;
    while out.len() < n {
        x = x.wrapping_mul(1664525).wrapping_add(1013904223);
        out.extend_from_slice(format!("word{} ", x >> 20).as_bytes());
    }
    out.truncate(n);
    out
}

fn noise(n: usize) -> Vec<u8> {
    let mut x: u32 = 1;
    (0..n)
        .map(|_| {
            x = x.wrapping_mul(1664525).wrapping_add(1013904223);
            (x >> 24) as u8
        })
        .collect()
}

#[test]
fn header_skip() {
    let mut header = [0u8; 30];
    header[..4].copy_from_slice(&[0x50, 0x4B, 3, 4]);
    assert_eq!(local_header_data_skip(&header), Ok(30));
    header[26] = 0x34;
    header[27] = 0x12;
    header[28] = 1;
    assert_eq!(local_header_data_skip(&header), Ok(30 + 0x1234 + 1));
    header[26..].copy_from_slice(&[0xFF; 4]);
    assert_eq!(local_header_data_skip(&header), Ok(30 + 2 * 0xFFFF));
    header[3] = 5;
    assert_eq!(local_header_data_skip(&header), Err("zip: bad local header signature"));
}

#[test]
fn buffer_sizes() {
    assert_eq!(READ_BUF_SIZE, 4096);
    assert_eq!(STRIP_BUF_SIZE, 4096);
    assert_eq!(FLUSH_THRESHOLD, 3968);
    assert_eq!(WINDOW_SIZE, 32768);
    assert_eq!(
        FLAG_HAS_MORE_INPUT,
        miniz_oxide::inflate::core::inflate_flags::TINFL_FLAG_HAS_MORE_INPUT
    );
}

#[test]
fn stored_entry_is_passed_on() {
    for n in [1usize, 100, 4095, 4096, 4097, 20000] {
        let data = prose(n);
        let (entry, a) = stored(&data);
        let o = drive(entry, &a, usize::MAX, Stripper::Copy(usize::MAX), None);
        assert_eq!(o.result, Ok(n as u32));
        assert_eq!(o.chunks.concat(), data);
        assert!(o.chunks.iter().all(|c| !c.is_empty() && c.len() <= STRIP_BUF_SIZE));
    }
}

#[test]
fn stored_entry_is_read_in_order() {
    let (entry, a) = stored(&prose(10000));
    let o = drive(entry, &a, usize::MAX, Stripper::Copy(usize::MAX), None);
    assert_eq!(o.reads, vec![(137, 4096), (4233, 4096), (8329, 1808)]);
    let o = drive(entry, &a, 3000, Stripper::Copy(usize::MAX), None);
    assert_eq!(o.reads, vec![(137, 4096), (3137, 4096), (6137, 4000), (9137, 1000)]);
}

#[test]
fn empty_stored_entry_succeeds_without_text() {
    let (entry, a) = stored(b"");
    let o = drive(entry, &a, usize::MAX, Stripper::Copy(usize::MAX), None);
    assert_eq!(o.result, Ok(0));
    assert!(o.chunks.is_empty());
    assert!(o.reads.is_empty());
}

#[test]
fn text_is_flushed_from_the_threshold_on() {
    let (entry, a) = stored(&prose(8000));
    let o = drive(entry, &a, 100, Stripper::Copy(usize::MAX), None);
    let lens: Vec<usize> = o.chunks.iter().map(|c| c.len()).collect();
    assert_eq!(lens, vec![4000, 4000]);
    let o = drive(entry, &a, usize::MAX, Stripper::Copy(1), None);
    let lens: Vec<usize> = o.chunks.iter().map(|c| c.len()).collect();
    assert_eq!(lens, vec![3968, 3968, 64]);
}

#[test]
fn trailing_text_is_written() {
    let (entry, a) = stored(b"<p>Hello, <b>world</b></p>");
    let o = drive(entry, &a, 7, Stripper::Tags, None);
    assert_eq!(o.result, Ok(13));
    assert_eq!(o.chunks.concat(), b"Hello, world\n");
}

#[test]
fn idle_stripper_is_passed() {
    let (entry, a) = stored(&prose(5000));
    let o = drive(entry, &a, usize::MAX, Stripper::Idle, None);
    assert_eq!(o.result, Ok(0));
    assert!(o.chunks.is_empty());
}

#[test]
fn hesitant_stripper_gets_its_text_written_first() {
    let data = prose(35);
    let (entry, a) = stored(&data);
    let o = drive(entry, &a, usize::MAX, Stripper::Hesitant, None);
    assert_eq!(o.result, Ok(35));
    let lens: Vec<usize> = o.chunks.iter().map(|c| c.len()).collect();
    assert_eq!(lens, vec![10, 10, 10, 5]);
    assert_eq!(o.chunks.concat(), data);
}

#[test]
fn compressed_entry_is_passed_on() {
    for data in [prose(1), prose(3000), prose(40000), prose(200000), noise(100000), vec![65; 32768]]
    {
        for level in [0u8, 1, 6, 9] {
            for piece in [1000, usize::MAX] {
                let (entry, a) = deflated(&data, level);
                let o = drive(entry, &a, piece, Stripper::Copy(usize::MAX), None);
                assert_eq!(o.result, Ok(data.len() as u32));
                assert!(o.chunks.concat() == data);
            }
        }
    }
}

#[test]
fn compressed_entry_is_not_read_beyond_its_end() {
    let data = noise(9000);
    let (entry, mut a) = deflated(&data, 6);
    a.extend_from_slice(&[0; 5000]);
    let o = drive(entry, &a, usize::MAX, Stripper::Copy(usize::MAX), None);
    assert_eq!(o.result, Ok(9000));
    let mut at = 137;
    for (offset, len) in &o.reads {
        assert_eq!(*offset, at);
        at += *len as u32;
    }
    assert_eq!(at, 137 + entry.comp_size);
}

#[test]
fn compressed_markup_is_stripped() {
    let mut data = Vec::new();
    let mut text = Vec::new();
    for i in 0..5000 {
        data.extend_from_slice(format!("<p class=\"x\">line {}</p>", i).as_bytes());
        text.extend_from_slice(format!("line {}", i).as_bytes());
    }
    text.push(b'\n');
    let (entry, a) = deflated(&data, 6);
    let o = drive(entry, &a, 512, Stripper::Tags, None);
    assert_eq!(o.result, Ok(text.len() as u32));
    assert!(o.chunks.concat() == text);
}

#[test]
fn header_errors() {
    let (entry, mut a) = stored(b"abc");
    let far = ZipEntry { local_offset: 100000, ..entry };
    let o = drive(far, &a, usize::MAX, Stripper::Copy(1), None);
    assert_eq!(o.result, Err("cache: read local header failed"));
    let o = drive(ZipEntry { local_offset: 0, ..entry }, &a, 1, Stripper::Copy(1), None);
    assert_eq!(o.result, Err("zip: bad local header signature"));
    a.truncate(102);
    let o = drive(entry, &a, 1, Stripper::Copy(1), None);
    assert_eq!(o.result, Err("zip: bad local header signature"));
}

#[test]
fn unknown_method_is_refused() {
    let (entry, a) = stored(b"abc");
    for method in [1u16, 7, 9, 12, 99, 0xFFFF] {
        let o = drive(ZipEntry { method, ..entry }, &a, 1, Stripper::Copy(1), None);
        assert_eq!(o.result, Err("cache: unsupported compression method"));
        assert!(o.reads.is_empty());
    }
}

/// A stream whose header has been read.
fn opened(entry: ZipEntry, archive: &[u8]) -> EntryStream {
    let mut stream = stream_strip_entry(&entry, entry.local_offset);
    let mut header = [0u8; 30];
    header.copy_from_slice(&archive[100..130]);
    stream.header_read(&header);
    stream
}

#[test]
fn stored_read_errors() {
    let (entry, a) = stored(b"abcdef");
    let mut stream = opened(entry, &a);
    assert!(stream.step() == Step::Read);
    stream.read_failed();
    assert_eq!(stream.outcome(), Err("cache: read failed (stored)"));

    let o = drive(entry, &a[..a.len() - 1], usize::MAX, Stripper::Copy(usize::MAX), None);
    assert_eq!(o.result, Err("cache: unexpected EOF in stored entry"));
    assert!(o.chunks.is_empty());
}

#[test]
fn compressed_read_error() {
    let (entry, a) = deflated(&prose(100), 6);
    let mut stream = opened(entry, &a);
    stream.allocate();
    assert!(stream.step() == Step::Read);
    stream.read_failed();
    assert_eq!(stream.outcome(), Err("cache: read failed during deflate"));
}

#[test]
fn empty_compressed_entry() {
    let (entry, a) = deflated(&prose(100), 6);
    let o = drive(ZipEntry { comp_size: 0, ..entry }, &a, 1, Stripper::Copy(1), None);
    assert_eq!(o.result, Err("cache: empty deflate stream"));
    let o = drive(entry, &a[..137], usize::MAX, Stripper::Copy(1), None);
    assert_eq!(o.result, Err("cache: empty deflate stream"));
}

#[test]
fn broken_compressed_entry() {
    let (entry, mut a) = deflated(&prose(100), 6);
    a[137] = 0x07;
    let o = drive(entry, &a, usize::MAX, Stripper::Copy(usize::MAX), None);
    assert_eq!(o.result, Err("cache: deflate decompression error"));
}

#[test]
fn cut_compressed_entry_fails_after_its_text() {
    let data = prose(50000);
    let (entry, a) = deflated(&data, 6);
    let cut = ZipEntry { comp_size: entry.comp_size - 10, ..entry };
    let o = drive(cut, &a, usize::MAX, Stripper::Copy(usize::MAX), None);
    assert_eq!(o.result, Err("cache: deflate decompression error"));
    let text = o.chunks.concat();
    assert!(text.len() > 40000);
    assert!(data.starts_with(&text));
}

#[test]
fn write_error_is_returned() {
    let (entry, a) = stored(&prose(20000));
    for k in 0..3 {
        let o = drive(entry, &a, usize::MAX, Stripper::Copy(usize::MAX), Some(k));
        assert_eq!(o.result, Err("disk full"));
        assert_eq!(o.chunks.len(), k);
    }
}

/// Write the lowest bits of a value, lowest first.
fn put_bits(out: &mut Vec<bool>, value: u32, n: u32) {
    for i in 0..n {
        out.push((value >> i) & 1 == 1);
    }
}

/// A stream with fixed codes: `literals` times the letter A, then `matches` copies of
/// 258 bytes each.
fn run_of_letters(literals: usize, matches: usize) -> Vec<u8> {
    let mut bits: Vec<bool> = Vec::new();
    put_bits(&mut bits, 0b011, 3);
    let code = 0x30u8 + b'A';
    for _ in 0..literals {
        put_bits(&mut bits, code.reverse_bits() as u32, 8);
    }
    for _ in 0..matches {
        put_bits(&mut bits, 0xC5u8.reverse_bits() as u32, 8);
        put_bits(&mut bits, 0, 5);
    }
    put_bits(&mut bits, 0, 7);
    let mut out = vec![0u8; (bits.len() + 7) / 8];
    for (i, bit) in bits.iter().enumerate() {
        if *bit {
            out[i / 8] |= 1 << (i % 8);
        }
    }
    out
}

#[test]
fn output_goes_on_after_the_last_input() {
    for (literals, matches) in [(300usize, 126usize), (301, 126), (1, 127), (1, 128), (300, 254)] {
        let packed = run_of_letters(literals, matches);
        let len = literals + 258 * matches;
        let entry = ZipEntry {
            method: METHOD_DEFLATE,
            comp_size: packed.len() as u32,
            uncomp_size: len as u32,
            local_offset: 100,
        };
        for piece in [1, 100, usize::MAX] {
            let o = drive(entry, &archive(&packed), piece, Stripper::Copy(usize::MAX), None);
            assert_eq!(o.result, Ok(len as u32));
            assert!(o.chunks.concat() == vec![b'A'; len]);
        }
    }
}

#[test]
fn full_window_without_input_is_drained() {
    let entry =
        ZipEntry { method: METHOD_DEFLATE, comp_size: 100, uncomp_size: 1, local_offset: 100 };
    let mut stream = opened(entry, &archive(b""));
    stream.allocate();
    stream.data_read(&[0; 100]);
    stream.inflated(InflateStatus::HasMoreOutput, 100, WINDOW_SIZE);
    stream.fed(WINDOW_SIZE, b"");
    assert!(stream.step() == Step::Inflate);
    stream.inflated(InflateStatus::Done, 0, 5);
    assert_eq!(stream.input().len(), 5);
    stream.fed(5, b"");
    assert!(stream.step() == Step::Finish);
}

#[test]
fn stream_cut_at_a_full_window_is_empty() {
    let mut packed = vec![1, 0xFF, 0xFF, 0, 0];
    packed.extend_from_slice(&vec![b'x'; WINDOW_SIZE]);
    let entry = ZipEntry {
        method: METHOD_DEFLATE,
        comp_size: packed.len() as u32,
        uncomp_size: 65535,
        local_offset: 100,
    };
    let o = drive(entry, &archive(&packed), usize::MAX, Stripper::Copy(usize::MAX), None);
    assert_eq!(o.result, Err("cache: empty deflate stream"));
    assert!(o.chunks.concat().len() <= WINDOW_SIZE);
}

#[test]
fn drained_decompressor_that_fails_is_empty() {
    for status in [InflateStatus::FailedCannotMakeProgress, InflateStatus::Failed] {
        let entry =
            ZipEntry { method: METHOD_DEFLATE, comp_size: 9, uncomp_size: 1, local_offset: 100 };
        let mut stream = opened(entry, &archive(b""));
        stream.allocate();
        stream.data_read(&[0; 9]);
        stream.inflated(InflateStatus::HasMoreOutput, 9, WINDOW_SIZE);
        stream.fed(WINDOW_SIZE, b"");
        stream.inflated(status, 0, 3);
        stream.fed(3, b"");
        assert_eq!(stream.outcome(), Err("cache: empty deflate stream"));
    }
}

#[test]
fn every_cut_stream_fails() {
    for data in [prose(700), noise(300)] {
        let (entry, a) = deflated(&data, 6);
        for comp_size in 0..entry.comp_size {
            for piece in [1, usize::MAX] {
                let cut = ZipEntry { comp_size, ..entry };
                let o = drive(cut, &a, piece, Stripper::Copy(usize::MAX), None);
                assert!(o.result.is_err());
            }
            let end = 137 + comp_size as usize;
            let o = drive(entry, &a[..end], 64, Stripper::Copy(usize::MAX), None);
            assert!(o.result.is_err());
        }
    }
}

#[test]
fn neither_reads_nor_compression_change_the_text() {
    let mut data = Vec::new();
    for i in 0..4000 {
        data.extend_from_slice(format!("<p>Line <i>{}</i></p>", i * i).as_bytes());
    }
    let (entry, a) = stored(&data);
    let expected = drive(entry, &a, usize::MAX, Stripper::Tags, None);
    assert!(expected.result.is_ok());
    let (packed, b) = deflated(&data, 6);
    for piece in [1, 7, 4095, usize::MAX] {
        for (entry, archive) in [(entry, &a), (packed, &b)] {
            let o = drive(entry, archive, piece, Stripper::Tags, None);
            assert_eq!(o.result, expected.result);
            assert!(o.chunks.concat() == expected.chunks.concat());
        }
    }
}

#[test]
fn first_failed_allocation_is_reported() {
    for rest in [(false, false), (false, true), (true, false), (true, true)] {
        assert_eq!(
            allocation_outcome(false, rest.0, rest.1),
            Err("cache: OOM for decompressor")
        );
    }
    assert_eq!(allocation_outcome(true, false, true), Err("cache: OOM for window"));
    assert_eq!(allocation_outcome(true, false, false), Err("cache: OOM for window"));
    assert_eq!(allocation_outcome(true, true, false), Err("cache: OOM for read buffer"));
    assert_eq!(allocation_outcome(true, true, true), Ok(()));
}

#[test]
fn missing_memory_is_reported() {
    let (entry, a) = deflated(&prose(100), 6);
    for message in
        ["cache: OOM for decompressor", "cache: OOM for window", "cache: OOM for read buffer"]
    {
        let mut stream = opened(entry, &a);
        assert!(stream.step() == Step::Allocate);
        stream.allocated(Err(message));
        assert!(stream.step() == Step::Done);
        assert_eq!(stream.outcome(), Err(message));
    }
    let mut stream = opened(entry, &a);
    stream.allocated(Buffers::allocate());
    assert!(stream.step() == Step::Read);
}

/// A stream that is about to decompress, with 8192 bytes announced.
fn about_to_inflate(first_read: usize) -> EntryStream {
    let entry =
        ZipEntry { method: METHOD_DEFLATE, comp_size: 8192, uncomp_size: 1, local_offset: 100 };
    let mut stream = opened(entry, &archive(b""));
    stream.allocate();
    stream.data_read(&vec![0; first_read]);
    assert!(stream.step() == Step::Inflate);
    stream
}

#[test]
fn decompressor_without_progress_is_stuck() {
    let mut stream = about_to_inflate(4096);
    stream.inflated(InflateStatus::NeedsMoreInput, 0, 0);
    assert_eq!(stream.outcome(), Err("cache: deflate stream stuck"));

    let mut stream = about_to_inflate(4095);
    stream.inflated(InflateStatus::NeedsMoreInput, 0, 0);
    assert!(stream.step() == Step::Read);
    assert_eq!(stream.read_len(), 1);
}

#[test]
fn stream_without_end_is_truncated() {
    let mut stream = about_to_inflate(4096);
    stream.inflated(InflateStatus::NeedsMoreInput, 4096, 0);
    assert!(stream.step() == Step::Read);
    stream.data_read(&[1; 4096]);
    stream.inflated(InflateStatus::NeedsMoreInput, 4096, 3);
    assert!(stream.step() == Step::Feed);
    stream.fed(3, b"");
    assert_eq!(stream.outcome(), Err("cache: truncated deflate stream"));
}

#[test]
fn buffers_do_not_grow_with_the_entry() {
    let (entry, a) = deflated(&prose(300000), 6);
    let mut stream = opened(entry, &a);
    let mut steps = 0;
    while stream.step() != Step::Done {
        assert!(stream.input().len() <= WINDOW_SIZE);
        assert!(stream.pending().len() <= STRIP_BUF_SIZE);
        match stream.step() {
            Step::Allocate => stream.allocate(),
            Step::Read => {
                assert!(stream.read_len() <= READ_BUF_SIZE);
                let at = stream.read_offset() as usize;
                let n = stream.read_len();
                stream.data_read(&a[at..at + n]);
            }
            Step::Inflate => stream.inflate(),
            Step::Feed => {
                let n = stream.input().len().min(stream.room());
                let text = stream.input()[..n].to_vec();
                stream.fed(n, &text);
            }
            Step::Flush => stream.written(),
            _ => stream.finished(b""),
        }
        steps += 1;
    }
    assert!(steps > 100 && steps < 1000);
    assert_eq!(stream.outcome(), Ok(300000));
    assert_eq!(stream.total_written(), 300000);
}

#[test]
fn full_window_starts_over() {
    let mut stream = about_to_inflate(4096);
    stream.inflated(InflateStatus::HasMoreOutput, 0, WINDOW_SIZE);
    assert_eq!(stream.input().len(), WINDOW_SIZE);
    stream.fed(WINDOW_SIZE, b"");
    assert!(stream.step() == Step::Inflate);
    stream.inflated(InflateStatus::Done, 4096, WINDOW_SIZE);
    stream.fed(WINDOW_SIZE, b"x");
    assert!(stream.step() == Step::Finish);
}

#[test]
fn failed_decompressor_statuses() {
    for status in [
        InflateStatus::FailedCannotMakeProgress,
        InflateStatus::BadParam,
        InflateStatus::Adler32Mismatch,
        InflateStatus::Failed,
    ] {
        let mut stream = about_to_inflate(10);
        stream.inflated(status, 10, 2);
        assert!(stream.step() == Step::Feed);
        stream.fed(2, b"ab");
        assert_eq!(stream.outcome(), Err("cache: deflate decompression error"));
        assert_eq!(stream.total_written(), 0);
    }
}
