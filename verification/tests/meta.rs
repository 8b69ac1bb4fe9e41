use smol_epub::cache::{
    encode_cache_meta, parse_cache_meta, MAX_CACHE_CHAPTERS, META_FILE, META_MAX_SIZE,
};

fn encoded(epub_size: u32, name_hash: u32, sizes: &[u32]) -> Vec<u8> {
    let mut buf = vec![0xEE; META_MAX_SIZE];
    let n = encode_cache_meta(epub_size, name_hash, sizes, &mut buf);
    assert!(buf[n..].iter().all(|b| *b == 0xEE));
    buf.truncate(n);
    buf
}

#[test]
fn constants() {
    assert_eq!(MAX_CACHE_CHAPTERS, 256);
    assert_eq!(META_MAX_SIZE, 1040);
    assert_eq!(META_FILE, "META.BIN");
}

#[test]
fn encode_layout() {
    let bytes = encoded(0x0102_0304, 0xA1B2_C3D4, &[0x11, 0xFFEE_DDCC]);
    assert_eq!(
        bytes,
        vec![
            0x43, 0x50, 0x4C, 0x50, 1, 2, 0, 0, 0x04, 0x03, 0x02, 0x01, 0xD4, 0xC3, 0xB2, 0xA1,
            0x11, 0, 0, 0, 0xCC, 0xDD, 0xEE, 0xFF,
        ]
    );
}

#[test]
fn encode_leaves_the_rest_of_the_buffer() {
    let mut buf = [0xAB; 32];
    assert_eq!(encode_cache_meta(1, 2, &[3], &mut buf), 20);
    assert_eq!(&buf[20..], &[0xAB; 12]);
}

#[test]
fn parse_inverts_encode() {
    for n in [0usize, 1, 2, 17, 254, 255, 256] {
        let sizes: Vec<u32> = (0..n as u32).map(|i| i.wrapping_mul(0x0101_0107)).collect();
        let mut bytes = encoded(123, 456, &sizes);
        bytes.extend_from_slice(b"trailing bytes do not matter");
        let mut out = vec![77u32; n + 3];
        assert_eq!(parse_cache_meta(&bytes, 123, 456, n, &mut out), Ok(n));
        assert_eq!(&out[..n], &sizes[..]);
        assert_eq!(&out[n..], &[77, 77, 77]);
    }
}

#[test]
fn full_cache_is_parsed_back() {
    let mut buf = [0u8; META_MAX_SIZE];
    let n = encode_cache_meta(1, 2, &[7u32; 256], &mut buf);
    assert_eq!(n, META_MAX_SIZE);
    assert_eq!(buf[5], 0);
    let mut out = [0u32; 256];
    assert_eq!(parse_cache_meta(&buf[..n], 1, 2, 256, &mut out), Ok(256));
    assert_eq!(out, [7u32; 256]);
    assert_eq!(
        parse_cache_meta(&buf[..n], 1, 2, 256, &mut out[..255]),
        Err("cache: output slice too small")
    );
    assert_eq!(
        parse_cache_meta(&buf[..n - 1], 1, 2, 256, &mut out),
        Err("cache: chapter count mismatch")
    );
    assert_eq!(
        parse_cache_meta(&buf[..n], 1, 2, 255, &mut out),
        Err("cache: chapter count mismatch")
    );
}

#[test]
fn empty_book_is_not_a_full_one() {
    let bytes = encoded(1, 2, &[]);
    let mut out = [5u32; 256];
    assert_eq!(parse_cache_meta(&bytes, 1, 2, 0, &mut out), Ok(0));
    assert_eq!(
        parse_cache_meta(&bytes, 1, 2, 256, &mut out),
        Err("cache: chapter count mismatch")
    );
    assert_eq!(out, [5u32; 256]);
}

#[test]
fn oversized_book_is_refused() {
    let bytes = encoded(1, 2, &[3u32; 257]);
    let mut out = [0u32; 300];
    assert_eq!(
        parse_cache_meta(&bytes, 1, 2, 257, &mut out),
        Err("cache: chapter count mismatch")
    );
}

#[test]
fn chapters_beyond_the_limit_are_left_out() {
    let sizes: Vec<u32> = (0..300).collect();
    let bytes = encoded(1, 2, &sizes);
    assert_eq!(bytes.len(), META_MAX_SIZE);
    assert_eq!(&bytes[1036..], &[255, 0, 0, 0]);
}

#[test]
fn spare_bytes_are_ignored() {
    let mut bytes = encoded(1, 2, &[9]);
    bytes[6] = 0xFF;
    bytes[7] = 0xFF;
    let mut out = [0u32; 1];
    assert_eq!(parse_cache_meta(&bytes, 1, 2, 1, &mut out), Ok(1));
    assert_eq!(out, [9]);
}

#[test]
fn each_error_has_its_input() {
    let good = encoded(1, 2, &[9, 10]);
    let mut out = [5u32; 2];
    assert_eq!(parse_cache_meta(&[], 1, 2, 2, &mut out), Err("cache: meta too short"));
    assert_eq!(parse_cache_meta(&good[..15], 1, 2, 2, &mut out), Err("cache: meta too short"));
    let mut bad = good.clone();
    bad[3] ^= 1;
    assert_eq!(parse_cache_meta(&bad, 1, 2, 2, &mut out), Err("cache: bad magic"));
    let mut bad = good.clone();
    bad[4] = 2;
    assert_eq!(parse_cache_meta(&bad, 1, 2, 2, &mut out), Err("cache: version mismatch"));
    assert_eq!(parse_cache_meta(&good, 3, 2, 2, &mut out), Err("cache: epub size changed"));
    assert_eq!(parse_cache_meta(&good, 1, 3, 2, &mut out), Err("cache: epub hash changed"));
    assert_eq!(parse_cache_meta(&good, 1, 2, 3, &mut out), Err("cache: chapter count mismatch"));
    assert_eq!(parse_cache_meta(&good[..23], 1, 2, 2, &mut out), Err("cache: meta truncated"));
    assert_eq!(
        parse_cache_meta(&good, 1, 2, 2, &mut out[..1]),
        Err("cache: output slice too small")
    );
    assert_eq!(out, [5, 5]);
}

#[test]
fn first_difference_is_reported() {
    let good = encoded(1, 2, &[9, 10]);
    let mut out = [0u32; 2];
    assert_eq!(parse_cache_meta(&good, 7, 7, 7, &mut out), Err("cache: epub size changed"));
    assert_eq!(parse_cache_meta(&good, 1, 7, 7, &mut out), Err("cache: epub hash changed"));
    assert_eq!(parse_cache_meta(&good, 1, 2, 7, &mut out), Err("cache: chapter count mismatch"));
}
