//! The metadata file of a cached book.
//!
//! Sixteen bytes of header, then the size of each chapter as a little-endian `u32`:
//!
//! | bytes | content |
//! |-------|---------|
//! | 0-3   | magic number |
//! | 4     | version |
//! | 5     | number of chapters; zero for none, and for 256 |
//! | 6-7   | zero, ignored when read |
//! | 8-11  | size of the EPUB file |
//! | 12-15 | hash of its name |
use vstd::prelude::*;

verus! {

/// First bytes of a metadata file, as a number.
pub const CACHE_MAGIC: u32 = 0x504C_5043;

/// Version of the format.
pub const CACHE_VERSION: u8 = 1;

/// Size of the header.
pub const META_HEADER: usize = 16;

/// Maximum number of chapters that can be tracked in a single cache.
pub const MAX_CACHE_CHAPTERS: usize = 256;

/// Maximum byte size of a `META.BIN` file (header + one `u32` per chapter).
pub const META_MAX_SIZE: usize = META_HEADER + 4 * MAX_CACHE_CHAPTERS;

/// Filename used for the cache metadata file.
pub const META_FILE: &'static str = "META.BIN";

/// A number as four bytes, lowest first.
pub open spec fn le_bytes(x: u32) -> Seq<u8> {
    seq![
        (x % 0x100) as u8,
        (x / 0x100 % 0x100) as u8,
        (x / 0x1_0000 % 0x100) as u8,
        (x / 0x100_0000) as u8,
    ]
}

/// The little-endian number at `at`.
pub open spec fn le_u32(bytes: Seq<u8>, at: int) -> u32 {
    (bytes[at] + 0x100 * bytes[at + 1] + 0x1_0000 * bytes[at + 2] + 0x100_0000 * bytes[at
        + 3]) as u32
}

/// How many of `n` chapters are recorded.
pub open spec fn recorded(n: nat) -> nat {
    if n < MAX_CACHE_CHAPTERS {
        n
    } else {
        MAX_CACHE_CHAPTERS as nat
    }
}

/// Numbers as bytes, one after the other.
pub open spec fn sizes_bytes(sizes: Seq<u32>) -> Seq<u8>
    decreases sizes.len(),
{
    if sizes.len() == 0 {
        Seq::empty()
    } else {
        sizes_bytes(sizes.drop_last()) + le_bytes(sizes.last())
    }
}

/// The header of a metadata file for `count` chapters.
pub open spec fn header_bytes(epub_size: u32, name_hash: u32, count: nat) -> Seq<u8> {
    le_bytes(CACHE_MAGIC) + seq![CACHE_VERSION, (count % 0x100) as u8, 0u8, 0u8] + le_bytes(
        epub_size,
    ) + le_bytes(name_hash)
}

/// The metadata file of a book.
pub open spec fn meta_bytes(epub_size: u32, name_hash: u32, sizes: Seq<u32>) -> Seq<u8> {
    let kept = sizes.take(recorded(sizes.len()) as int);
    header_bytes(epub_size, name_hash, kept.len()) + sizes_bytes(kept)
}

/// The chapter sizes that follow the header.
pub open spec fn stored_sizes(data: Seq<u8>, count: nat) -> Seq<u32> {
    Seq::new(count, |i: int| le_u32(data, META_HEADER + 4 * i))
}

/// How many chapters a metadata file tells of. A count of zero is that of an empty book
/// and of a full one: it is taken as full where a full one is expected and the sizes
/// are there.
pub open spec fn chapter_count(data: Seq<u8>, expected_chapters: nat) -> nat {
    if data[5] == 0 && expected_chapters == MAX_CACHE_CHAPTERS && data.len() >= META_MAX_SIZE {
        MAX_CACHE_CHAPTERS as nat
    } else {
        data[5] as nat
    }
}

/// Whether a metadata file belongs to the given book: the number of chapters, or what
/// is wrong with it. `room` is the number of sizes that can be taken.
pub open spec fn check_meta(
    data: Seq<u8>,
    epub_size: u32,
    name_hash: u32,
    expected_chapters: nat,
    room: nat,
) -> Result<nat, Seq<char>> {
    let count = chapter_count(data, expected_chapters);
    if data.len() < META_HEADER {
        Err("cache: meta too short"@)
    } else if le_u32(data, 0) != CACHE_MAGIC {
        Err("cache: bad magic"@)
    } else if data[4] != CACHE_VERSION {
        Err("cache: version mismatch"@)
    } else if le_u32(data, 8) != epub_size {
        Err("cache: epub size changed"@)
    } else if le_u32(data, 12) != name_hash {
        Err("cache: epub hash changed"@)
    } else if count != expected_chapters {
        Err("cache: chapter count mismatch"@)
    } else if data.len() < META_HEADER + 4 * count {
        Err("cache: meta truncated"@)
    } else if room < count {
        Err("cache: output slice too small"@)
    } else {
        Ok(count)
    }
}

/// `bytes` with `part` written over them from `at` on.
pub open spec fn overwritten<T>(bytes: Seq<T>, at: int, part: Seq<T>) -> Seq<T> {
    bytes.take(at) + part + bytes.skip(at + part.len())
}

/// Write a number as four bytes, lowest first.
fn put_u32(buf: &mut [u8], at: usize, x: u32)
    requires
        at + 4 <= old(buf)@.len(),
    ensures
        final(buf)@ == overwritten(old(buf)@, at as int, le_bytes(x)),
{
    buf[at] = (x % 0x100) as u8;
    buf[at + 1] = (x / 0x100 % 0x100) as u8;
    buf[at + 2] = (x / 0x1_0000 % 0x100) as u8;
    buf[at + 3] = (x / 0x100_0000) as u8;
    assert(buf@ =~= overwritten(old(buf)@, at as int, le_bytes(x)));
}

/// Read a little-endian number.
fn get_u32(data: &[u8], at: usize) -> (x: u32)
    requires
        at + 4 <= data@.len(),
    ensures
        x == le_u32(data@, at as int),
{
    data[at] as u32 + 0x100 * (data[at + 1] as u32) + 0x1_0000 * (data[at + 2] as u32)
        + 0x100_0000 * (data[at + 3] as u32)
}

/// Encode cache metadata into `buf`; returns the number of bytes written.
///
/// The metadata header stores a magic value, version, the EPUB file size,
/// a name hash, and a `u32` size for each cached chapter. Chapters beyond
/// [`MAX_CACHE_CHAPTERS`] are left out.
pub fn encode_cache_meta(
    epub_size: u32,
    name_hash: u32,
    chapter_sizes: &[u32],
    buf: &mut [u8],
) -> (total: usize)
    requires
        old(buf)@.len() >= META_HEADER + 4 * recorded(chapter_sizes@.len()),
    ensures
        total == META_HEADER + 4 * recorded(chapter_sizes@.len()),
        final(buf)@ == overwritten(
            old(buf)@,
            0,
            meta_bytes(epub_size, name_hash, chapter_sizes@),
        ),
{
    let count: usize = if chapter_sizes.len() < MAX_CACHE_CHAPTERS {
        chapter_sizes.len()
    } else {
        MAX_CACHE_CHAPTERS
    };
    let total: usize = META_HEADER + count * 4;
    let ghost header = header_bytes(epub_size, name_hash, count as nat);

    put_u32(buf, 0, CACHE_MAGIC);
    buf[4] = CACHE_VERSION;
    buf[5] = (count % 0x100) as u8;
    buf[6] = 0;
    buf[7] = 0;
    put_u32(buf, 8, epub_size);
    put_u32(buf, 12, name_hash);
    assert(buf@ =~= overwritten(old(buf)@, 0, header));

    let mut i: usize = 0;
    while i < count
        invariant
            i <= count,
            count <= chapter_sizes@.len(),
            count <= MAX_CACHE_CHAPTERS,
            header.len() == META_HEADER,
            sizes_bytes(chapter_sizes@.take(i as int)).len() == 4 * i,
            old(buf)@.len() >= META_HEADER + 4 * count,
            buf@.len() == old(buf)@.len(),
            buf@ == overwritten(
                old(buf)@,
                0,
                header + sizes_bytes(chapter_sizes@.take(i as int)),
            ),
        decreases count - i,
    {
        put_u32(buf, META_HEADER + i * 4, chapter_sizes[i]);
        proof {
            let done = chapter_sizes@.take(i as int);
            let more = chapter_sizes@.take(i + 1);
            assert(more.drop_last() =~= done);
            assert(more.last() == chapter_sizes@[i as int]);
            assert(buf@ =~= overwritten(old(buf)@, 0, header + sizes_bytes(more)));
        }
        i = i + 1;
    }
    total
}

/// Parse and validate a `META.BIN` blob.
///
/// On success, writes individual chapter sizes into `chapter_sizes_out`
/// and returns the number of chapters. Returns an error if the magic,
/// version, EPUB size, name hash, or chapter count do not match.
pub fn parse_cache_meta(
    data: &[u8],
    epub_size: u32,
    name_hash: u32,
    expected_chapters: usize,
    chapter_sizes_out: &mut [u32],
) -> (r: Result<usize, &'static str>)
    ensures
        match r {
            Ok(count) => {
                &&& check_meta(
                    data@,
                    epub_size,
                    name_hash,
                    expected_chapters as nat,
                    old(chapter_sizes_out)@.len(),
                ) == Ok::<nat, Seq<char>>(count as nat)
                &&& final(chapter_sizes_out)@ == overwritten(
                    old(chapter_sizes_out)@,
                    0,
                    stored_sizes(data@, count as nat),
                )
            },
            Err(message) => {
                &&& check_meta(
                    data@,
                    epub_size,
                    name_hash,
                    expected_chapters as nat,
                    old(chapter_sizes_out)@.len(),
                ) == Err::<nat, Seq<char>>(message@)
                &&& final(chapter_sizes_out)@ == old(chapter_sizes_out)@
            },
        },
{
    if data.len() < META_HEADER {
        return Err("cache: meta too short");
    }
    if get_u32(data, 0) != CACHE_MAGIC {
        return Err("cache: bad magic");
    }
    if data[4] != CACHE_VERSION {
        return Err("cache: version mismatch");
    }
    if get_u32(data, 8) != epub_size {
        return Err("cache: epub size changed");
    }
    if get_u32(data, 12) != name_hash {
        return Err("cache: epub hash changed");
    }
    let count: usize = if data[5] == 0 && expected_chapters == MAX_CACHE_CHAPTERS && data.len()
        >= META_MAX_SIZE {
        MAX_CACHE_CHAPTERS
    } else {
        data[5] as usize
    };
    if count != expected_chapters {
        return Err("cache: chapter count mismatch");
    }
    let needed: usize = META_HEADER + count * 4;
    if data.len() < needed {
        return Err("cache: meta truncated");
    }
    if chapter_sizes_out.len() < count {
        return Err("cache: output slice too small");
    }
    let mut i: usize = 0;
    while i < count
        invariant
            i <= count,
            count <= MAX_CACHE_CHAPTERS,
            data@.len() >= META_HEADER + 4 * count,
            chapter_sizes_out@.len() == old(chapter_sizes_out)@.len(),
            count <= chapter_sizes_out@.len(),
            chapter_sizes_out@ == overwritten(
                old(chapter_sizes_out)@,
                0,
                stored_sizes(data@, i as nat),
            ),
        decreases count - i,
    {
        chapter_sizes_out[i] = get_u32(data, META_HEADER + i * 4);
        i = i + 1;
        assert(chapter_sizes_out@ =~= overwritten(
            old(chapter_sizes_out)@,
            0,
            stored_sizes(data@, i as nat),
        ));
    }
    Ok(count)
}

/// A number is read back from its bytes.
proof fn lemma_le_round_trip(bytes: Seq<u8>, at: int, x: u32)
    requires
        0 <= at,
        at + 4 <= bytes.len(),
        bytes.subrange(at, at + 4) == le_bytes(x),
    ensures
        le_u32(bytes, at) == x,
{
    let part = bytes.subrange(at, at + 4);
    assert(part[0] == bytes[at] && part[1] == bytes[at + 1] && part[2] == bytes[at + 2] && part[3]
        == bytes[at + 3]);
}

/// Each number takes four bytes, and lies where its index says.
proof fn lemma_sizes_layout(sizes: Seq<u32>)
    ensures
        sizes_bytes(sizes).len() == 4 * sizes.len(),
        forall|i: int|
            0 <= i < sizes.len() ==> #[trigger] sizes_bytes(sizes).subrange(4 * i, 4 * i + 4)
                == le_bytes(sizes[i]),
    decreases sizes.len(),
{
    if sizes.len() > 0 {
        let rest = sizes.drop_last();
        lemma_sizes_layout(rest);
        assert forall|i: int| 0 <= i < sizes.len() implies #[trigger] sizes_bytes(sizes).subrange(
            4 * i,
            4 * i + 4,
        ) == le_bytes(sizes[i]) by {
            if i < rest.len() {
                assert(sizes_bytes(sizes).subrange(4 * i, 4 * i + 4) =~= sizes_bytes(
                    rest,
                ).subrange(4 * i, 4 * i + 4));
            } else {
                assert(sizes_bytes(sizes).subrange(4 * i, 4 * i + 4) =~= le_bytes(sizes[i]));
            }
        }
    }
}

/// The header fields of a metadata file, whatever follows it.
proof fn lemma_header_fields(epub_size: u32, name_hash: u32, sizes: Seq<u32>, tail: Seq<u8>)
    ensures
        ({
            let data = meta_bytes(epub_size, name_hash, sizes) + tail;
            &&& data.len() >= META_HEADER
            &&& le_u32(data, 0) == CACHE_MAGIC
            &&& data[4] == CACHE_VERSION
            &&& data[5] == recorded(sizes.len()) % 0x100
            &&& le_u32(data, 8) == epub_size
            &&& le_u32(data, 12) == name_hash
        }),
{
    let data = meta_bytes(epub_size, name_hash, sizes) + tail;
    assert(data.subrange(0, 4) =~= le_bytes(CACHE_MAGIC));
    assert(data.subrange(8, 12) =~= le_bytes(epub_size));
    assert(data.subrange(12, 16) =~= le_bytes(name_hash));
    lemma_le_round_trip(data, 0, CACHE_MAGIC);
    lemma_le_round_trip(data, 8, epub_size);
    lemma_le_round_trip(data, 12, name_hash);
}

/// A metadata file is never larger than [`META_MAX_SIZE`].
pub proof fn law_meta_fits(epub_size: u32, name_hash: u32, sizes: Seq<u32>)
    ensures
        meta_bytes(epub_size, name_hash, sizes).len() == META_HEADER + 4 * recorded(sizes.len()),
        meta_bytes(epub_size, name_hash, sizes).len() <= META_MAX_SIZE,
{
    lemma_sizes_layout(sizes.take(recorded(sizes.len()) as int));
}

/// What was encoded is parsed back, whatever lies behind it in the buffer, up to
/// [`MAX_CACHE_CHAPTERS`] chapters.
pub proof fn law_parse_inverts_encode(
    epub_size: u32,
    name_hash: u32,
    sizes: Seq<u32>,
    tail: Seq<u8>,
    room: nat,
)
    requires
        sizes.len() <= MAX_CACHE_CHAPTERS,
        room >= sizes.len(),
    ensures
        ({
            let data = meta_bytes(epub_size, name_hash, sizes) + tail;
            &&& check_meta(data, epub_size, name_hash, sizes.len(), room) == Ok::<nat, Seq<char>>(
                sizes.len(),
            )
            &&& stored_sizes(data, sizes.len()) == sizes
        }),
{
    let data = meta_bytes(epub_size, name_hash, sizes) + tail;
    lemma_header_fields(epub_size, name_hash, sizes, tail);
    lemma_sizes_layout(sizes);
    assert(sizes.take(sizes.len() as int) =~= sizes);
    assert forall|i: int| 0 <= i < sizes.len() implies stored_sizes(data, sizes.len())[i]
        == sizes[i] by {
        assert(data.subrange(META_HEADER + 4 * i, META_HEADER + 4 * i + 4) =~= sizes_bytes(
            sizes,
        ).subrange(4 * i, 4 * i + 4));
        lemma_le_round_trip(data, META_HEADER + 4 * i, sizes[i]);
    }
    assert(stored_sizes(data, sizes.len()) =~= sizes);
}

/// The metadata of a book that has changed since are refused, with the first
/// difference as the reason. The count byte does not tell an empty book from a full one:
/// the metadata of a full book pass for those of an empty one, and the metadata of an
/// empty book, if a full book's sizes could lie behind them, for those of a full one.
pub proof fn law_changed_book_is_refused(
    epub_size: u32,
    name_hash: u32,
    sizes: Seq<u32>,
    tail: Seq<u8>,
    now_size: u32,
    now_hash: u32,
    now_chapters: nat,
    room: nat,
)
    ensures
        ({
            let data = meta_bytes(epub_size, name_hash, sizes) + tail;
            let checked = check_meta(data, now_size, now_hash, now_chapters, room);
            &&& now_size != epub_size ==> checked == Err::<nat, Seq<char>>(
                "cache: epub size changed"@,
            )
            &&& now_size == epub_size && now_hash != name_hash ==> checked == Err::<
                nat,
                Seq<char>,
            >("cache: epub hash changed"@)
            &&& now_size == epub_size && now_hash == name_hash && now_chapters != recorded(
                sizes.len(),
            ) && !(recorded(sizes.len()) == MAX_CACHE_CHAPTERS && now_chapters == 0) && !(
            sizes.len() == 0 && now_chapters == MAX_CACHE_CHAPTERS && tail.len() >= 4
                * MAX_CACHE_CHAPTERS) ==> checked == Err::<nat, Seq<char>>("cache: chapter count mismatch"@)
        }),
{
    lemma_header_fields(epub_size, name_hash, sizes, tail);
    law_meta_fits(epub_size, name_hash, sizes);
}

/// A book with more than [`MAX_CACHE_CHAPTERS`] chapters is refused even if nothing has
/// changed: not all of them are recorded.
pub proof fn law_oversized_book_is_refused(
    epub_size: u32,
    name_hash: u32,
    sizes: Seq<u32>,
    tail: Seq<u8>,
    room: nat,
)
    requires
        sizes.len() > MAX_CACHE_CHAPTERS,
    ensures
        check_meta(
            meta_bytes(epub_size, name_hash, sizes) + tail,
            epub_size,
            name_hash,
            sizes.len(),
            room,
        ) == Err::<nat, Seq<char>>("cache: chapter count mismatch"@),
{
    lemma_header_fields(epub_size, name_hash, sizes, tail);
}

/// A metadata file that was cut short is refused. That of a full book no longer tells
/// its count then.
pub proof fn law_truncated_meta_is_refused(
    epub_size: u32,
    name_hash: u32,
    sizes: Seq<u32>,
    len: nat,
    room: nat,
)
    requires
        sizes.len() <= MAX_CACHE_CHAPTERS,
        len < meta_bytes(epub_size, name_hash, sizes).len(),
    ensures
        check_meta(
            meta_bytes(epub_size, name_hash, sizes).take(len as int),
            epub_size,
            name_hash,
            sizes.len(),
            room,
        ) == Err::<nat, Seq<char>>(
            if len < META_HEADER {
                "cache: meta too short"@
            } else if sizes.len() == MAX_CACHE_CHAPTERS {
                "cache: chapter count mismatch"@
            } else {
                "cache: meta truncated"@
            },
        ),
{
    let all = meta_bytes(epub_size, name_hash, sizes);
    lemma_header_fields(epub_size, name_hash, sizes, Seq::empty());
    assert(all + Seq::<u8>::empty() =~= all);
    law_meta_fits(epub_size, name_hash, sizes);
}

/// The two spare bytes of the header play no part.
pub proof fn law_spare_bytes_are_ignored(
    data: Seq<u8>,
    a: u8,
    b: u8,
    epub_size: u32,
    name_hash: u32,
    expected_chapters: nat,
    room: nat,
)
    requires
        data.len() >= META_HEADER,
    ensures
        check_meta(data.update(6, a).update(7, b), epub_size, name_hash, expected_chapters, room)
            == check_meta(data, epub_size, name_hash, expected_chapters, room),
        check_meta(data, epub_size, name_hash, expected_chapters, room) is Ok ==> stored_sizes(
            data.update(6, a).update(7, b),
            expected_chapters,
        ) == stored_sizes(data, expected_chapters),
{
    if check_meta(data, epub_size, name_hash, expected_chapters, room) is Ok {
        assert(stored_sizes(data.update(6, a).update(7, b), expected_chapters) =~= stored_sizes(
            data,
            expected_chapters,
        ));
    }
}

/// A number is four bytes, of which each counts 256 times as much as the one before it,
/// in both directions.
pub proof fn law_numbers_are_little_endian(x: u32, bytes: Seq<u8>, at: int)
    requires
        0 <= at,
        at + 4 <= bytes.len(),
    ensures
        ({
            let b = le_bytes(x);
            &&& b.len() == 4
            &&& b[0] + 256 * b[1] + 65536 * b[2] + 16777216 * b[3] == x
        }),
        le_u32(bytes, at) == bytes[at] + 256 * bytes[at + 1] + 65536 * bytes[at + 2] + 16777216
            * bytes[at + 3],
{
}

/// The constants of the format, and that all chapters are recorded, up to 256 of them.
pub proof fn law_meta_numbers(n: nat)
    ensures
        CACHE_MAGIC == 0x504C_5043,
        CACHE_VERSION == 1,
        META_HEADER == 16,
        MAX_CACHE_CHAPTERS == 256,
        META_MAX_SIZE == 16 + 4 * 256,
        META_FILE@ == "META.BIN"@,
        recorded(n) <= n,
        recorded(n) <= 256,
        recorded(n) == n || recorded(n) == 256,
{
}

/// The bytes of the header.
proof fn lemma_header_layout(epub_size: u32, name_hash: u32, sizes: Seq<u32>)
    ensures
        ({
            let file = meta_bytes(epub_size, name_hash, sizes);
            &&& file[0] == 0x43
            &&& file[1] == 0x50
            &&& file[2] == 0x4C
            &&& file[3] == 0x50
            &&& file[4] == 1
            &&& file[5] == recorded(sizes.len()) % 0x100
            &&& file[6] == 0
            &&& file[7] == 0
            &&& file[8] + 256 * file[9] + 65536 * file[10] + 16777216 * file[11] == epub_size
            &&& file[12] + 256 * file[13] + 65536 * file[14] + 16777216 * file[15] == name_hash
        }),
{
    let file = meta_bytes(epub_size, name_hash, sizes);
    let count = recorded(sizes.len());
    let header = header_bytes(epub_size, name_hash, count);
    let m = le_bytes(CACHE_MAGIC);
    assert(m[0] == 0x43 && m[1] == 0x50 && m[2] == 0x4C && m[3] == 0x50);
    assert(header.len() == 16);
    assert forall|i: int| 0 <= i < 16 implies file[i] == header[i] by {}
    assert(header[0] == m[0] && header[1] == m[1] && header[2] == m[2] && header[3] == m[3]);
    let (e, h) = (le_bytes(epub_size), le_bytes(name_hash));
    assert(header[8] == e[0] && header[9] == e[1] && header[10] == e[2] && header[11] == e[3]);
    assert(header[12] == h[0] && header[13] == h[1] && header[14] == h[2] && header[15] == h[3]);
    law_numbers_are_little_endian(epub_size, e, 0);
    law_numbers_are_little_endian(name_hash, h, 0);
}

/// The bytes of a chapter size.
proof fn lemma_size_layout(epub_size: u32, name_hash: u32, sizes: Seq<u32>, i: int)
    requires
        0 <= i < recorded(sizes.len()),
    ensures
        ({
            let file = meta_bytes(epub_size, name_hash, sizes);
            file[16 + 4 * i] + 256 * file[17 + 4 * i] + 65536 * file[18 + 4 * i] + 16777216
                * file[19 + 4 * i] == sizes[i]
        }),
{
    let file = meta_bytes(epub_size, name_hash, sizes);
    let kept = sizes.take(recorded(sizes.len()) as int);
    let body = sizes_bytes(kept);
    let header = header_bytes(epub_size, name_hash, kept.len());
    lemma_sizes_layout(kept);
    assert(header.len() == 16);
    assert(file == header + body);
    let part = body.subrange(4 * i, 4 * i + 4);
    let b = le_bytes(kept[i]);
    assert(part == b);
    assert(b[0] == body[4 * i] && b[1] == body[4 * i + 1] && b[2] == body[4 * i + 2] && b[3]
        == body[4 * i + 3]) by {
        assert(part[0] == body[4 * i] && part[1] == body[4 * i + 1]);
        assert(part[2] == body[4 * i + 2] && part[3] == body[4 * i + 3]);
    }
    assert(file[16 + 4 * i] == body[4 * i] && file[17 + 4 * i] == body[4 * i + 1]);
    assert(file[18 + 4 * i] == body[4 * i + 2] && file[19 + 4 * i] == body[4 * i + 3]);
    law_numbers_are_little_endian(kept[i], b, 0);
}

/// What lies where in a metadata file, byte by byte: `CPLP`, the version, the count of
/// the chapters that are recorded, of which there are at most 256, two zeros, and, each
/// as a number of four bytes with the lowest one first, the size of the book, the hash of
/// its name and the sizes of its chapters.
pub proof fn law_meta_layout(epub_size: u32, name_hash: u32, sizes: Seq<u32>)
    ensures
        ({
            let file = meta_bytes(epub_size, name_hash, sizes);
            let n = if sizes.len() < 256 {
                sizes.len() as int
            } else {
                256
            };
            &&& file.len() == 16 + 4 * n
            &&& file[0] == 'C' as u8
            &&& file[1] == 'P' as u8
            &&& file[2] == 'L' as u8
            &&& file[3] == 'P' as u8
            &&& file[4] == 1
            &&& file[5] == n % 256
            &&& file[6] == 0
            &&& file[7] == 0
            &&& file[8] + 256 * file[9] + 65536 * file[10] + 16777216 * file[11] == epub_size
            &&& file[12] + 256 * file[13] + 65536 * file[14] + 16777216 * file[15] == name_hash
            &&& forall|i: int|
                0 <= i < n ==> file[16 + 4 * i] + 256 * file[17 + 4 * i] + 65536 * file[18 + 4 * i]
                    + 16777216 * file[19 + 4 * i] == #[trigger] sizes[i]
        }),
{
    let file = meta_bytes(epub_size, name_hash, sizes);
    law_meta_fits(epub_size, name_hash, sizes);
    lemma_header_layout(epub_size, name_hash, sizes);
    assert forall|i: int| 0 <= i < recorded(sizes.len()) implies file[16 + 4 * i] + 256 * file[17
        + 4 * i] + 65536 * file[18 + 4 * i] + 16777216 * file[19 + 4 * i] == #[trigger] sizes[i] by {
        lemma_size_layout(epub_size, name_hash, sizes, i);
    }
}

/// Writing over a part changes that part and nothing else.
pub proof fn law_only_the_part_is_overwritten<T>(bytes: Seq<T>, at: int, part: Seq<T>, i: int)
    requires
        0 <= at,
        at + part.len() <= bytes.len(),
    ensures
        overwritten(bytes, at, part).len() == bytes.len(),
        at <= i < at + part.len() ==> overwritten(bytes, at, part)[i] == part[i - at],
        0 <= i < at || at + part.len() <= i < bytes.len() ==> overwritten(bytes, at, part)[i]
            == bytes[i],
{
}

/// What a metadata file must have to be accepted for a book, byte by byte, and that this
/// is enough. Its sizes are then the numbers behind the header.
pub proof fn law_meta_is_accepted_for_its_book(
    data: Seq<u8>,
    epub_size: u32,
    name_hash: u32,
    expected_chapters: nat,
    room: nat,
)
    ensures
        ({
            let checked = check_meta(data, epub_size, name_hash, expected_chapters, room);
            let size = data[8] + 256 * data[9] + 65536 * data[10] + 16777216 * data[11];
            let hash = data[12] + 256 * data[13] + 65536 * data[14] + 16777216 * data[15];
            let sizes = stored_sizes(data, expected_chapters);
            &&& checked is Ok <==> {
                &&& data.len() >= 16
                &&& data[0] == 'C' as u8 && data[1] == 'P' as u8
                &&& data[2] == 'L' as u8 && data[3] == 'P' as u8
                &&& data[4] == 1
                &&& size == epub_size
                &&& hash == name_hash
                &&& data[5] == expected_chapters || data[5] == 0 && expected_chapters == 256
                &&& data.len() >= 16 + 4 * expected_chapters
                &&& room >= expected_chapters
            }
            &&& checked matches Ok(count) ==> count == expected_chapters
            &&& checked is Ok ==> sizes.len() == expected_chapters && forall|i: int|
                0 <= i < expected_chapters ==> #[trigger] sizes[i] == data[16 + 4 * i] + 256
                    * data[17 + 4 * i] + 65536 * data[18 + 4 * i] + 16777216 * data[19 + 4 * i]
        }),
{
}

/// A metadata file that is refused is refused for what is first amiss with it.
pub proof fn law_meta_is_refused_for_a_reason(
    data: Seq<u8>,
    epub_size: u32,
    name_hash: u32,
    expected_chapters: nat,
    room: nat,
)
    ensures
        ({
            let checked = check_meta(data, epub_size, name_hash, expected_chapters, room);
            let refused = |message: Seq<char>| checked == Err::<nat, Seq<char>>(message);
            let named = data[0] == 'C' as u8 && data[1] == 'P' as u8 && data[2] == 'L' as u8
                && data[3] == 'P' as u8;
            let size = data[8] + 256 * data[9] + 65536 * data[10] + 16777216 * data[11];
            let hash = data[12] + 256 * data[13] + 65536 * data[14] + 16777216 * data[15];
            let full = data[5] == 0 && expected_chapters == 256 && data.len() >= 1040;
            let ours = data.len() >= 16 && named && data[4] == 1;
            let same = ours && size == epub_size && hash == name_hash;
            &&& data.len() < 16 ==> refused("cache: meta too short"@)
            &&& data.len() >= 16 && !named ==> refused("cache: bad magic"@)
            &&& data.len() >= 16 && named && data[4] != 1 ==> refused("cache: version mismatch"@)
            &&& ours && size != epub_size ==> refused("cache: epub size changed"@)
            &&& ours && size == epub_size && hash != name_hash ==> refused(
                "cache: epub hash changed"@,
            )
            &&& same && data[5] != expected_chapters && !full ==> refused(
                "cache: chapter count mismatch"@,
            )
            &&& same && data[5] == expected_chapters && data.len() < 16 + 4 * expected_chapters
                ==> refused("cache: meta truncated"@)
            &&& same && (data[5] == expected_chapters || full) && data.len() >= 16 + 4
                * expected_chapters && room < expected_chapters ==> refused(
                "cache: output slice too small"@,
            )
        }),
{
}

} // verus!
