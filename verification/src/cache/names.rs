//! Names of the files and directories of the cache, and the hash they are made from.
use vstd::prelude::*;
use vstd::arithmetic::div_mod::*;
use vstd::arithmetic::power::*;
use vstd::utf8::*;

verus! {

/// One round of FNV-1a: mix in a byte, then multiply modulo 2^32.
pub open spec fn fnv1a_round(hash: u32, byte: u8) -> u32 {
    (((hash ^ (byte as u32)) * 0x0100_0193) % 0x1_0000_0000) as u32
}

/// The 32-bit FNV-1a hash of `data`.
pub open spec fn fnv1a_hash(data: Seq<u8>) -> u32
    decreases data.len(),
{
    if data.len() == 0 {
        0x811c_9dc5
    } else {
        fnv1a_round(fnv1a_hash(data.drop_last()), data.last())
    }
}

/// The ASCII code of a digit; digits above nine are upper-case letters.
pub open spec fn digit_char(d: nat) -> u8 {
    if d < 10 {
        (0x30 + d) as u8
    } else {
        (0x41 + d - 10) as u8
    }
}

/// The `n` lowest digits of `v` in the given base, as ASCII, highest first.
pub open spec fn digits(v: nat, base: nat, n: nat) -> Seq<u8>
    decreases n,
{
    if n == 0 {
        Seq::empty()
    } else {
        digits(v / base, base, (n - 1) as nat).push(digit_char(v % base))
    }
}

/// The directory name of a hash: `_` and seven hexadecimal digits.
pub open spec fn dir_name(hash: u32) -> Seq<u8> {
    seq![0x5Fu8] + digits(hash as nat, 16, 7)
}

/// The file name of a chapter: `CH`, three decimal digits, `.TXT`.
pub open spec fn chapter_name(idx: u16) -> Seq<u8> {
    seq![0x43u8, 0x48] + digits(idx as nat, 10, 3) + seq![0x2Eu8, 0x54, 0x58, 0x54]
}

/// The text that `bytes` encode, or `fallback` if they are not UTF-8.
pub open spec fn text_or(bytes: Seq<u8>, fallback: Seq<char>) -> Seq<char> {
    if valid_utf8(bytes) {
        decode_utf8(bytes)
    } else {
        fallback
    }
}

/// The bytes as characters with the same codes.
pub open spec fn as_chars(bytes: Seq<u8>) -> Seq<char> {
    Seq::new(bytes.len(), |i: int| bytes[i] as char)
}

/// `core::str::Utf8Error`, carried through unread.
#[verifier::external_type_specification]
#[verifier::external_body]
pub struct ExUtf8Error(core::str::Utf8Error);

/// `core::str::from_utf8` succeeds on UTF-8 and on nothing else, and then gives
/// the text that the bytes encode. Nothing is said of the error.
pub assume_specification[ core::str::from_utf8 ](v: &[u8]) -> (r: Result<
    &str,
    core::str::Utf8Error,
>)
    ensures
        r is Ok <==> valid_utf8(v@),
        r matches Ok(s) ==> s@ == decode_utf8(v@),
;

/// Compute the FNV-1a hash of `data`.
pub fn fnv1a(data: &[u8]) -> (hash: u32)
    ensures
        hash == fnv1a_hash(data@),
{
    let mut h: u32 = 0x811c_9dc5;
    let mut i: usize = 0;
    while i < data.len()
        invariant
            i <= data@.len(),
            h == fnv1a_hash(data@.take(i as int)),
        decreases data@.len() - i,
    {
        assert(data@.take(i + 1).drop_last() =~= data@.take(i as int));
        h = h ^ (data[i] as u32);
        h = h.wrapping_mul(0x0100_0193);
        i = i + 1;
    }
    assert(data@.take(i as int) =~= data@);
    h
}

/// Generate an 8.3-safe cache directory name from a hash.
///
/// Format: `_` followed by 7 upper-case hex digits of the lower 28 bits.
pub fn dir_name_for_hash(name_hash: u32) -> (name: [u8; 8])
    ensures
        name@ == dir_name(name_hash),
{
    let mut buf: [u8; 8] = [0x5F; 8];
    let mut h: u32 = name_hash;
    let mut i: usize = 0;
    while i < 7
        invariant
            i <= 7,
            buf@[0] == 0x5F,
            digits(name_hash as nat, 16, 7) =~= digits(h as nat, 16, (7 - i) as nat)
                + buf@.subrange(8 - i, 8),
        decreases 7 - i,
    {
        let nibble: u8 = (h % 16) as u8;
        let ghost before = buf@;
        let d: u8 = if nibble < 10 {
            0x30 + nibble
        } else {
            0x41 + nibble - 10
        };
        buf[7 - i] = d;
        proof {
            assert(buf@.subrange(7 - i, 8) =~= seq![d] + before.subrange(8 - i, 8));
        }
        h = h / 16;
        i = i + 1;
    }
    assert(buf@ =~= seq![0x5Fu8] + buf@.subrange(1, 8));
    buf
}

/// Interpret an 8-byte directory name buffer as text.
pub fn dir_name_str(buf: &[u8; 8]) -> (name: &str)
    ensures
        name@ == text_or(buf@, "_0000000"@),
{
    match core::str::from_utf8(buf.as_slice()) {
        Ok(s) => s,
        Err(_) => "_0000000",
    }
}

/// Generate an 8.3-safe chapter filename: `CH000.TXT`, `CH001.TXT` and so on. The index
/// has at most three digits.
pub fn chapter_file_name(idx: u16) -> (name: [u8; 9])
    requires
        idx < 1000,
    ensures
        name@ == chapter_name(idx),
{
    let mut n: [u8; 9] = [0x43, 0x48, 0x30, 0x30, 0x30, 0x2E, 0x54, 0x58, 0x54];
    n[2] = 0x30 + ((idx / 100) % 10) as u8;
    n[3] = 0x30 + ((idx / 10) % 10) as u8;
    n[4] = 0x30 + (idx % 10) as u8;
    proof {
        reveal_with_fuel(digits, 4);
        assert(n@ =~= chapter_name(idx));
    }
    n
}

/// Interpret a 9-byte chapter filename buffer as text.
pub fn chapter_file_str(buf: &[u8; 9]) -> (name: &str)
    ensures
        name@ == text_or(buf@, "CH000.TXT"@),
{
    match core::str::from_utf8(buf.as_slice()) {
        Ok(s) => s,
        Err(_) => "CH000.TXT",
    }
}

/// Bytes below 128 are UTF-8, and decode to the characters with the same codes.
proof fn lemma_ascii_text(bytes: Seq<u8>)
    requires
        forall|i: int| 0 <= i < bytes.len() ==> #[trigger] bytes[i] < 0x80,
    ensures
        valid_utf8(bytes),
        decode_utf8(bytes) == as_chars(bytes),
{
    let chars = as_chars(bytes);
    assert(is_ascii_chars(chars));
    is_ascii_chars_encode_utf8(chars);
    assert(encode_utf8(chars) =~= bytes) by {
        assert forall|i: int| 0 <= i < bytes.len() implies encode_utf8(chars)[i] == bytes[i] by {
            assert(chars[i] as u8 == encode_utf8(chars)[i]);
        }
    }
    encode_utf8_valid_utf8(chars);
    encode_utf8_decode_utf8(chars);
}

/// Digits are `0` to `9` or `A` to `Z`, and there are as many as were asked for.
proof fn lemma_digits_shape(v: nat, base: nat, n: nat)
    requires
        1 <= base <= 36,
    ensures
        digits(v, base, n).len() == n,
        forall|i: int|
            0 <= i < n ==> {
                let c = #[trigger] digits(v, base, n)[i];
                0x30 <= c <= 0x39 || 0x41 <= c < 0x41 + base - 10
            },
    decreases n,
{
    if n > 0 {
        lemma_digits_shape(v / base, base, (n - 1) as nat);
        assert(0 <= v % base < base) by (nonlinear_arith)
            requires
                base >= 1,
        ;
    }
}

/// Two numbers have the same `n` lowest digits exactly if they agree modulo `base^n`.
proof fn lemma_digits_injective(v: nat, w: nat, base: nat, n: nat)
    requires
        2 <= base <= 36,
    ensures
        digits(v, base, n) == digits(w, base, n) <==> v as int % pow(base as int, n) == w as int
            % pow(base as int, n),
    decreases n,
{
    let b = base as int;
    reveal(pow);
    if n > 0 {
        let m = (n - 1) as nat;
        let z = pow(b, m);
        lemma_pow_positive(b, m);
        lemma_digits_injective(v / base, w / base, base, m);
        lemma_mod_breakdown(v as int, b, z);
        lemma_mod_breakdown(w as int, b, z);
        assert(pow(b, n) == b * z);
        let (vh, wh) = ((v as int / b) % z, (w as int / b) % z);
        let (vl, wl) = (v as int % b, w as int % b);
        assert(b * vh + vl == b * wh + wl <==> vh == wh && vl == wl) by (nonlinear_arith)
            requires
                b >= 2,
                0 <= vl < b,
                0 <= wl < b,
        ;
        let dv = digits(v, base, n);
        let dw = digits(w, base, n);
        assert(dv.drop_last() =~= digits(v / base, base, m));
        assert(dw.drop_last() =~= digits(w / base, base, m));
        assert(dv.last() == digit_char(v % base));
        assert(dw.last() == digit_char(w % base));
        assert(digit_char(v % base) == digit_char(w % base) <==> v % base == w % base);
    } else {
        assert(pow(b, 0) == 1);
    }
}

/// Hashes share a directory exactly if their lower 28 bits agree.
pub proof fn law_dir_name_is_lower_28_bits(a: u32, b: u32)
    ensures
        dir_name(a) == dir_name(b) <==> a % 0x1000_0000 == b % 0x1000_0000,
{
    lemma_digits_injective(a as nat, b as nat, 16, 7);
    assert(pow(16, 7) == 0x1000_0000) by {
        reveal_with_fuel(pow, 8);
    }
    let (da, db) = (digits(a as nat, 16, 7), digits(b as nat, 16, 7));
    assert(dir_name(a).skip(1) =~= da);
    assert(dir_name(b).skip(1) =~= db);
}

/// A directory name has eight bytes: `_`, then digits and the letters `A` to `F`.
/// It is valid text, so reading it back as text never takes the fallback.
pub proof fn law_dir_name_is_safe_text(hash: u32, fallback: Seq<char>)
    ensures
        dir_name(hash).len() == 8,
        dir_name(hash)[0] == 0x5F,
        forall|i: int|
            1 <= i < 8 ==> {
                let c = #[trigger] dir_name(hash)[i];
                0x30 <= c <= 0x39 || 0x41 <= c <= 0x46
            },
        text_or(dir_name(hash), fallback) == as_chars(dir_name(hash)),
{
    lemma_digits_shape(hash as nat, 16, 7);
    let d = digits(hash as nat, 16, 7);
    assert forall|i: int| 1 <= i < 8 implies {
        let c = #[trigger] dir_name(hash)[i];
        0x30 <= c <= 0x39 || 0x41 <= c <= 0x46
    } by {
        assert(dir_name(hash)[i] == d[i - 1]);
    }
    lemma_ascii_text(dir_name(hash));
}

/// Different chapters have different file names.
pub proof fn law_chapter_names_distinct(i: u16, j: u16)
    requires
        i < 1000,
        j < 1000,
    ensures
        chapter_name(i) == chapter_name(j) <==> i == j,
{
    lemma_digits_injective(i as nat, j as nat, 10, 3);
    assert(pow(10, 3) == 1000) by {
        reveal_with_fuel(pow, 4);
    }
    lemma_digits_shape(i as nat, 10, 3);
    lemma_digits_shape(j as nat, 10, 3);
    assert(chapter_name(i).subrange(2, 5) =~= digits(i as nat, 10, 3));
    assert(chapter_name(j).subrange(2, 5) =~= digits(j as nat, 10, 3));
}

/// A chapter file name has five bytes of name, all digits and letters, then `.TXT`.
/// It is valid text, so reading it back as text never takes the fallback.
pub proof fn law_chapter_name_is_safe_text(idx: u16, fallback: Seq<char>)
    ensures
        chapter_name(idx).len() == 9,
        chapter_name(idx).take(2) == seq![0x43u8, 0x48],
        forall|i: int| 2 <= i < 5 ==> 0x30 <= #[trigger] chapter_name(idx)[i] <= 0x39,
        chapter_name(idx).skip(5) == seq![0x2Eu8, 0x54, 0x58, 0x54],
        text_or(chapter_name(idx), fallback) == as_chars(chapter_name(idx)),
{
    lemma_digits_shape(idx as nat, 10, 3);
    let name = chapter_name(idx);
    assert forall|i: int| 2 <= i < 5 implies 0x30 <= #[trigger] name[i] <= 0x39 by {
        assert(name[i] == digits(idx as nat, 10, 3)[i - 2]);
    }
    lemma_ascii_text(name);
}

/// Data that hash alike still hash alike when the same bytes are appended to both.
pub proof fn law_fnv1a_extends(a: Seq<u8>, b: Seq<u8>, tail: Seq<u8>)
    requires
        fnv1a_hash(a) == fnv1a_hash(b),
    ensures
        fnv1a_hash(a + tail) == fnv1a_hash(b + tail),
    decreases tail.len(),
{
    if tail.len() == 0 {
        assert(a + tail =~= a);
        assert(b + tail =~= b);
    } else {
        law_fnv1a_extends(a, b, tail.drop_last());
        assert((a + tail).drop_last() =~= a + tail.drop_last());
        assert((b + tail).drop_last() =~= b + tail.drop_last());
    }
}

/// The hash of no data is the offset basis, and every further byte, whatever its value,
/// is mixed in by an exclusive or and a multiplication modulo 2^32.
pub proof fn law_fnv1a_mixes_every_byte(data: Seq<u8>, byte: u8)
    ensures
        fnv1a_hash(Seq::<u8>::empty()) == 0x811c_9dc5,
        fnv1a_hash(data.push(byte)) == (fnv1a_hash(data) ^ (byte as u32)) * 0x0100_0193
            % 0x1_0000_0000,
{
    assert(data.push(byte).drop_last() =~= data);
}

/// Multiplication by the prime can be undone modulo 2^32.
proof fn lemma_prime_is_invertible(x: u32, y: u32)
    requires
        x * 0x0100_0193 % 0x1_0000_0000 == y * 0x0100_0193 % 0x1_0000_0000,
    ensures
        x == y,
{
    let (m, p, q) = (0x1_0000_0000int, 0x0100_0193int, 0x359c_449bint);
    lemma_mul_mod_noop_left(x * p, q, m);
    lemma_mul_mod_noop_left(y * p, q, m);
    assert(x * p * q == m * (3513497 * x) + x);
    assert(y * p * q == m * (3513497 * y) + y);
    lemma_mod_multiples_vanish(3513497 * x, x as int, m);
    lemma_mod_multiples_vanish(3513497 * y, y as int, m);
}

/// Data of the same length that differ in exactly one byte have different hashes.
pub proof fn law_fnv1a_tells_one_byte(data: Seq<u8>, at: int, byte: u8)
    requires
        0 <= at < data.len(),
        byte != data[at],
    ensures
        fnv1a_hash(data) != fnv1a_hash(data.update(at, byte)),
    decreases data.len(),
{
    let other = data.update(at, byte);
    let (a, b) = (fnv1a_hash(data.drop_last()), fnv1a_hash(other.drop_last()));
    let (c, d) = (data.last() as u32, other.last() as u32);
    assert(data.drop_last().push(data.last()) =~= data);
    assert(other.drop_last().push(other.last()) =~= other);
    law_fnv1a_mixes_every_byte(data.drop_last(), data.last());
    law_fnv1a_mixes_every_byte(other.drop_last(), other.last());
    if at == data.len() - 1 {
        assert(data.drop_last() =~= other.drop_last());
        assert(a ^ c == a ^ d ==> c == d) by (bit_vector);
    } else {
        law_fnv1a_tells_one_byte(data.drop_last(), at, byte);
        assert(data.drop_last().update(at, byte) =~= other.drop_last());
        assert(a ^ c == b ^ c ==> a == b) by (bit_vector);
    }
    if fnv1a_hash(data) == fnv1a_hash(other) {
        lemma_prime_is_invertible(a ^ c, b ^ d);
    }
}

/// The hexadecimal digit at a place, counted from the end.
proof fn lemma_digit_at(v: nat, n: nat, i: nat)
    requires
        i < n,
    ensures
        digits(v, 16, n).len() == n,
        digits(v, 16, n)[n - 1 - i] == digit_char((v as int / pow(16, i) % 16) as nat),
    decreases n,
{
    lemma_digits_shape(v, 16, n);
    lemma_digits_shape(v / 16, 16, (n - 1) as nat);
    lemma_pow_positive(16, i);
    reveal(pow);
    if i > 0 {
        let j = (i - 1) as nat;
        lemma_digit_at(v / 16, (n - 1) as nat, j);
        lemma_pow_positive(16, j);
        lemma_div_denominator(v as int, 16, pow(16, j));
        assert(digits(v, 16, n)[n - 1 - i] == digits(v / 16, 16, (n - 1) as nat)[n - 1 - i]);
    } else {
        assert(pow(16, 0) == 1);
    }
}

/// Behind the `_`, the byte at each place is the upper-case hexadecimal digit that the
/// hash has at that place, the lowest one last.
pub proof fn law_dir_name_is_hexadecimal(hash: u32)
    ensures
        dir_name(hash).len() == 8,
        dir_name(hash)[0] == '_' as u8,
        ({
            let shown = |i: int, digit: u32|
                dir_name(hash)[i] == if digit < 10 {
                    '0' as u8 + digit
                } else {
                    'A' as u8 + (digit - 10)
                };
            &&& shown(1, hash / 0x100_0000 % 16)
            &&& shown(2, hash / 0x10_0000 % 16)
            &&& shown(3, hash / 0x1_0000 % 16)
            &&& shown(4, hash / 0x1000 % 16)
            &&& shown(5, hash / 0x100 % 16)
            &&& shown(6, hash / 0x10 % 16)
            &&& shown(7, hash % 16)
        }),
{
    let v = hash as nat;
    lemma_digits_shape(v, 16, 7);
    let d = digits(v, 16, 7);
    lemma_digit_at(v, 7, 0);
    lemma_digit_at(v, 7, 1);
    lemma_digit_at(v, 7, 2);
    lemma_digit_at(v, 7, 3);
    lemma_digit_at(v, 7, 4);
    lemma_digit_at(v, 7, 5);
    lemma_digit_at(v, 7, 6);
    assert(pow(16, 0) == 1 && pow(16, 1) == 0x10 && pow(16, 2) == 0x100 && pow(16, 3) == 0x1000
        && pow(16, 4) == 0x1_0000 && pow(16, 5) == 0x10_0000 && pow(16, 6) == 0x100_0000) by {
        reveal_with_fuel(pow, 7);
    }
    assert forall|i: int| 0 <= i < 7 implies dir_name(hash)[1 + i] == d[i] by {}
    assert(dir_name(hash)[1] == d[0] && dir_name(hash)[2] == d[1] && dir_name(hash)[3] == d[2]);
    assert(dir_name(hash)[4] == d[3] && dir_name(hash)[5] == d[4] && dir_name(hash)[6] == d[5]);
    assert(dir_name(hash)[7] == d[6]);
}

/// A chapter file name is `CH`, the index as three decimal digits, and `.TXT`.
pub proof fn law_chapter_name_is_decimal(idx: u16)
    requires
        idx < 1000,
    ensures
        ({
            let name = chapter_name(idx);
            &&& name.len() == 9
            &&& name[0] == 'C' as u8
            &&& name[1] == 'H' as u8
            &&& '0' as u8 <= name[2] <= '9' as u8
            &&& '0' as u8 <= name[3] <= '9' as u8
            &&& '0' as u8 <= name[4] <= '9' as u8
            &&& 100 * (name[2] - '0' as u8) + 10 * (name[3] - '0' as u8) + (name[4] - '0' as u8)
                == idx
            &&& name[5] == '.' as u8
            &&& name[6] == 'T' as u8
            &&& name[7] == 'X' as u8
            &&& name[8] == 'T' as u8
        }),
{
    reveal_with_fuel(digits, 4);
}

/// Bytes that encode text are read as that text, all others as the fallback.
pub proof fn law_text_is_decoded(bytes: Seq<u8>, text: Seq<char>, fallback: Seq<char>)
    ensures
        text_or(encode_utf8(text), fallback) == text,
        !valid_utf8(bytes) ==> text_or(bytes, fallback) == fallback,
        valid_utf8(bytes) ==> encode_utf8(text_or(bytes, fallback)) == bytes,
{
    encode_utf8_valid_utf8(text);
    encode_utf8_decode_utf8(text);
    if valid_utf8(bytes) {
        decode_utf8_encode_utf8(bytes);
    }
}

/// The text of a directory name and of a chapter file name has the characters with the
/// codes of their bytes.
pub proof fn law_names_are_read_character_by_character(
    hash: u32,
    idx: u16,
    fallback: Seq<char>,
    i: int,
)
    ensures
        text_or(dir_name(hash), fallback).len() == 8,
        0 <= i < 8 ==> text_or(dir_name(hash), fallback)[i] as int == dir_name(hash)[i] as int,
        text_or(chapter_name(idx), fallback).len() == 9,
        0 <= i < 9 ==> text_or(chapter_name(idx), fallback)[i] as int == chapter_name(
            idx,
        )[i] as int,
{
    law_dir_name_is_safe_text(hash, fallback);
    law_chapter_name_is_safe_text(idx, fallback);
    lemma_digits_shape(idx as nat, 10, 3);
    assert forall|j: int| 2 <= j < 5 implies chapter_name(idx)[j] <= 0x39 by {
        assert(chapter_name(idx)[j] == digits(idx as nat, 10, 3)[j - 2]);
    }
}

} // verus!
