//! The parts of a ZIP archive that the chapter pipeline reads.
use vstd::prelude::*;

verus! {

/// Compression method of an entry that is stored as it is.
pub const METHOD_STORED: u16 = 0;

/// Compression method of an entry that is a DEFLATE stream.
pub const METHOD_DEFLATE: u16 = 8;

/// Size of the fixed part of a local file header.
pub const LOCAL_HEADER_SIZE: usize = 30;

/// What the central directory says of one entry.
#[derive(Clone, Copy, Debug)]
pub struct ZipEntry {
    /// Compression method.
    pub method: u16,
    /// Size of the data in the archive.
    pub comp_size: u32,
    /// Size of the data once unpacked.
    pub uncomp_size: u32,
    /// Offset of the local file header in the archive.
    pub local_offset: u32,
}

/// The little-endian 16-bit number at `at`.
pub open spec fn le_u16(bytes: Seq<u8>, at: int) -> nat {
    (bytes[at] + 0x100 * bytes[at + 1]) as nat
}

/// How far the entry data lies behind the start of its local file header: the
/// fixed part, the file name and the extra field. `Err` without the signature
/// `PK\x03\x04`.
pub open spec fn data_skip(header: Seq<u8>) -> Result<nat, Seq<char>> {
    if header.take(4) == seq![0x50u8, 0x4B, 0x03, 0x04] {
        Ok(LOCAL_HEADER_SIZE as nat + le_u16(header, 26) + le_u16(header, 28))
    } else {
        Err("zip: bad local header signature"@)
    }
}

/// Number of bytes from the start of a local file header to the entry data.
pub fn local_header_data_skip(header: &[u8; 30]) -> (r: Result<u32, &'static str>)
    ensures
        match r {
            Ok(skip) => data_skip(header@) == Ok::<nat, Seq<char>>(skip as nat),
            Err(e) => data_skip(header@) == Err::<nat, Seq<char>>(e@),
        },
{
    if header[0] != 0x50 || header[1] != 0x4B || header[2] != 0x03 || header[3] != 0x04 {
        proof {
            let sig = seq![0x50u8, 0x4B, 0x03, 0x04];
            assert(sig[0] == 0x50 && sig[1] == 0x4B && sig[2] == 0x03 && sig[3] == 0x04);
            let t = header@.take(4);
            assert(t[0] == header@[0] && t[1] == header@[1] && t[2] == header@[2] && t[3]
                == header@[3]);
        }
        return Err("zip: bad local header signature");
    }
    assert(header@.take(4) =~= seq![0x50u8, 0x4B, 0x03, 0x04]);
    let name_len: u32 = header[26] as u32 + 0x100 * (header[27] as u32);
    let extra_len: u32 = header[28] as u32 + 0x100 * (header[29] as u32);
    Ok(30 + name_len + extra_len)
}

/// The numbers with which ZIP names the two methods, and the size of the fixed header.
pub proof fn law_zip_numbers()
    ensures
        METHOD_STORED == 0,
        METHOD_DEFLATE == 8,
        LOCAL_HEADER_SIZE == 30,
{
}

/// The data lie behind the fixed header, the file name and the extra field, whatever the
/// lengths that the header gives for them, two bytes each and the lower one first. A
/// header without its signature is refused, and no other.
pub proof fn law_data_lie_behind_the_header(header: Seq<u8>)
    requires
        header.len() == 30,
    ensures
        header[0] == 'P' as u8 && header[1] == 'K' as u8 && header[2] == 3 && header[3] == 4
            ==> data_skip(header) == Ok::<nat, Seq<char>>(
            (30 + (header[26] + 256 * header[27]) + (header[28] + 256 * header[29])) as nat,
        ),
        !(header[0] == 'P' as u8 && header[1] == 'K' as u8 && header[2] == 3 && header[3] == 4)
            ==> data_skip(header) == Err::<nat, Seq<char>>("zip: bad local header signature"@),
{
    let sig = seq![0x50u8, 0x4B, 0x03, 0x04];
    let start = header.take(4);
    assert(sig[0] == 0x50 && sig[1] == 0x4B && sig[2] == 0x03 && sig[3] == 0x04);
    assert(start[0] == header[0] && start[1] == header[1] && start[2] == header[2] && start[3]
        == header[3]);
    if header[0] == 0x50 && header[1] == 0x4B && header[2] == 3 && header[3] == 4 {
        assert(start =~= sig);
    }
}

} // verus!
