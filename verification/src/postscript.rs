//! The postscript: the last bytes of a file, from which all else is found.
use crate::file_format;
use crate::file_format::{ChecksumType, CompressionType};
use crate::le;
use vstd::prelude::*;

verus! {

broadcast use crate::le::sizes;

#[derive(Clone, Copy, Debug, PartialEq, Eq, Structural)]
pub struct PostScript {
    pub metadata_size: u32,
    pub footer_size: u32,
    pub compression: CompressionType,
    pub checksum_type: ChecksumType,
    pub data_checksum: u64,
    pub schema_checksum: u64,
    pub major_version: u16,
    pub minor_version: u16,
}

/// The file does not end in the magic.
#[derive(Clone, Copy, Debug, PartialEq, Eq, Structural)]
pub struct MagicMismatch;

/// The postscript that the last bytes of a file hold.
pub open spec fn postscript_of(b: Seq<u8>) -> Result<PostScript, MagicMismatch> {
    if b.subrange(30, 32) != file_format::magic() {
        Err(MagicMismatch)
    } else {
        Ok(
            PostScript {
                metadata_size: le::u32_of(b.subrange(0, 4)),
                footer_size: le::u32_of(b.subrange(4, 8)),
                compression: CompressionType { code: b[8] },
                checksum_type: ChecksumType { code: b[9] },
                data_checksum: le::u64_of(b.subrange(10, 18)),
                schema_checksum: le::u64_of(b.subrange(18, 26)),
                major_version: le::u16_of(b.subrange(26, 28)),
                minor_version: le::u16_of(b.subrange(28, 30)),
            },
        )
    }
}

/// The bytes of a postscript.
pub open spec fn postscript_bytes(p: PostScript) -> Seq<u8> {
    le::bytes_of_u32(p.metadata_size) + le::bytes_of_u32(p.footer_size) + seq![
        p.compression.code,
        p.checksum_type.code,
    ] + le::bytes_of_u64(p.data_checksum) + le::bytes_of_u64(p.schema_checksum) + le::bytes_of_u16(
        p.major_version,
    ) + le::bytes_of_u16(p.minor_version) + file_format::magic()
}

/// Reading a stored postscript gives it back.
pub proof fn postscript_round_trip(p: PostScript)
    ensures
        postscript_bytes(p).len() == file_format::POSTSCRIPT_SIZE,
        postscript_of(postscript_bytes(p)) == Ok::<PostScript, MagicMismatch>(p),
{
    let b = postscript_bytes(p);
    le::u32_round_trip(p.metadata_size);
    le::u32_round_trip(p.footer_size);
    le::u64_round_trip(p.data_checksum);
    le::u64_round_trip(p.schema_checksum);
    le::u16_round_trip(p.major_version);
    le::u16_round_trip(p.minor_version);
    assert(b.subrange(0, 4) =~= le::bytes_of_u32(p.metadata_size));
    assert(b.subrange(4, 8) =~= le::bytes_of_u32(p.footer_size));
    assert(b.subrange(10, 18) =~= le::bytes_of_u64(p.data_checksum));
    assert(b.subrange(18, 26) =~= le::bytes_of_u64(p.schema_checksum));
    assert(b.subrange(26, 28) =~= le::bytes_of_u16(p.major_version));
    assert(b.subrange(28, 30) =~= le::bytes_of_u16(p.minor_version));
    assert(b.subrange(30, 32) =~= file_format::magic());
}

/// Tells whether the last bytes of a file end in the magic.
fn ends_in_magic(buffer: &[u8]) -> (r: bool)
    requires
        buffer@.len() == 32,
    ensures
        r == (buffer@.subrange(30, 32) == file_format::magic()),
{
    let r = buffer[30] == 0x46 && buffer[31] == 0x33;
    proof {
        let s = buffer@.subrange(30, 32);
        let m = file_format::magic();
        if r {
            assert(s =~= m);
        } else if s == m {
            assert(s[0] == m[0] && s[1] == m[1]);
        }
    }
    r
}

/// Reads the postscript from the last bytes of a file.
pub fn read_postscript(buffer: &[u8]) -> (r: Result<PostScript, MagicMismatch>)
    requires
        buffer@.len() == 32,
    ensures
        r == postscript_of(buffer@),
{
    if !ends_in_magic(buffer) {
        return Err(MagicMismatch);
    }
    proof {
        assert(buffer@.subrange(0, 4).subrange(0, 4) =~= buffer@.subrange(0, 4));
        assert(buffer@.subrange(4, 8).subrange(0, 4) =~= buffer@.subrange(4, 8));
        assert(buffer@.subrange(10, 18).subrange(0, 8) =~= buffer@.subrange(10, 18));
        assert(buffer@.subrange(18, 26).subrange(0, 8) =~= buffer@.subrange(18, 26));
        assert(buffer@.subrange(26, 28).subrange(0, 2) =~= buffer@.subrange(26, 28));
        assert(buffer@.subrange(28, 30).subrange(0, 2) =~= buffer@.subrange(28, 30));
    }
    Ok(
        PostScript {
            metadata_size: le::read_u32(&buffer[0..4]),
            footer_size: le::read_u32(&buffer[4..8]),
            compression: CompressionType { code: buffer[8] },
            checksum_type: ChecksumType { code: buffer[9] },
            data_checksum: le::read_u64(&buffer[10..18]),
            schema_checksum: le::read_u64(&buffer[18..26]),
            major_version: le::read_u16(&buffer[26..28]),
            minor_version: le::read_u16(&buffer[28..30]),
        },
    )
}

/// The bytes of a postscript.
pub fn write_postscript(p: &PostScript) -> (r: Vec<u8>)
    ensures
        r@ == postscript_bytes(*p),
{
    let mut out: Vec<u8> = Vec::new();
    le::put_u32(&mut out, p.metadata_size);
    le::put_u32(&mut out, p.footer_size);
    out.push(p.compression.code);
    out.push(p.checksum_type.code);
    le::put_u64(&mut out, p.data_checksum);
    le::put_u64(&mut out, p.schema_checksum);
    le::put_u16(&mut out, p.major_version);
    le::put_u16(&mut out, p.minor_version);
    out.push(0x46);
    out.push(0x33);
    assert(out@ =~= postscript_bytes(*p));
    out
}

/// The checksums of a base file, schema first, from its last bytes.
pub fn read_base_checksums(buffer: &[u8]) -> (r: Result<(u64, u64), MagicMismatch>)
    requires
        buffer@.len() == 32,
    ensures
        r == (match postscript_of(buffer@) {
            Ok(p) => Ok::<(u64, u64), MagicMismatch>((p.schema_checksum, p.data_checksum)),
            Err(e) => Err::<(u64, u64), MagicMismatch>(e),
        }),
{
    match read_postscript(buffer) {
        Ok(p) => Ok((p.schema_checksum, p.data_checksum)),
        Err(e) => Err(e),
    }
}

} // verus!
