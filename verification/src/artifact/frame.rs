//! What is around the chunks of an index artifact: the header, which says where
//! the footer is, and the footer, which holds JSON text.
use crate::ivf_file::{get_u32_at, get_u64_at};
use crate::ivf_file;
use crate::le;
use vstd::prelude::*;

verus! {

broadcast use crate::le::sizes;

/// The version of the layout.
pub const ARTIFACT_VERSION: u32 = 1;

/// The bytes of the header: magic, version, where the footer starts.
pub const ARTIFACT_HEADER_SIZE: usize = 20;

/// The bytes of the footer in front of the text: magic, version, length.
pub const ARTIFACT_FOOTER_HEADER_SIZE: usize = 16;

/// Why bytes are no artifact.
#[derive(Clone, Copy, Debug, PartialEq, Eq, Structural)]
pub enum ArtifactError {
    Truncated,
    MagicMismatch,
    UnsupportedVersion(u32),
    /// The header says that there is no footer.
    NoFooter,
    FooterMagicMismatch,
    UnsupportedFooterVersion(u32),
}

/// The footer's text does not fit in 32 bits of length.
#[derive(Clone, Copy, Debug, PartialEq, Eq, Structural)]
pub struct FooterTooLarge;

/// The first eight bytes of a footer: `F3VIDXF` and a zero.
pub open spec fn footer_magic() -> Seq<u8> {
    seq![0x46, 0x33, 0x56, 0x49, 0x44, 0x58, 0x46, 0x00]
}

/// The first eight bytes of an artifact of this generation: `F3VIDX`, the digit,
/// and a zero.
pub open spec fn artifact_magic(generation: u8) -> Seq<u8> {
    seq![0x46, 0x33, 0x56, 0x49, 0x44, 0x58, generation, 0x00]
}

/// Where the footer starts, from the header at the front of `b`.
pub open spec fn footer_offset_of(generation: u8, b: Seq<u8>) -> Result<u64, ArtifactError> {
    if b.len() < 8 {
        Err(ArtifactError::Truncated)
    } else if b.subrange(0, 8) != artifact_magic(generation) {
        Err(ArtifactError::MagicMismatch)
    } else if b.len() < 12 {
        Err(ArtifactError::Truncated)
    } else if ivf_file::u32_at(b, 8) != ARTIFACT_VERSION {
        Err(ArtifactError::UnsupportedVersion(ivf_file::u32_at(b, 8)))
    } else if b.len() < 20 {
        Err(ArtifactError::Truncated)
    } else if ivf_file::u64_at(b, 12) == 0 {
        Err(ArtifactError::NoFooter)
    } else {
        Ok(ivf_file::u64_at(b, 12))
    }
}

/// How long the footer's text is, from the footer at the front of `b`.
pub open spec fn footer_len_of(b: Seq<u8>) -> Result<u32, ArtifactError> {
    if b.len() < 8 {
        Err(ArtifactError::Truncated)
    } else if b.subrange(0, 8) != footer_magic() {
        Err(ArtifactError::FooterMagicMismatch)
    } else if b.len() < 12 {
        Err(ArtifactError::Truncated)
    } else if ivf_file::u32_at(b, 8) != ARTIFACT_VERSION {
        Err(ArtifactError::UnsupportedFooterVersion(ivf_file::u32_at(b, 8)))
    } else if b.len() < 16 {
        Err(ArtifactError::Truncated)
    } else {
        Ok(ivf_file::u32_at(b, 12))
    }
}

/// The footer's text, from all bytes of an artifact.
pub open spec fn footer_text_of(generation: u8, b: Seq<u8>) -> Result<Seq<u8>, ArtifactError> {
    match footer_offset_of(generation, b) {
        Err(e) => Err(e),
        Ok(at) => if at > b.len() {
            Err(ArtifactError::Truncated)
        } else {
            let footer = b.skip(at as int);
            match footer_len_of(footer) {
                Err(e) => Err(e),
                Ok(len) => if footer.len() < 16 + len {
                    Err(ArtifactError::Truncated)
                } else {
                    Ok(footer.subrange(16, 16 + len))
                },
            }
        },
    }
}

/// A header that does not say yet where the footer is.
pub open spec fn open_header(generation: u8) -> Seq<u8> {
    artifact_magic(generation) + le::bytes_of_u32(ARTIFACT_VERSION) + le::bytes_of_u64(0)
}

/// The bytes of a footer.
pub open spec fn footer_bytes(text: Seq<u8>) -> Seq<u8> {
    footer_magic() + le::bytes_of_u32(ARTIFACT_VERSION) + le::bytes_of_u32(text.len() as u32) + text
}

/// The artifact whose header and chunks are `body`: its footer comes behind
/// them, and its header says so.
pub open spec fn sealed(body: Seq<u8>, text: Seq<u8>) -> Seq<u8> {
    body.take(12) + le::bytes_of_u64(body.len() as u64) + body.skip(20) + footer_bytes(text)
}

/// Opening an artifact gives the text that it was sealed with.
#[verifier::rlimit(40)]
pub proof fn sealed_round_trip(generation: u8, body: Seq<u8>, text: Seq<u8>)
    requires
        20 <= body.len() <= u64::MAX,
        body.take(20) == open_header(generation),
        text.len() <= u32::MAX,
    ensures
        footer_text_of(generation, sealed(body, text)) == Ok::<Seq<u8>, ArtifactError>(text),
{
    let b = sealed(body, text);
    let h = open_header(generation);
    le::u32_round_trip(ARTIFACT_VERSION);
    le::u32_round_trip(text.len() as u32);
    le::u64_round_trip(body.len() as u64);
    assert(h.subrange(0, 8) =~= artifact_magic(generation));
    assert(h.subrange(8, 12) =~= le::bytes_of_u32(ARTIFACT_VERSION));
    assert forall|i: int| 0 <= i < 12 implies b[i] == h[i] by {
        assert(b[i] == body.take(12)[i]);
        assert(body.take(20)[i] == body[i]);
    }
    assert(b.subrange(0, 8) =~= h.subrange(0, 8));
    assert(b.subrange(8, 12) =~= h.subrange(8, 12));
    assert(b.subrange(12, 20) =~= le::bytes_of_u64(body.len() as u64));
    let f = footer_bytes(text);
    assert(b.skip(body.len() as int) =~= f);
    assert(f.subrange(0, 8) =~= footer_magic());
    assert(f.subrange(8, 12) =~= le::bytes_of_u32(ARTIFACT_VERSION));
    assert(f.subrange(12, 16) =~= le::bytes_of_u32(text.len() as u32));
    assert(f.subrange(16, 16 + text.len() as int) =~= text);
}

/// Sealing changes no chunk: what lies between header and footer stays.
pub proof fn sealed_keeps_chunks(body: Seq<u8>, text: Seq<u8>, from: int, to: int)
    requires
        20 <= from <= to <= body.len(),
    ensures
        sealed(body, text).subrange(from, to) == body.subrange(from, to),
{
    assert(sealed(body, text).subrange(from, to) =~= body.subrange(from, to));
}

/// Tells whether `bytes` starts with `F3VIDX`, this byte and a zero.
fn has_magic(bytes: &[u8], seventh: u8) -> (r: bool)
    requires
        bytes@.len() >= 8,
    ensures
        r == (bytes@.subrange(0, 8) == artifact_magic(seventh)),
{
    let r = bytes[0] == 0x46 && bytes[1] == 0x33 && bytes[2] == 0x56 && bytes[3] == 0x49 && bytes[4]
        == 0x44 && bytes[5] == 0x58 && bytes[6] == seventh && bytes[7] == 0x00;
    proof {
        let s = bytes@.subrange(0, 8);
        let m = artifact_magic(seventh);
        if r {
            assert(s =~= m);
        } else if s == m {
            assert(s[0] == m[0] && s[1] == m[1] && s[2] == m[2] && s[3] == m[3] && s[4] == m[4]
                && s[5] == m[5] && s[6] == m[6] && s[7] == m[7]);
        }
    }
    r
}

/// Reads from the header where the footer starts.
pub fn read_footer_offset(generation: u8, head: &[u8]) -> (r: Result<u64, ArtifactError>)
    ensures
        r == footer_offset_of(generation, head@),
{
    if head.len() < 8 {
        return Err(ArtifactError::Truncated);
    }
    if !has_magic(head, generation) {
        return Err(ArtifactError::MagicMismatch);
    }
    if head.len() < 12 {
        return Err(ArtifactError::Truncated);
    }
    let version: u32 = get_u32_at(head, 8);
    if version != ARTIFACT_VERSION {
        return Err(ArtifactError::UnsupportedVersion(version));
    }
    if head.len() < ARTIFACT_HEADER_SIZE {
        return Err(ArtifactError::Truncated);
    }
    let at: u64 = get_u64_at(head, 12);
    if at == 0 {
        return Err(ArtifactError::NoFooter);
    }
    Ok(at)
}

/// Reads from the footer how long its text is.
pub fn read_footer_len(footer: &[u8]) -> (r: Result<u32, ArtifactError>)
    ensures
        r == footer_len_of(footer@),
{
    if footer.len() < 8 {
        return Err(ArtifactError::Truncated);
    }
    assert(footer_magic() =~= artifact_magic(0x46));
    if !has_magic(footer, 0x46) {
        return Err(ArtifactError::FooterMagicMismatch);
    }
    if footer.len() < 12 {
        return Err(ArtifactError::Truncated);
    }
    let version: u32 = get_u32_at(footer, 8);
    if version != ARTIFACT_VERSION {
        return Err(ArtifactError::UnsupportedFooterVersion(version));
    }
    if footer.len() < ARTIFACT_FOOTER_HEADER_SIZE {
        return Err(ArtifactError::Truncated);
    }
    Ok(get_u32_at(footer, 12))
}

/// Reads the footer's text from all bytes of an artifact.
pub fn read_footer_text(generation: u8, bytes: &[u8]) -> (r: Result<Vec<u8>, ArtifactError>)
    ensures
        match r {
            Ok(text) => footer_text_of(generation, bytes@) == Ok::<Seq<u8>, ArtifactError>(text@),
            Err(e) => footer_text_of(generation, bytes@) == Err::<Seq<u8>, ArtifactError>(e),
        },
{
    let at: u64 = match read_footer_offset(generation, bytes) {
        Ok(at) => at,
        Err(e) => {
            return Err(e);
        },
    };
    if at > bytes.len() as u64 {
        return Err(ArtifactError::Truncated);
    }
    let footer = &bytes[at as usize..bytes.len()];
    assert(footer@ =~= bytes@.skip(at as int));
    let len: u32 = match read_footer_len(footer) {
        Ok(len) => len,
        Err(e) => {
            return Err(e);
        },
    };
    if (footer.len() as u64 - 16) < len as u64 {
        return Err(ArtifactError::Truncated);
    }
    let mut text: Vec<u8> = Vec::new();
    le::put_bytes(&mut text, &footer[16..16 + len as usize]);
    assert(text@ =~= footer@.subrange(16, 16 + len));
    Ok(text)
}

/// Starts an artifact: its header, which does not say yet where the footer is.
pub fn start_artifact(generation: u8) -> (r: Vec<u8>)
    ensures
        r@ == open_header(generation),
        r@.len() == 20,
{
    let mut out: Vec<u8> = vec![0x46, 0x33, 0x56, 0x49, 0x44, 0x58, generation, 0x00];
    assert(out@ =~= artifact_magic(generation));
    le::put_u32(&mut out, ARTIFACT_VERSION);
    le::put_u64(&mut out, 0);
    out
}

/// Ends an artifact with its footer, and enters in the header where that is.
pub fn seal_artifact(body: Vec<u8>, text: &[u8]) -> (r: Result<Vec<u8>, FooterTooLarge>)
    requires
        body@.len() >= 20,
    ensures
        match r {
            Ok(b) => text@.len() <= u32::MAX && b@ == sealed(body@, text@),
            Err(_) => text@.len() > u32::MAX,
        },
{
    if text.len() > 0xffff_ffff {
        return Err(FooterTooLarge);
    }
    let at: u64 = body.len() as u64;
    let mut out: Vec<u8> = Vec::new();
    le::put_bytes(&mut out, &body.as_slice()[0..12]);
    le::put_u64(&mut out, at);
    le::put_bytes(&mut out, &body.as_slice()[20..body.len()]);
    let ghost patched = out@;
    assert(patched =~= body@.take(12) + le::bytes_of_u64(at) + body@.skip(20));
    out.push(0x46);
    out.push(0x33);
    out.push(0x56);
    out.push(0x49);
    out.push(0x44);
    out.push(0x58);
    out.push(0x46);
    out.push(0x00);
    assert(out@ =~= patched + footer_magic());
    le::put_u32(&mut out, ARTIFACT_VERSION);
    le::put_u32(&mut out, text.len() as u32);
    le::put_bytes(&mut out, text);
    assert(out@ =~= sealed(body@, text@));
    Ok(out)
}

} // verus!
