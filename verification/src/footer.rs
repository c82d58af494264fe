//! The footer locator: validates the magic markers at both ends of the
//! file buffer, reads the little-endian length field before the trailing
//! marker, and yields the exact byte range of the serialized metadata
//! block.

use vstd::prelude::*;

use crate::error::FormatError;

verus! {

/// The four-byte magic marker that opens and closes the file.
pub open spec fn spec_magic() -> Seq<u8> {
    seq![0x50u8, 0x41u8, 0x52u8, 0x31u8]
}

/// The unsigned little-endian 32-bit value of the first four bytes.
pub open spec fn spec_le_u32(s: Seq<u8>) -> nat {
    (s[0] + 256 * (s[1] + 256 * (s[2] + 256 * s[3]))) as nat
}

/// Where the metadata block stands in `s`: its start offset and length.
/// The buffer must be long enough for two markers and the length field;
/// the first and last four bytes must both be the magic marker; and the
/// length must leave the block inside the buffer, after the leading
/// marker.
pub open spec fn spec_locate(s: Seq<u8>) -> Result<(int, int), FormatError> {
    if s.len() < 12 {
        Err(FormatError::TruncatedFile)
    } else if s.subrange(0, 4) != spec_magic() {
        Err(FormatError::BadHeaderMagic)
    } else if s.subrange(s.len() - 4, s.len() as int) != spec_magic() {
        Err(FormatError::BadFooterMagic)
    } else {
        let l = spec_le_u32(s.subrange(s.len() - 8, s.len() - 4));
        if l > s.len() - 12 {
            Err(FormatError::TruncatedFile)
        } else {
            Ok((s.len() - 8 - l, l as int))
        }
    }
}

/// Returns a copy of the metadata block of `buf`, as `spec_locate` says,
/// or the first format error.
pub fn metadata_slice(buf: &Vec<u8>) -> (r: Result<Vec<u8>, FormatError>)
    ensures
        (match r {
            Ok(v) => spec_locate(buf@) matches Ok(p) && v@ == buf@.subrange(p.0, p.0 + p.1),
            Err(e) => spec_locate(buf@) == Err::<(int, int), FormatError>(e),
        }),
{
    let n = buf.len();
    if n < 12 {
        return Err(FormatError::TruncatedFile);
    }
    if !(buf[0] == 0x50 && buf[1] == 0x41 && buf[2] == 0x52 && buf[3] == 0x31) {
        proof {
            assert(buf@.subrange(0, 4) != spec_magic());
        }
        return Err(FormatError::BadHeaderMagic);
    }
    proof {
        assert(buf@.subrange(0, 4) =~= spec_magic());
    }
    if !(buf[n - 4] == 0x50 && buf[n - 3] == 0x41 && buf[n - 2] == 0x52 && buf[n - 1] == 0x31) {
        proof {
            assert(buf@.subrange(n - 4, n as int)[0] == buf@[n - 4]);
            assert(buf@.subrange(n - 4, n as int)[1] == buf@[n - 3]);
            assert(buf@.subrange(n - 4, n as int)[2] == buf@[n - 2]);
            assert(buf@.subrange(n - 4, n as int)[3] == buf@[n - 1]);
            assert(buf@.subrange(n - 4, n as int) != spec_magic());
        }
        return Err(FormatError::BadFooterMagic);
    }
    proof {
        assert(buf@.subrange(n - 4, n as int) =~= spec_magic());
    }
    let l: usize = (buf[n - 8] as usize) + 256 * ((buf[n - 7] as usize) + 256 * ((buf[n
        - 6] as usize) + 256 * (buf[n - 5] as usize)));
    proof {
        let lenb = buf@.subrange(n - 8, n - 4);
        assert(lenb[0] == buf@[n - 8]);
        assert(lenb[1] == buf@[n - 7]);
        assert(lenb[2] == buf@[n - 6]);
        assert(lenb[3] == buf@[n - 5]);
    }
    if l > n - 12 {
        return Err(FormatError::TruncatedFile);
    }
    let start: usize = n - 8 - l;
    let mut out: Vec<u8> = Vec::new();
    let mut i: usize = 0;
    while i < l
        invariant
            start + l <= usize::MAX,
            start + l <= buf@.len(),
            0 <= i <= l,
            out@ == buf@.subrange(start as int, start + i),
        decreases l - i,
    {
        out.push(buf[start + i]);
        assert(out@ == buf@.subrange(start as int, start + i + 1));
        i = i + 1;
    }
    Ok(out)
}

} // verus!
