//! Parsing of CHD (compressed hunks of data) disk image headers: version,
//! the identifying SHA-1 and MD5, and whether the image needs a parent.

use vstd::prelude::*;

verus! {

/// What a CHD header says about the image.
pub struct ChdHeaderInfo {
    pub version: u32,
    pub sha1: Option<Vec<u8>>,
    pub md5: Option<Vec<u8>>,
    pub requires_parent: bool,
}

/// Mathematical view of [`ChdHeaderInfo`].
pub struct ChdHeaderView {
    pub version: u32,
    pub sha1: Option<Seq<u8>>,
    pub md5: Option<Seq<u8>>,
    pub requires_parent: bool,
}

pub open spec fn opt_vec_view(v: Option<Vec<u8>>) -> Option<Seq<u8>> {
    match v {
        Some(x) => Some(x@),
        None => None,
    }
}

impl View for ChdHeaderInfo {
    type V = ChdHeaderView;

    open spec fn view(&self) -> ChdHeaderView {
        ChdHeaderView {
            version: self.version,
            sha1: opt_vec_view(self.sha1),
            md5: opt_vec_view(self.md5),
            requires_parent: self.requires_parent,
        }
    }
}

/// The eight magic bytes "MComprHD" that open every CHD file.
pub open spec fn chd_magic() -> Seq<u8> {
    seq![0x4du8, 0x43u8, 0x6fu8, 0x6du8, 0x70u8, 0x72u8, 0x48u8, 0x44u8]
}

/// Big-endian 32-bit value of the four bytes at `off`.
pub open spec fn be_u32_at(b: Seq<u8>, off: int) -> int {
    b[off] * 16777216 + b[off + 1] * 65536 + b[off + 2] * 256 + b[off + 3]
}

/// Header length that each version (0 to 5) must declare.
pub open spec fn chd_header_length(version: int) -> int {
    if version == 1 {
        76
    } else if version == 2 {
        80
    } else if version == 3 {
        120
    } else if version == 4 {
        108
    } else if version == 5 {
        124
    } else {
        0
    }
}

/// True when every byte of `b[from..to]` is zero.
pub open spec fn zero_range(b: Seq<u8>, from: int, to: int) -> bool {
    forall|i: int| from <= i < to ==> #[trigger] b[i] == 0
}

/// The header a buffer describes, or `None` when it is not a supported CHD header.
pub open spec fn chd_header_spec(b: Seq<u8>) -> Option<ChdHeaderView> {
    if b.len() < 16 || b.subrange(0, 8) != chd_magic() {
        None
    } else {
        let length = be_u32_at(b, 8);
        let version = be_u32_at(b, 12);
        if version < 1 || version > 5 || chd_header_length(version) != length || b.len() < length {
            None
        } else if version <= 2 {
            Some(ChdHeaderView {
                version: version as u32,
                sha1: None,
                md5: Some(b.subrange(44, 60)),
                requires_parent: !zero_range(b, 60, 76),
            })
        } else if version == 3 {
            Some(ChdHeaderView {
                version: 3,
                sha1: Some(b.subrange(80, 100)),
                md5: Some(b.subrange(44, 60)),
                requires_parent: !zero_range(b, 60, 76) || !zero_range(b, 100, 120),
            })
        } else if version == 4 {
            Some(ChdHeaderView {
                version: 4,
                sha1: Some(b.subrange(48, 68)),
                md5: None,
                requires_parent: !zero_range(b, 68, 88),
            })
        } else {
            Some(ChdHeaderView {
                version: 5,
                sha1: Some(b.subrange(84, 104)),
                md5: None,
                requires_parent: !zero_range(b, 104, 124),
            })
        }
    }
}

pub open spec fn opt_header_view(r: Option<ChdHeaderInfo>) -> Option<ChdHeaderView> {
    match r {
        Some(h) => Some(h@),
        None => None,
    }
}

fn read_u32_be(b: &[u8]) -> (res: u32)
    requires
        b@.len() >= 4,
    ensures
        res == be_u32_at(b@, 0),
{
    (b[0] as u32) * 16777216 + (b[1] as u32) * 65536 + (b[2] as u32) * 256 + (b[3] as u32)
}

fn is_all_zero(b: &[u8]) -> (res: bool)
    ensures
        res == zero_range(b@, 0, b@.len() as int),
{
    let mut i: usize = 0;
    while i < b.len()
        invariant
            i <= b@.len(),
            zero_range(b@, 0, i as int),
        decreases b@.len() - i,
    {
        if b[i] != 0 {
            return false;
        }
        i = i + 1;
    }
    true
}

fn has_magic(b: &[u8]) -> (res: bool)
    requires
        b@.len() >= 8,
    ensures
        res == (b@.subrange(0, 8) == chd_magic()),
{
    let r = b[0] == 0x4d && b[1] == 0x43 && b[2] == 0x6f && b[3] == 0x6d && b[4] == 0x70
        && b[5] == 0x72 && b[6] == 0x48 && b[7] == 0x44;
    if r {
        assert(b@.subrange(0, 8) =~= chd_magic());
    } else {
        assert(b@.subrange(0, 8) != chd_magic()) by {
            if b@.subrange(0, 8) == chd_magic() {
                assert(b@.subrange(0, 8)[0] == b@[0]);
                assert(b@.subrange(0, 8)[1] == b@[1]);
                assert(b@.subrange(0, 8)[2] == b@[2]);
                assert(b@.subrange(0, 8)[3] == b@[3]);
                assert(b@.subrange(0, 8)[4] == b@[4]);
                assert(b@.subrange(0, 8)[5] == b@[5]);
                assert(b@.subrange(0, 8)[6] == b@[6]);
                assert(b@.subrange(0, 8)[7] == b@[7]);
            }
        }
    }
    r
}

fn zero_slice(b: &[u8], from: usize, to: usize) -> (res: bool)
    requires
        from <= to <= b@.len(),
    ensures
        res == zero_range(b@, from as int, to as int),
{
    let r = is_all_zero(&b[from..to]);
    assert(r == zero_range(b@, from as int, to as int)) by {
        let s = b@.subrange(from as int, to as int);
        if r {
            assert forall|i: int| from <= i < to implies #[trigger] b@[i] == 0 by {
                assert(s[i - from] == b@[i]);
            }
        } else {
            let k = choose|k: int| 0 <= k < s.len() && s[k] != 0;
            assert(b@[from + k] == s[k]);
        }
    }
    r
}

/// Parses a CHD header (versions 1 to 5) from the start of `buf`.
/// The reported SHA-1 is the stored one where the version has it, else the raw one.
pub fn parse_chd_header_from_bytes(buf: &[u8]) -> (res: Option<ChdHeaderInfo>)
    ensures
        opt_header_view(res) == chd_header_spec(buf@),
{
    if buf.len() < 16 {
        return None;
    }
    if !has_magic(buf) {
        return None;
    }
    let length = read_u32_be(&buf[8..12]);
    let version = read_u32_be(&buf[12..16]);
    assert(be_u32_at(buf@.subrange(8, 12), 0) == be_u32_at(buf@, 8));
    assert(be_u32_at(buf@.subrange(12, 16), 0) == be_u32_at(buf@, 12));
    if version < 1 || version > 5 {
        return None;
    }
    let expected: u32 = if version == 1 {
        76
    } else if version == 2 {
        80
    } else if version == 3 {
        120
    } else if version == 4 {
        108
    } else {
        124
    };
    if expected != length {
        return None;
    }
    if buf.len() < length as usize {
        return None;
    }
    if version <= 2 {
        let md5 = vstd::slice::slice_to_vec(&buf[44..60]);
        let parent = !zero_slice(buf, 60, 76);
        Some(ChdHeaderInfo { version, sha1: None, md5: Some(md5), requires_parent: parent })
    } else if version == 3 {
        let md5 = vstd::slice::slice_to_vec(&buf[44..60]);
        let raw_sha1 = vstd::slice::slice_to_vec(&buf[80..100]);
        let parent = !zero_slice(buf, 60, 76) || !zero_slice(buf, 100, 120);
        Some(ChdHeaderInfo { version, sha1: Some(raw_sha1), md5: Some(md5), requires_parent: parent })
    } else if version == 4 {
        let sha1 = vstd::slice::slice_to_vec(&buf[48..68]);
        let parent = !zero_slice(buf, 68, 88);
        Some(ChdHeaderInfo { version, sha1: Some(sha1), md5: None, requires_parent: parent })
    } else {
        let sha1 = vstd::slice::slice_to_vec(&buf[84..104]);
        let parent = !zero_slice(buf, 104, 124);
        Some(ChdHeaderInfo { version, sha1: Some(sha1), md5: None, requires_parent: parent })
    }
}

/// How many bytes of header a stream declares, read from its first 16 bytes:
/// `None` unless they open with the CHD magic and declare 16 to 124 bytes.
pub fn chd_declared_header_length(prefix: &[u8]) -> (res: Option<usize>)
    requires
        prefix@.len() == 16,
    ensures
        match res {
            Some(n) => prefix@.subrange(0, 8) == chd_magic() && 16 <= n <= 124 && n == be_u32_at(prefix@, 8),
            None => prefix@.subrange(0, 8) != chd_magic() || be_u32_at(prefix@, 8) > 124 || be_u32_at(
                prefix@,
                8,
            ) < 16,
        },
{
    if !has_magic(prefix) {
        return None;
    }
    let length = read_u32_be(&prefix[8..12]);
    assert(be_u32_at(prefix@.subrange(8, 12), 0) == be_u32_at(prefix@, 8));
    if length > 124 || length < 16 {
        return None;
    }
    Some(length as usize)
}

/// The header read from a byte stream whose content is `stream`: the first 16
/// bytes are read, then the rest of the declared header (at most 124 bytes).
pub open spec fn chd_header_from_stream_spec(stream: Seq<u8>) -> Option<ChdHeaderView> {
    if stream.len() < 16 || stream.subrange(0, 8) != chd_magic() {
        None
    } else {
        let length = be_u32_at(stream, 8);
        if length > 124 || length < 16 || stream.len() < length {
            None
        } else {
            chd_header_spec(stream.subrange(0, length))
        }
    }
}

/// Reads a CHD header from a stream whose bytes are `stream`: the fixed 16-byte
/// prefix first, then the remainder of the declared length, then parses it.
/// `None` when the stream ends early or the header is not a supported CHD header.
pub fn parse_chd_header_from_reader(stream: &[u8]) -> (res: Option<ChdHeaderInfo>)
    ensures
        opt_header_view(res) == chd_header_from_stream_spec(stream@),
{
    if stream.len() < 16 {
        return None;
    }
    if !has_magic(stream) {
        return None;
    }
    let length = read_u32_be(&stream[8..12]);
    assert(be_u32_at(stream@.subrange(8, 12), 0) == be_u32_at(stream@, 8));
    if length > 124 || length < 16 {
        return None;
    }
    let length = length as usize;
    if stream.len() < length {
        return None;
    }
    parse_chd_header_from_bytes(&stream[0..length])
}

} // verus!
