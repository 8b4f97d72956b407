//! TorrentZip archives built in memory: the fixed local and central headers,
//! the end-of-central-directory record and the "TORRENTZIPPED-" comment that
//! carries the CRC-32 of the central directory.

use vstd::prelude::*;
use vstd::utf8::*;
use crate::fix::Fix;
use crate::cache::{string_from_utf8_lossy, utf8_lossy_chars};
use crate::text::str_bytes;

verus! {

/// DOS time stamped on every TorrentZip entry (23:32:00).
pub const TORRENTZIP_DOS_TIME: u16 = 48128;

/// DOS date stamped on every TorrentZip entry (1996-12-24).
pub const TORRENTZIP_DOS_DATE: u16 = 8600;

/// One entry ready to be written into a TorrentZip archive.
pub struct TorrentZipBuiltEntry {
    pub name: String,
    pub compressed_data: Vec<u8>,
    pub crc: u32,
    pub compressed_size: u32,
    pub uncompressed_size: u32,
    pub flags: u16,
    pub compression_method: u16,
    pub external_attributes: u32,
}

/// Little-endian bytes of a 16-bit value.
pub open spec fn le16(v: u16) -> Seq<u8> {
    seq![(v % 256) as u8, (v / 256) as u8]
}

/// Little-endian bytes of a 32-bit value.
pub open spec fn le32(v: u32) -> Seq<u8> {
    seq![(v % 256) as u8, ((v / 256) % 256) as u8, ((v / 65536) % 256) as u8, (v / 16777216) as u8]
}

/// One step of the bitwise CRC-32 (reflected polynomial 0xEDB88320).
pub open spec fn crc32_bit(c: u32) -> u32 {
    if c & 1 == 1 {
        (c >> 1u32) ^ 0xEDB88320u32
    } else {
        c >> 1u32
    }
}

/// `n` steps of the bitwise CRC-32.
pub open spec fn crc32_bits(c: u32, n: nat) -> u32
    decreases n,
{
    if n == 0 {
        c
    } else {
        crc32_bits(crc32_bit(c), (n - 1) as nat)
    }
}

/// The CRC-32 register after `data`, starting from all ones.
pub open spec fn crc32_register(data: Seq<u8>) -> u32
    decreases data.len(),
{
    if data.len() == 0 {
        0xFFFF_FFFFu32
    } else {
        crc32_bits(crc32_register(data.drop_last()) ^ (data.last() as u32), 8)
    }
}

/// The CRC-32 (IEEE) checksum of `data`.
pub open spec fn crc32_ieee(data: Seq<u8>) -> u32 {
    crc32_register(data) ^ 0xFFFF_FFFFu32
}

/// Computes the CRC-32 (IEEE) checksum with `crc32fast::hash`, which the
/// crate documents as the CRC32 (IEEE) checksum of the byte slice.
#[verifier::external_body]
fn crc32(data: &[u8]) -> (r: u32)
    ensures
        r == crc32_ieee(data@),
{
    crc32fast::hash(data)
}

/// The raw-deflate stream, at the best compression level, that `flate2`
/// (with the backend this build selects; the zip crate's `deflate` feature
/// selects zlib-rs) writes for `data` into a `Vec`; `None` when
/// the compressor reports an error. Both depend on `data` alone: the output
/// goes to memory, never to a device.
pub uninterp spec fn deflate_best(data: Seq<u8>) -> Option<Seq<u8>>;

/// Compresses with `flate2::write::DeflateEncoder` over a `Vec` at
/// `Compression::best()` and takes the finished stream; `None` when finishing
/// reports an error. What the stream is, and whether an error comes, is named
/// by `deflate_best`.
#[verifier::external_body]
fn deflate_raw_best(data: &[u8]) -> (r: Option<Vec<u8>>)
    ensures
        match r {
            Some(v) => deflate_best(data@) == Some(v@),
            None => deflate_best(data@) is None,
        },
{
    let mut encoder = flate2::write::DeflateEncoder::new(Vec::new(), flate2::Compression::best());
    match std::io::Write::write_all(&mut encoder, data) {
        Ok(()) => encoder.finish().ok(),
        Err(_) => None,
    }
}

/// Upper-case hex digit of a value below 16.
pub open spec fn hex_upper(v: int) -> u8 {
    if v < 10 {
        (0x30 + v) as u8
    } else {
        (0x41 + v - 10) as u8
    }
}

/// Eight upper-case hex digits of a 32-bit value, most significant first.
pub open spec fn hex8(v: u32) -> Seq<u8> {
    seq![
        hex_upper((v / 268435456) as int % 16),
        hex_upper((v / 16777216) as int % 16),
        hex_upper((v / 1048576) as int % 16),
        hex_upper((v / 65536) as int % 16),
        hex_upper((v / 4096) as int % 16),
        hex_upper((v / 256) as int % 16),
        hex_upper((v / 16) as int % 16),
        hex_upper(v as int % 16),
    ]
}

/// The value of an upper-case hex digit (`0`-`9`, `A`-`F`), or -1.
pub open spec fn hex_digit_value(c: u8) -> int {
    if 0x30 <= c <= 0x39 {
        c - 0x30
    } else if 0x41 <= c <= 0x46 {
        c - 0x41 + 10
    } else {
        -1
    }
}

/// The eight hex digits of `hex8(v)` are upper-case hex digits that spell
/// `v`, most significant first.
pub proof fn law_hex8_spells_the_value(v: u32)
    ensures
        hex8(v).len() == 8,
        forall|i: int| 0 <= i < 8 ==> 0 <= #[trigger] hex_digit_value(hex8(v)[i]) < 16,
        ((((((hex_digit_value(hex8(v)[0]) * 16 + hex_digit_value(hex8(v)[1])) * 16 + hex_digit_value(hex8(v)[2]))
            * 16 + hex_digit_value(hex8(v)[3])) * 16 + hex_digit_value(hex8(v)[4])) * 16 + hex_digit_value(
            hex8(v)[5],
        )) * 16 + hex_digit_value(hex8(v)[6])) * 16 + hex_digit_value(hex8(v)[7]) == v,
{
    let h = hex8(v);
    let d0 = (v / 268435456) % 16;
    let d1 = (v / 16777216) % 16;
    let d2 = (v / 1048576) % 16;
    let d3 = (v / 65536) % 16;
    let d4 = (v / 4096) % 16;
    let d5 = (v / 256) % 16;
    let d6 = (v / 16) % 16;
    let d7 = v % 16;
    assert(hex_digit_value(h[0]) == d0);
    assert(hex_digit_value(h[1]) == d1);
    assert(hex_digit_value(h[2]) == d2);
    assert(hex_digit_value(h[3]) == d3);
    assert(hex_digit_value(h[4]) == d4);
    assert(hex_digit_value(h[5]) == d5);
    assert(hex_digit_value(h[6]) == d6);
    assert(hex_digit_value(h[7]) == d7);
    assert(((((((((v / 268435456) % 16) * 16 + (v / 16777216) % 16) * 16 + (v / 1048576) % 16) * 16 + (v
        / 65536) % 16) * 16 + (v / 4096) % 16) * 16 + (v / 256) % 16) * 16 + (v / 16) % 16) * 16 + v % 16
        == v) by (bit_vector);
}

/// "TORRENTZIPPED-" as bytes.
pub open spec fn torrentzip_prefix() -> Seq<u8> {
    seq![0x54u8, 0x4F, 0x52, 0x52, 0x45, 0x4E, 0x54, 0x5A, 0x49, 0x50, 0x50, 0x45, 0x44, 0x2D]
}

/// The archive comment carrying a central directory's CRC-32.
pub open spec fn torrentzip_comment(crc: u32) -> Seq<u8> {
    torrentzip_prefix() + hex8(crc)
}

/// The name bytes of an entry.
pub open spec fn name_bytes(e: TorrentZipBuiltEntry) -> Seq<u8> {
    encode_utf8(e.name@)
}

/// Local file header and data of an entry.
pub open spec fn local_record(e: TorrentZipBuiltEntry) -> Seq<u8> {
    le32(0x04034B50) + le16(20) + le16(e.flags) + le16(e.compression_method) + le16(
        TORRENTZIP_DOS_TIME,
    ) + le16(TORRENTZIP_DOS_DATE) + le32(e.crc) + le32(e.compressed_size) + le32(
        e.uncompressed_size,
    ) + le16(name_bytes(e).len() as u16) + le16(0) + name_bytes(e) + e.compressed_data@
}

/// Central directory header of an entry whose local header starts at `offset`.
pub open spec fn central_record(e: TorrentZipBuiltEntry, offset: u32) -> Seq<u8> {
    le32(0x02014B50) + le16(0) + le16(20) + le16(e.flags) + le16(e.compression_method) + le16(
        TORRENTZIP_DOS_TIME,
    ) + le16(TORRENTZIP_DOS_DATE) + le32(e.crc) + le32(e.compressed_size) + le32(
        e.uncompressed_size,
    ) + le16(name_bytes(e).len() as u16) + le16(0) + le16(0) + le16(0) + le16(0) + le32(
        e.external_attributes,
    ) + le32(offset) + name_bytes(e)
}

/// Local records of the first `n` entries.
pub open spec fn locals(es: Seq<TorrentZipBuiltEntry>, n: int) -> Seq<u8>
    decreases n,
{
    if n <= 0 {
        Seq::empty()
    } else {
        locals(es, n - 1) + local_record(es[n - 1])
    }
}

/// Central records of the first `n` entries.
pub open spec fn centrals(es: Seq<TorrentZipBuiltEntry>, n: int) -> Seq<u8>
    decreases n,
{
    if n <= 0 {
        Seq::empty()
    } else {
        centrals(es, n - 1) + central_record(es[n - 1], locals(es, n - 1).len() as u32)
    }
}

/// The whole archive: local records, central directory, end record, comment.
pub open spec fn torrentzip_archive(es: Seq<TorrentZipBuiltEntry>) -> Seq<u8> {
    let l = locals(es, es.len() as int);
    let c = centrals(es, es.len() as int);
    let cm = torrentzip_comment(crc32_ieee(c));
    l + c + le32(0x06054B50) + le16(0) + le16(0) + le16(es.len() as u16) + le16(es.len() as u16)
        + le32(c.len() as u32) + le32(l.len() as u32) + le16(cm.len() as u16) + cm
}

/// The flags of a TorrentZip entry: maximum compression, plus the UTF-8 flag
/// when the name is not ASCII.
pub open spec fn torrentzip_flags_spec(name: Seq<u8>) -> u16 {
    if forall|i: int| 0 <= i < name.len() ==> name[i] < 0x80 {
        0x0002
    } else {
        0x0802
    }
}

/// A directory entry's name: with a trailing `/`.
pub open spec fn directory_entry_name(name: Seq<u8>) -> Seq<u8> {
    if name.len() > 0 && name.last() == 0x2Fu8 {
        name
    } else {
        name.push(0x2Fu8)
    }
}


/// Little-endian 16-bit value at `i`.
pub open spec fn u16_at(b: Seq<u8>, i: int) -> int {
    b[i] as int + 256 * b[i + 1] as int
}

/// Little-endian 32-bit value at `i`.
pub open spec fn u32_at(b: Seq<u8>, i: int) -> int {
    b[i] as int + 256 * b[i + 1] as int + 65536 * b[i + 2] as int + 16777216 * b[i + 3] as int
}

/// `b` with the 16-bit little-endian value `v` written at `i`.
pub open spec fn set_u16(b: Seq<u8>, i: int, v: u16) -> Seq<u8> {
    b.update(i, (v % 256) as u8).update(i + 1, (v / 256) as u8)
}

/// The four signature bytes "PK", `c`, `d` start at `i`.
pub open spec fn sig_at(b: Seq<u8>, i: int, c: u8, d: u8) -> bool {
    0 <= i && i + 4 <= b.len() && b[i] == 0x50u8 && b[i + 1] == 0x4Bu8 && b[i + 2] == c && b[i
        + 3] == d
}

/// Flags of a rewritten header: maximum compression, keeping the UTF-8 flag.
pub open spec fn normalized_flags(f: int) -> u16 {
    if (f / 2048) % 2 == 1 {
        0x0802
    } else {
        0x0002
    }
}

/// A local header at `off` with TorrentZip version, flags, method and time.
pub open spec fn patch_local(b: Seq<u8>, off: int) -> Seq<u8> {
    let f = u16_at(b, off + 6);
    set_u16(
        set_u16(
            set_u16(set_u16(set_u16(b, off + 4, 20), off + 6, normalized_flags(f)), off + 8, 8),
            off + 10,
            TORRENTZIP_DOS_TIME,
        ),
        off + 12,
        TORRENTZIP_DOS_DATE,
    )
}

/// Rewrites the chain of local headers starting at `off`.
pub open spec fn rewrite_locals(b: Seq<u8>, off: int) -> Seq<u8>
    decreases if off < b.len() {
        b.len() - off
    } else {
        0
    },
{
    if 0 <= off && off + 30 <= b.len() && sig_at(b, off, 0x03, 0x04) {
        proof {
            assert(patch_local(b, off).len() == b.len());
        }
        rewrite_locals(
            patch_local(b, off),
            off + 30 + u16_at(b, off + 26) + u16_at(b, off + 28) + u32_at(b, off + 18),
        )
    } else {
        b
    }
}

/// A central header at `off` with TorrentZip versions, flags, method, time,
/// and zeroed comment length, disk number and attributes.
pub open spec fn patch_central(b: Seq<u8>, off: int) -> Seq<u8> {
    let f = u16_at(b, off + 8);
    let b1 = set_u16(set_u16(set_u16(b, off + 4, 0), off + 6, 20), off + 8, normalized_flags(f));
    let b2 = set_u16(
        set_u16(set_u16(b1, off + 10, 8), off + 12, TORRENTZIP_DOS_TIME),
        off + 14,
        TORRENTZIP_DOS_DATE,
    );
    let b3 = set_u16(set_u16(set_u16(set_u16(b2, off + 34, 0), off + 36, 0), off + 38, 0), off + 40, 0);
    set_u16(set_u16(b3, off + 42, 0), off + 44, 0)
}

/// Rewrites the chain of central headers from `off` up to `end`.
pub open spec fn rewrite_centrals(b: Seq<u8>, off: int, end: int) -> Seq<u8>
    decreases if off < end {
        end - off
    } else {
        0
    },
{
    if 0 <= off && off + 46 <= end && end <= b.len() && sig_at(b, off, 0x01, 0x02) {
        rewrite_centrals(
            patch_central(b, off),
            off + 46 + u16_at(b, off + 28) + u16_at(b, off + 30) + u16_at(b, off + 32),
            end,
        )
    } else {
        b
    }
}

/// `e` is the last position of an end-of-central-directory signature.
pub open spec fn last_eocd(b: Seq<u8>, e: int) -> bool {
    sig_at(b, e, 0x05, 0x06) && forall|q: int| e < q && q + 4 <= b.len() ==> !#[trigger] sig_at(b, q, 0x05, 0x06)
}

/// Some end-of-central-directory signature occurs.
pub open spec fn has_eocd(b: Seq<u8>) -> bool {
    exists|q: int| #[trigger] sig_at(b, q, 0x05, 0x06)
}

/// The TorrentZip metadata applied to an archive's bytes: local headers
/// rewritten from the start; then, with the last end record `e` (which must
/// be complete and whose central directory must lie within the bytes), the
/// central headers rewritten, the comment replaced by the central
/// directory's CRC-32, and anything after it dropped. `None` where the end
/// record is missing or inconsistent.
pub open spec fn torrentzip_metadata(b: Seq<u8>) -> Option<Seq<u8>> {
    let b1 = rewrite_locals(b, 0);
    if !has_eocd(b1) {
        None
    } else {
        let e = choose|e: int| last_eocd(b1, e);
        if e + 22 > b1.len() {
            None
        } else {
            let size = u32_at(b1, e + 12);
            let off = u32_at(b1, e + 16);
            if off + size > b1.len() {
                None
            } else {
                let b2 = rewrite_centrals(b1, off, off + size);
                let cm = torrentzip_comment(crc32_ieee(b2.subrange(off, off + size)));
                Some(set_u16(b2, e + 20, cm.len() as u16).subrange(0, e + 22) + cm)
            }
        }
    }
}

/// The last end-of-central-directory signature, if any, is unique.
proof fn lemma_last_eocd_unique(b: Seq<u8>, e1: int, e2: int)
    requires
        last_eocd(b, e1),
        last_eocd(b, e2),
    ensures
        e1 == e2,
{
    if e1 < e2 {
        assert(!sig_at(b, e2, 0x05, 0x06));
    } else if e2 < e1 {
        assert(!sig_at(b, e1, 0x05, 0x06));
    }
}


/// Every central header in the chain from `off` up to `end` carries the
/// TorrentZip values: made by version 0, needed version 20, flags 2 (with
/// or without the UTF-8 bit 0x800), method 8 (deflate), the TorrentZip DOS
/// time and date, and zero disk number, attributes and local-header offset.
pub open spec fn central_headers_normalized(b: Seq<u8>, off: int, end: int) -> bool
    decreases if off < end {
        end - off
    } else {
        0
    },
{
    if 0 <= off && off + 46 <= end && end <= b.len() && sig_at(b, off, 0x01, 0x02) {
        &&& u16_at(b, off + 4) == 0
        &&& u16_at(b, off + 6) == 20
        &&& (u16_at(b, off + 8) == 2 || u16_at(b, off + 8) == 0x802)
        &&& u16_at(b, off + 10) == 8
        &&& u16_at(b, off + 12) == TORRENTZIP_DOS_TIME as int
        &&& u16_at(b, off + 14) == TORRENTZIP_DOS_DATE as int
        &&& u16_at(b, off + 34) == 0
        &&& u16_at(b, off + 36) == 0
        &&& u16_at(b, off + 38) == 0
        &&& u16_at(b, off + 40) == 0
        &&& u16_at(b, off + 42) == 0
        &&& u16_at(b, off + 44) == 0
        &&& central_headers_normalized(
            b,
            off + 46 + u16_at(b, off + 28) + u16_at(b, off + 30) + u16_at(b, off + 32),
            end,
        )
    } else {
        true
    }
}

proof fn lemma_set_u16(b: Seq<u8>, i: int, v: u16)
    requires
        0 <= i,
        i + 2 <= b.len(),
    ensures
        set_u16(b, i, v).len() == b.len(),
        u16_at(set_u16(b, i, v), i) == v as int,
        forall|k: int| 0 <= k < b.len() && k != i && k != i + 1 ==> #[trigger] set_u16(b, i, v)[k] == b[k],
{
}

proof fn lemma_patch_central(b: Seq<u8>, off: int)
    requires
        0 <= off,
        off + 46 <= b.len(),
    ensures
        patch_central(b, off).len() == b.len(),
        forall|k: int|
            0 <= k < b.len() && (k < off + 4 || off + 16 <= k < off + 34 || off + 46 <= k) ==> #[trigger] patch_central(
                b,
                off,
            )[k] == b[k],
        u16_at(patch_central(b, off), off + 4) == 0,
        u16_at(patch_central(b, off), off + 6) == 20,
        u16_at(patch_central(b, off), off + 8) == 2 || u16_at(patch_central(b, off), off + 8) == 0x802,
        u16_at(patch_central(b, off), off + 34) == 0,
        u16_at(patch_central(b, off), off + 36) == 0,
        u16_at(patch_central(b, off), off + 38) == 0,
        u16_at(patch_central(b, off), off + 40) == 0,
        u16_at(patch_central(b, off), off + 42) == 0,
        u16_at(patch_central(b, off), off + 44) == 0,
        u16_at(patch_central(b, off), off + 10) == 8,
        u16_at(patch_central(b, off), off + 12) == TORRENTZIP_DOS_TIME as int,
        u16_at(patch_central(b, off), off + 14) == TORRENTZIP_DOS_DATE as int,
{
    let f = u16_at(b, off + 8);
    let a1 = set_u16(b, off + 4, 0);
    lemma_set_u16(b, off + 4, 0);
    let a2 = set_u16(a1, off + 6, 20);
    lemma_set_u16(a1, off + 6, 20);
    let b1 = set_u16(a2, off + 8, normalized_flags(f));
    lemma_set_u16(a2, off + 8, normalized_flags(f));
    let a3 = set_u16(b1, off + 10, 8);
    lemma_set_u16(b1, off + 10, 8);
    let a4 = set_u16(a3, off + 12, TORRENTZIP_DOS_TIME);
    lemma_set_u16(a3, off + 12, TORRENTZIP_DOS_TIME);
    let b2 = set_u16(a4, off + 14, TORRENTZIP_DOS_DATE);
    lemma_set_u16(a4, off + 14, TORRENTZIP_DOS_DATE);
    let a5 = set_u16(b2, off + 34, 0);
    lemma_set_u16(b2, off + 34, 0);
    let a6 = set_u16(a5, off + 36, 0);
    lemma_set_u16(a5, off + 36, 0);
    let a7 = set_u16(a6, off + 38, 0);
    lemma_set_u16(a6, off + 38, 0);
    let b3 = set_u16(a7, off + 40, 0);
    lemma_set_u16(a7, off + 40, 0);
    let a8 = set_u16(b3, off + 42, 0);
    lemma_set_u16(b3, off + 42, 0);
    let r = set_u16(a8, off + 44, 0);
    lemma_set_u16(a8, off + 44, 0);
    assert(r == patch_central(b, off));
    assert(u16_at(r, off + 4) == u16_at(a1, off + 4));
    assert(u16_at(r, off + 6) == u16_at(a2, off + 6));
    assert(u16_at(r, off + 8) == u16_at(b1, off + 8));
    assert(u16_at(r, off + 34) == u16_at(a5, off + 34));
    assert(u16_at(r, off + 36) == u16_at(a6, off + 36));
    assert(u16_at(r, off + 38) == u16_at(a7, off + 38));
    assert(u16_at(r, off + 40) == u16_at(b3, off + 40));
    assert(u16_at(r, off + 42) == u16_at(a8, off + 42));
    assert(u16_at(r, off + 10) == u16_at(a3, off + 10));
    assert(u16_at(r, off + 12) == u16_at(a4, off + 12));
    assert(u16_at(r, off + 14) == u16_at(b2, off + 14));
}

proof fn lemma_rewrite_centrals_frame(b: Seq<u8>, off: int, end: int)
    ensures
        rewrite_centrals(b, off, end).len() == b.len(),
        forall|k: int| 0 <= k < off && k < b.len() ==> #[trigger] rewrite_centrals(b, off, end)[k] == b[k],
    decreases if off < end {
        end - off
    } else {
        0
    },
{
    if 0 <= off && off + 46 <= end && end <= b.len() && sig_at(b, off, 0x01, 0x02) {
        let p = patch_central(b, off);
        let next = off + 46 + u16_at(b, off + 28) + u16_at(b, off + 30) + u16_at(b, off + 32);
        lemma_patch_central(b, off);
        lemma_rewrite_centrals_frame(p, next, end);
    }
}

proof fn lemma_normalized_agree(x: Seq<u8>, y: Seq<u8>, off: int, end: int)
    requires
        end <= x.len(),
        end <= y.len(),
        forall|k: int| 0 <= k < end ==> x[k] == y[k],
    ensures
        central_headers_normalized(x, off, end) == central_headers_normalized(y, off, end),
    decreases if off < end {
        end - off
    } else {
        0
    },
{
    if 0 <= off && off + 46 <= end && sig_at(x, off, 0x01, 0x02) {
        let next = off + 46 + u16_at(x, off + 28) + u16_at(x, off + 30) + u16_at(x, off + 32);
        lemma_normalized_agree(x, y, next, end);
    }
}

/// Rewriting the central headers from `off` to `end` leaves every header of
/// that chain with the TorrentZip versions, method, time and date.
pub proof fn law_rewritten_central_headers_are_normalized(b: Seq<u8>, off: int, end: int)
    ensures
        central_headers_normalized(rewrite_centrals(b, off, end), off, end),
    decreases if off < end {
        end - off
    } else {
        0
    },
{
    if 0 <= off && off + 46 <= end && end <= b.len() && sig_at(b, off, 0x01, 0x02) {
        let p = patch_central(b, off);
        let next = off + 46 + u16_at(b, off + 28) + u16_at(b, off + 30) + u16_at(b, off + 32);
        lemma_patch_central(b, off);
        lemma_rewrite_centrals_frame(p, next, end);
        law_rewritten_central_headers_are_normalized(p, next, end);
        let r = rewrite_centrals(b, off, end);
        assert(r == rewrite_centrals(p, next, end));
        assert(forall|k: int| 0 <= k < off + 46 ==> r[k] == p[k]);
        assert(sig_at(r, off, 0x01, 0x02));
        assert(u16_at(r, off + 28) == u16_at(b, off + 28));
        assert(u16_at(r, off + 30) == u16_at(b, off + 30));
        assert(u16_at(r, off + 32) == u16_at(b, off + 32));
        assert(u16_at(r, off + 4) == u16_at(p, off + 4));
        assert(u16_at(r, off + 6) == u16_at(p, off + 6));
        assert(u16_at(r, off + 8) == u16_at(p, off + 8));
        assert(u16_at(r, off + 10) == u16_at(p, off + 10));
        assert(u16_at(r, off + 12) == u16_at(p, off + 12));
        assert(u16_at(r, off + 14) == u16_at(p, off + 14));
        assert(u16_at(r, off + 34) == u16_at(p, off + 34));
        assert(u16_at(r, off + 36) == u16_at(p, off + 36));
        assert(u16_at(r, off + 38) == u16_at(p, off + 38));
        assert(u16_at(r, off + 40) == u16_at(p, off + 40));
        assert(u16_at(r, off + 42) == u16_at(p, off + 42));
        assert(u16_at(r, off + 44) == u16_at(p, off + 44));
    }
}

/// Every local header in the chain from `off` carries the TorrentZip
/// values: needed version 20, flags 2 (with or without the UTF-8 bit
/// 0x800), method 8 (deflate), and the TorrentZip DOS time and date.
pub open spec fn local_headers_normalized(b: Seq<u8>, off: int) -> bool
    decreases if off < b.len() {
        b.len() - off
    } else {
        0
    },
{
    if 0 <= off && off + 30 <= b.len() && sig_at(b, off, 0x03, 0x04) {
        &&& u16_at(b, off + 4) == 20
        &&& (u16_at(b, off + 6) == 2 || u16_at(b, off + 6) == 0x802)
        &&& u16_at(b, off + 8) == 8
        &&& u16_at(b, off + 10) == TORRENTZIP_DOS_TIME as int
        &&& u16_at(b, off + 12) == TORRENTZIP_DOS_DATE as int
        &&& local_headers_normalized(
            b,
            off + 30 + u16_at(b, off + 26) + u16_at(b, off + 28) + u32_at(b, off + 18),
        )
    } else {
        true
    }
}

proof fn lemma_patch_local(b: Seq<u8>, off: int)
    requires
        0 <= off,
        off + 30 <= b.len(),
    ensures
        patch_local(b, off).len() == b.len(),
        forall|k: int| 0 <= k < b.len() && (k < off + 4 || off + 14 <= k) ==> #[trigger] patch_local(b, off)[k] == b[k],
        u16_at(patch_local(b, off), off + 4) == 20,
        u16_at(patch_local(b, off), off + 6) == 2 || u16_at(patch_local(b, off), off + 6) == 0x802,
        u16_at(patch_local(b, off), off + 8) == 8,
        u16_at(patch_local(b, off), off + 10) == TORRENTZIP_DOS_TIME as int,
        u16_at(patch_local(b, off), off + 12) == TORRENTZIP_DOS_DATE as int,
{
    let f = u16_at(b, off + 6);
    let a1 = set_u16(b, off + 4, 20);
    lemma_set_u16(b, off + 4, 20);
    let a2 = set_u16(a1, off + 6, normalized_flags(f));
    lemma_set_u16(a1, off + 6, normalized_flags(f));
    let a3 = set_u16(a2, off + 8, 8);
    lemma_set_u16(a2, off + 8, 8);
    let a4 = set_u16(a3, off + 10, TORRENTZIP_DOS_TIME);
    lemma_set_u16(a3, off + 10, TORRENTZIP_DOS_TIME);
    let r = set_u16(a4, off + 12, TORRENTZIP_DOS_DATE);
    lemma_set_u16(a4, off + 12, TORRENTZIP_DOS_DATE);
    assert(r == patch_local(b, off));
    assert(u16_at(r, off + 4) == u16_at(a1, off + 4));
    assert(u16_at(r, off + 6) == u16_at(a2, off + 6));
    assert(u16_at(r, off + 8) == u16_at(a3, off + 8));
    assert(u16_at(r, off + 10) == u16_at(a4, off + 10));
}

proof fn lemma_rewrite_locals_frame(b: Seq<u8>, off: int)
    ensures
        rewrite_locals(b, off).len() == b.len(),
        forall|k: int| 0 <= k < off && k < b.len() ==> #[trigger] rewrite_locals(b, off)[k] == b[k],
    decreases if off < b.len() {
        b.len() - off
    } else {
        0
    },
{
    if 0 <= off && off + 30 <= b.len() && sig_at(b, off, 0x03, 0x04) {
        let p = patch_local(b, off);
        let next = off + 30 + u16_at(b, off + 26) + u16_at(b, off + 28) + u32_at(b, off + 18);
        lemma_patch_local(b, off);
        lemma_rewrite_locals_frame(p, next);
    }
}

/// Rewriting the local headers from `off` leaves every header of that
/// chain with the TorrentZip version, method, time and date.
pub proof fn law_rewritten_local_headers_are_normalized(b: Seq<u8>, off: int)
    ensures
        local_headers_normalized(rewrite_locals(b, off), off),
    decreases if off < b.len() {
        b.len() - off
    } else {
        0
    },
{
    if 0 <= off && off + 30 <= b.len() && sig_at(b, off, 0x03, 0x04) {
        let p = patch_local(b, off);
        let next = off + 30 + u16_at(b, off + 26) + u16_at(b, off + 28) + u32_at(b, off + 18);
        lemma_patch_local(b, off);
        lemma_rewrite_locals_frame(p, next);
        law_rewritten_local_headers_are_normalized(p, next);
        let r = rewrite_locals(b, off);
        assert(r == rewrite_locals(p, next));
        assert(forall|k: int| 0 <= k < off + 30 ==> r[k] == p[k]);
        assert(sig_at(r, off, 0x03, 0x04));
        assert(u16_at(r, off + 26) == u16_at(b, off + 26));
        assert(u16_at(r, off + 28) == u16_at(b, off + 28));
        assert(u32_at(r, off + 18) == u32_at(b, off + 18));
        assert(u16_at(r, off + 4) == u16_at(p, off + 4));
        assert(u16_at(r, off + 6) == u16_at(p, off + 6));
        assert(u16_at(r, off + 8) == u16_at(p, off + 8));
        assert(u16_at(r, off + 10) == u16_at(p, off + 10));
        assert(u16_at(r, off + 12) == u16_at(p, off + 12));
    }
}

/// After the TorrentZip metadata pass, every central header of the central
/// directory carries the TorrentZip values (see
/// [`central_headers_normalized`]), the archive ends right after its end
/// record with the comment "TORRENTZIPPED-" and the eight upper-case hex
/// digits of the CRC-32 of the (rewritten) central directory, and the end
/// record gives that comment's length; for any archive whose last end record
/// is complete and whose central directory lies before that record.
pub proof fn law_metadata_normalizes_central_headers(b: Seq<u8>, e: int)
    requires
        last_eocd(rewrite_locals(b, 0), e),
        e + 22 <= rewrite_locals(b, 0).len(),
        u32_at(rewrite_locals(b, 0), e + 16) + u32_at(rewrite_locals(b, 0), e + 12) <= e,
    ensures
        torrentzip_metadata(b) is Some,
        central_headers_normalized(
            torrentzip_metadata(b).unwrap(),
            u32_at(rewrite_locals(b, 0), e + 16),
            u32_at(rewrite_locals(b, 0), e + 16) + u32_at(rewrite_locals(b, 0), e + 12),
        ),
        ({
            let r = torrentzip_metadata(b).unwrap();
            let off = u32_at(rewrite_locals(b, 0), e + 16);
            let end = off + u32_at(rewrite_locals(b, 0), e + 12);
            &&& r.len() == e + 22 + 22
            &&& u16_at(r, e + 20) == 22
            &&& r.subrange(e + 22, r.len() as int) == torrentzip_prefix() + hex8(crc32_ieee(r.subrange(off, end)))
        }),
{
    let b1 = rewrite_locals(b, 0);
    assert(has_eocd(b1));
    let e2 = choose|e2: int| last_eocd(b1, e2);
    lemma_last_eocd_unique(b1, e, e2);
    let size = u32_at(b1, e + 12);
    let off = u32_at(b1, e + 16);
    let b2 = rewrite_centrals(b1, off, off + size);
    lemma_rewrite_centrals_frame(b1, off, off + size);
    law_rewritten_central_headers_are_normalized(b1, off, off + size);
    let cm = torrentzip_comment(crc32_ieee(b2.subrange(off, off + size)));
    let s2 = set_u16(b2, e + 20, cm.len() as u16);
    lemma_set_u16(b2, e + 20, cm.len() as u16);
    let r = s2.subrange(0, e + 22) + cm;
    assert(torrentzip_metadata(b) == Some(r));
    assert forall|k: int| 0 <= k < off + size implies r[k] == b2[k] by {
        assert(r[k] == s2[k]);
    }
    lemma_normalized_agree(r, b2, off, off + size);
    assert(r.subrange(off, off + size) =~= b2.subrange(off, off + size));
    assert(r.subrange(e + 22, r.len() as int) =~= cm);
    assert(r[e + 20] == s2[e + 20] && r[e + 21] == s2[e + 21]);
}

fn rd16(b: &[u8], i: usize) -> (r: u64)
    requires
        i + 1 < b.len(),
    ensures
        r == u16_at(b@, i as int),
        r < 65536,
{
    b[i] as u64 + 256 * (b[i + 1] as u64)
}

fn rd32(b: &[u8], i: usize) -> (r: u64)
    requires
        i + 3 < b.len(),
    ensures
        r == u32_at(b@, i as int),
        r < 0x1_0000_0000,
{
    b[i] as u64 + 256 * (b[i + 1] as u64) + 65536 * (b[i + 2] as u64) + 16777216 * (b[i + 3] as u64)
}

fn wr16(b: &mut Vec<u8>, i: usize, v: u16)
    requires
        i + 1 < old(b).len(),
    ensures
        final(b)@ == set_u16(old(b)@, i as int, v),
{
    b.set(i, (v % 256) as u8);
    b.set(i + 1, (v / 256) as u8);
}

fn sig_exec(b: &[u8], i: usize, c: u8, d: u8) -> (r: bool)
    requires
        i + 4 <= b.len(),
    ensures
        r == sig_at(b@, i as int, c, d),
{
    b[i] == 0x50 && b[i + 1] == 0x4B && b[i + 2] == c && b[i + 3] == d
}

fn norm_flags(f: u64) -> (r: u16)
    ensures
        r == normalized_flags(f as int),
{
    if (f / 2048) % 2 == 1 {
        0x0802
    } else {
        0x0002
    }
}

/// Position of the last end-of-central-directory signature.
fn find_last_eocd(b: &[u8]) -> (r: Option<usize>)
    ensures
        r matches Some(e) ==> last_eocd(b@, e as int),
        r is None ==> !has_eocd(b@),
{
    if b.len() < 4 {
        return None;
    }
    let mut i: usize = b.len() - 4;
    loop
        invariant
            i + 4 <= b@.len(),
            forall|q: int| i < q && q + 4 <= b@.len() ==> !#[trigger] sig_at(b@, q, 0x05, 0x06),
        decreases i,
    {
        if sig_exec(b, i, 0x05, 0x06) {
            return Some(i);
        }
        if i == 0 {
            assert forall|q: int| #[trigger] sig_at(b@, q, 0x05, 0x06) implies false by {
                assert(0 <= q);
                if q == 0 {
                    assert(!sig_at(b@, 0, 0x05, 0x06));
                }
            }
            return None;
        }
        i = i - 1;
    }
}

/// The raw stream of a deflated entry found in an archive, with its CRC-32
/// and sizes as the central directory gives them.
pub struct StoredZipEntry {
    pub compressed_data: Vec<u8>,
    pub crc: u32,
    pub compressed_size: u32,
    pub uncompressed_size: u32,
}

/// The entry named `name` found by walking the central headers from `off`
/// up to `end`: the first header whose name (decoded, invalid bytes
/// replaced) equals `name` decides; it must be deflated and its local header
/// and data must lie within the bytes. `None` when the walk meets anything
/// else, runs past its end or finds no such header.
pub open spec fn raw_entry_scan(b: Seq<u8>, off: int, end: int, name: Seq<char>) -> Option<(Seq<u8>, u32, u32, u32)>
    decreases if off < end {
        end - off
    } else {
        0
    },
{
    if off < 0 || off + 46 > end || end > b.len() || !sig_at(b, off, 0x01, 0x02) {
        None
    } else {
        let name_start = off + 46;
        let name_end = name_start + u16_at(b, off + 28);
        if name_end > b.len() {
            None
        } else if utf8_lossy_chars(b.subrange(name_start, name_end)) == name {
            let rel = u32_at(b, off + 42);
            if u16_at(b, off + 10) != 8 || rel + 30 > b.len() || !sig_at(b, rel, 0x03, 0x04) {
                None
            } else {
                let data_start = rel + 30 + u16_at(b, rel + 26) + u16_at(b, rel + 28);
                let data_end = data_start + u32_at(b, off + 20);
                if data_end > b.len() {
                    None
                } else {
                    Some(
                        (
                            b.subrange(data_start, data_end),
                            u32_at(b, off + 16) as u32,
                            u32_at(b, off + 20) as u32,
                            u32_at(b, off + 24) as u32,
                        ),
                    )
                }
            }
        } else {
            raw_entry_scan(
                b,
                off + 46 + u16_at(b, off + 28) + u16_at(b, off + 30) + u16_at(b, off + 32),
                end,
                name,
            )
        }
    }
}

/// The raw deflated entry named `name` of an archive's bytes: located
/// through the last end record's central directory (see
/// [`raw_entry_scan`]).
pub open spec fn raw_zip_entry(b: Seq<u8>, name: Seq<char>) -> Option<(Seq<u8>, u32, u32, u32)> {
    if !has_eocd(b) {
        None
    } else {
        let e = choose|e: int| last_eocd(b, e);
        if e + 22 > b.len() {
            None
        } else {
            let size = u32_at(b, e + 12);
            let off = u32_at(b, e + 16);
            if off + size > b.len() {
                None
            } else {
                raw_entry_scan(b, off, off + size, name)
            }
        }
    }
}

fn push_le16(out: &mut Vec<u8>, v: u16)
    ensures
        final(out)@ == old(out)@ + le16(v),
{
    out.push((v % 256) as u8);
    out.push((v / 256) as u8);
    assert(final(out)@ =~= old(out)@ + le16(v));
}

fn push_le32(out: &mut Vec<u8>, v: u32)
    ensures
        final(out)@ == old(out)@ + le32(v),
{
    out.push((v % 256) as u8);
    out.push(((v / 256) % 256) as u8);
    out.push(((v / 65536) % 256) as u8);
    out.push((v / 16777216) as u8);
    assert(final(out)@ =~= old(out)@ + le32(v));
}

pub(crate) fn push_bytes(out: &mut Vec<u8>, s: &[u8])
    ensures
        final(out)@ == old(out)@ + s@,
{
    let ghost start = out@;
    let mut i: usize = 0;
    while i < s.len()
        invariant
            i <= s@.len(),
            out@ == start + s@.subrange(0, i as int),
        decreases s@.len() - i,
    {
        out.push(s[i]);
        assert(start + s@.subrange(0, i + 1) =~= out@);
        i = i + 1;
    }
    assert(s@.subrange(0, s@.len() as int) =~= s@);
}

fn hex_upper_exec(v: u32) -> (d: u8)
    requires
        v < 16,
    ensures
        d == hex_upper(v as int),
{
    if v < 10 {
        (0x30 + v) as u8
    } else {
        (0x41 + v - 10) as u8
    }
}

fn push_comment(out: &mut Vec<u8>, crc: u32)
    ensures
        final(out)@ == old(out)@ + torrentzip_comment(crc),
{
    let prefix: [u8; 14] = [0x54, 0x4F, 0x52, 0x52, 0x45, 0x4E, 0x54, 0x5A, 0x49, 0x50, 0x50, 0x45, 0x44, 0x2D];
    assert(prefix@ =~= torrentzip_prefix());
    push_bytes(out, prefix.as_slice());
    let ghost mid = out@;
    out.push(hex_upper_exec((crc / 268435456) % 16));
    out.push(hex_upper_exec((crc / 16777216) % 16));
    out.push(hex_upper_exec((crc / 1048576) % 16));
    out.push(hex_upper_exec((crc / 65536) % 16));
    out.push(hex_upper_exec((crc / 4096) % 16));
    out.push(hex_upper_exec((crc / 256) % 16));
    out.push(hex_upper_exec((crc / 16) % 16));
    out.push(hex_upper_exec(crc % 16));
    assert(out@ =~= mid + hex8(crc));
    assert(final(out)@ =~= old(out)@ + torrentzip_comment(crc));
}

fn is_ascii_bytes(b: &[u8]) -> (r: bool)
    ensures
        r == forall|i: int| 0 <= i < b@.len() ==> b@[i] < 0x80,
{
    let mut i: usize = 0;
    while i < b.len()
        invariant
            i <= b@.len(),
            forall|k: int| 0 <= k < i ==> b@[k] < 0x80,
        decreases b@.len() - i,
    {
        if b[i] >= 0x80 {
            return false;
        }
        i = i + 1;
    }
    true
}

impl Fix {
    /// Flags of a TorrentZip entry: maximum compression, plus the UTF-8 flag
    /// when the name is not ASCII.
    pub fn torrentzip_flags(name: &str) -> (r: u16)
        ensures
            r == torrentzip_flags_spec(encode_utf8(name@)),
    {
        if is_ascii_bytes(str_bytes(name)) {
            0x0002
        } else {
            0x0802
        }
    }

    /// A stored, empty directory entry; its name gets a trailing `/`.
    pub fn build_torrentzip_directory_entry(name: &str) -> (r: TorrentZipBuiltEntry)
        ensures
            encode_utf8(r.name@) == directory_entry_name(encode_utf8(name@)),
            r.compressed_data@.len() == 0,
            r.crc == 0,
            r.compressed_size == 0,
            r.uncompressed_size == 0,
            r.flags == torrentzip_flags_spec(encode_utf8(r.name@)),
            r.compression_method == 0,
            r.external_attributes == 0x10,
    {
        let b = str_bytes(name);
        let entry_name = if b.len() > 0 && b[b.len() - 1] == 0x2F {
            name.to_string()
        } else {
            let mut v = vstd::slice::slice_to_vec(b);
            v.push(0x2F);
            proof {
                lemma_push_ascii_valid(b@, 0x2F);
            }
            crate::text::string_from_utf8(v)
        };
        let flags = Self::torrentzip_flags(entry_name.as_str());
        TorrentZipBuiltEntry {
            name: entry_name,
            compressed_data: Vec::new(),
            crc: 0,
            compressed_size: 0,
            uncompressed_size: 0,
            flags,
            compression_method: 0,
            external_attributes: 0x10,
        }
    }

    /// A deflated file entry: the best raw-deflate stream of the bytes, their
    /// CRC-32 and sizes (each size taken modulo 2^32); `None` exactly when
    /// compressing the bytes fails.
    #[verifier::truncate]
    pub fn compress_torrentzip_entry(name: &str, entry_bytes: &[u8]) -> (r: Option<TorrentZipBuiltEntry>)
        ensures
            r is Some <==> deflate_best(entry_bytes@) is Some,
            r matches Some(e) ==> {
                &&& e.name@ == name@
                &&& e.compressed_data@ == deflate_best(entry_bytes@).unwrap()
                &&& e.crc == crc32_ieee(entry_bytes@)
                &&& e.compressed_size == deflate_best(entry_bytes@).unwrap().len() as u32
                &&& e.uncompressed_size == entry_bytes@.len() as u32
                &&& e.flags == torrentzip_flags_spec(encode_utf8(name@))
                &&& e.compression_method == 8
                &&& e.external_attributes == 0
            },
    {
        let compressed_data = match deflate_raw_best(entry_bytes) {
            Some(d) => d,
            None => {
                return None;
            },
        };
        let crc = crc32(entry_bytes);
        Some(
            TorrentZipBuiltEntry {
                name: name.to_string(),
                compressed_size: compressed_data.len() as u32,
                uncompressed_size: entry_bytes.len() as u32,
                compressed_data,
                crc,
                flags: Self::torrentzip_flags(name),
                compression_method: 8,
                external_attributes: 0,
            },
        )
    }

    /// The TorrentZip archive of `entries`, in the given order: each local
    /// header and data, the central directory, the end record and the
    /// comment with the central directory's CRC-32. Offsets, sizes and counts
    /// are written modulo their field widths.
    #[verifier::truncate]
    pub fn build_torrentzip_archive(entries: &[TorrentZipBuiltEntry]) -> (r: Option<Vec<u8>>)
        ensures
            r matches Some(v) && v@ == torrentzip_archive(entries@),
    {
        let mut archive_bytes: Vec<u8> = Vec::new();
        let mut central_directory: Vec<u8> = Vec::new();
        let mut i: usize = 0;
        while i < entries.len()
            invariant
                i <= entries@.len(),
                archive_bytes@ == locals(entries@, i as int),
                central_directory@ == centrals(entries@, i as int),
            decreases entries@.len() - i,
        {
            let entry = &entries[i];
            let nb = str_bytes(entry.name.as_str());
            let local_offset = archive_bytes.len() as u32;
            let mut rec: Vec<u8> = Vec::new();
            push_le32(&mut rec, 0x04034B50);
            push_le16(&mut rec, 20);
            push_le16(&mut rec, entry.flags);
            push_le16(&mut rec, entry.compression_method);
            push_le16(&mut rec, TORRENTZIP_DOS_TIME);
            push_le16(&mut rec, TORRENTZIP_DOS_DATE);
            push_le32(&mut rec, entry.crc);
            push_le32(&mut rec, entry.compressed_size);
            push_le32(&mut rec, entry.uncompressed_size);
            push_le16(&mut rec, nb.len() as u16);
            push_le16(&mut rec, 0);
            push_bytes(&mut rec, nb);
            push_bytes(&mut rec, entry.compressed_data.as_slice());
            assert(rec@ == local_record(entries@[i as int]));
            let mut cen: Vec<u8> = Vec::new();
            push_le32(&mut cen, 0x02014B50);
            push_le16(&mut cen, 0);
            push_le16(&mut cen, 20);
            push_le16(&mut cen, entry.flags);
            push_le16(&mut cen, entry.compression_method);
            push_le16(&mut cen, TORRENTZIP_DOS_TIME);
            push_le16(&mut cen, TORRENTZIP_DOS_DATE);
            push_le32(&mut cen, entry.crc);
            push_le32(&mut cen, entry.compressed_size);
            push_le32(&mut cen, entry.uncompressed_size);
            push_le16(&mut cen, nb.len() as u16);
            push_le16(&mut cen, 0);
            push_le16(&mut cen, 0);
            push_le16(&mut cen, 0);
            push_le16(&mut cen, 0);
            push_le32(&mut cen, entry.external_attributes);
            push_le32(&mut cen, local_offset);
            push_bytes(&mut cen, nb);
            assert(cen@ == central_record(entries@[i as int], locals(entries@, i as int).len() as u32));
            push_bytes(&mut archive_bytes, rec.as_slice());
            push_bytes(&mut central_directory, cen.as_slice());
            i = i + 1;
        }
        let crc = crc32(central_directory.as_slice());
        let mut comment: Vec<u8> = Vec::new();
        push_comment(&mut comment, crc);
        let central_directory_offset = archive_bytes.len() as u32;
        let central_directory_size = central_directory.len() as u32;
        push_bytes(&mut archive_bytes, central_directory.as_slice());
        push_le32(&mut archive_bytes, 0x06054B50);
        push_le16(&mut archive_bytes, 0);
        push_le16(&mut archive_bytes, 0);
        push_le16(&mut archive_bytes, entries.len() as u16);
        push_le16(&mut archive_bytes, entries.len() as u16);
        push_le32(&mut archive_bytes, central_directory_size);
        push_le32(&mut archive_bytes, central_directory_offset);
        push_le16(&mut archive_bytes, comment.len() as u16);
        push_bytes(&mut archive_bytes, comment.as_slice());
        assert(comment@ =~= torrentzip_comment(crc32_ieee(centrals(entries@, entries@.len() as int))));
        Some(archive_bytes)
    }

    /// The bytes of an archive with TorrentZip metadata applied (see
    /// [`torrentzip_metadata`]); `None` where the end record is missing or
    /// inconsistent.
    pub fn apply_torrentzip_metadata_bytes(zip_bytes: Vec<u8>) -> (r: Option<Vec<u8>>)
        requires
            zip_bytes@.len() <= 0x7FFF_FFFF_FFFF_FFFF,
        ensures
            match r {
                Some(v) => torrentzip_metadata(zip_bytes@) == Some(v@),
                None => torrentzip_metadata(zip_bytes@) is None,
            },
    {
        let ghost b0 = zip_bytes@;
        let mut zip_bytes = zip_bytes;
        let len: usize = zip_bytes.len();
        let mut off: u64 = 0;
        while off + 30 <= len as u64 && sig_exec(zip_bytes.as_slice(), off as usize, 0x03, 0x04)
            invariant
                len == zip_bytes@.len(),
                len == b0.len(),
                len <= 0x7FFF_FFFF_FFFF_FFFF,
                off <= len + 0x1_0002_0000,
                rewrite_locals(zip_bytes@, off as int) == rewrite_locals(b0, 0),
            decreases if off < len {
                len - off
            } else {
                0
            },
        {
            let o = off as usize;
            let ghost before = zip_bytes@;
            let flags = rd16(zip_bytes.as_slice(), o + 6);
            let compressed_size = rd32(zip_bytes.as_slice(), o + 18);
            let file_name_length = rd16(zip_bytes.as_slice(), o + 26);
            let extra_length = rd16(zip_bytes.as_slice(), o + 28);
            wr16(&mut zip_bytes, o + 4, 20);
            wr16(&mut zip_bytes, o + 6, norm_flags(flags));
            wr16(&mut zip_bytes, o + 8, 8);
            wr16(&mut zip_bytes, o + 10, TORRENTZIP_DOS_TIME);
            wr16(&mut zip_bytes, o + 12, TORRENTZIP_DOS_DATE);
            assert(zip_bytes@ == patch_local(before, o as int));
            off = off + 30 + file_name_length + extra_length + compressed_size;
        }
        assert(rewrite_locals(zip_bytes@, off as int) == zip_bytes@);
        let ghost b1 = zip_bytes@;
        let eocd_offset = match find_last_eocd(zip_bytes.as_slice()) {
            Some(e) => e,
            None => {
                return None;
            },
        };
        proof {
            let e = choose|e: int| last_eocd(b1, e);
            lemma_last_eocd_unique(b1, e, eocd_offset as int);
        }
        if eocd_offset as u64 + 22 > len as u64 {
            return None;
        }
        let central_directory_size = rd32(zip_bytes.as_slice(), eocd_offset + 12);
        let central_directory_offset = rd32(zip_bytes.as_slice(), eocd_offset + 16);
        if central_directory_offset + central_directory_size > len as u64 {
            return None;
        }
        let end: u64 = central_directory_offset + central_directory_size;
        let mut c: u64 = central_directory_offset;
        while c + 46 <= end && sig_exec(zip_bytes.as_slice(), c as usize, 0x01, 0x02)
            invariant
                len == zip_bytes@.len(),
                len <= 0x7FFF_FFFF_FFFF_FFFF,
                end <= len,
                c <= len + 0x1_0004_0000,
                rewrite_centrals(zip_bytes@, c as int, end as int) == rewrite_centrals(
                    b1,
                    central_directory_offset as int,
                    end as int,
                ),
                eocd_offset + 22 <= len,
            decreases if c < end {
                end - c
            } else {
                0
            },
        {
            let o = c as usize;
            let ghost before = zip_bytes@;
            let flags = rd16(zip_bytes.as_slice(), o + 8);
            let file_name_length = rd16(zip_bytes.as_slice(), o + 28);
            let extra_length = rd16(zip_bytes.as_slice(), o + 30);
            let comment_length = rd16(zip_bytes.as_slice(), o + 32);
            wr16(&mut zip_bytes, o + 4, 0);
            wr16(&mut zip_bytes, o + 6, 20);
            wr16(&mut zip_bytes, o + 8, norm_flags(flags));
            wr16(&mut zip_bytes, o + 10, 8);
            wr16(&mut zip_bytes, o + 12, TORRENTZIP_DOS_TIME);
            wr16(&mut zip_bytes, o + 14, TORRENTZIP_DOS_DATE);
            wr16(&mut zip_bytes, o + 34, 0);
            wr16(&mut zip_bytes, o + 36, 0);
            wr16(&mut zip_bytes, o + 38, 0);
            wr16(&mut zip_bytes, o + 40, 0);
            wr16(&mut zip_bytes, o + 42, 0);
            wr16(&mut zip_bytes, o + 44, 0);
            assert(zip_bytes@ == patch_central(before, o as int));
            c = c + 46 + file_name_length + extra_length + comment_length;
        }
        assert(rewrite_centrals(zip_bytes@, c as int, end as int) == zip_bytes@);
        let start = central_directory_offset as usize;
        let stop = end as usize;
        let crc = crc32(&zip_bytes.as_slice()[start..stop]);
        let mut comment: Vec<u8> = Vec::new();
        push_comment(&mut comment, crc);
        wr16(&mut zip_bytes, eocd_offset + 20, comment.len() as u16);
        zip_bytes.truncate(eocd_offset + 22);
        push_bytes(&mut zip_bytes, comment.as_slice());
        Some(zip_bytes)
    }

    /// The raw deflated stream of the entry named `entry_name` in an
    /// archive's bytes, with its CRC-32 and sizes (see [`raw_zip_entry`]).
    pub fn read_raw_zip_entry_bytes(zip_bytes: &[u8], entry_name: &str) -> (r: Option<StoredZipEntry>)
        requires
            zip_bytes@.len() <= 0x7FFF_FFFF_FFFF_FFFF,
        ensures
            match r {
                Some(e) => raw_zip_entry(zip_bytes@, entry_name@) == Some(
                    (e.compressed_data@, e.crc, e.compressed_size, e.uncompressed_size),
                ),
                None => raw_zip_entry(zip_bytes@, entry_name@) is None,
            },
    {
        let len = zip_bytes.len();
        let eocd_offset = match find_last_eocd(zip_bytes) {
            Some(e) => e,
            None => {
                return None;
            },
        };
        proof {
            let e = choose|e: int| last_eocd(zip_bytes@, e);
            lemma_last_eocd_unique(zip_bytes@, e, eocd_offset as int);
        }
        if eocd_offset as u64 + 22 > len as u64 {
            return None;
        }
        let central_directory_size = rd32(zip_bytes, eocd_offset + 12);
        let central_directory_offset = rd32(zip_bytes, eocd_offset + 16);
        if central_directory_offset + central_directory_size > len as u64 {
            return None;
        }
        let end: u64 = central_directory_offset + central_directory_size;
        let mut c: u64 = central_directory_offset;
        loop
            invariant
                len == zip_bytes@.len(),
                len <= 0x7FFF_FFFF_FFFF_FFFF,
                end <= len,
                c <= len + 0x1_0004_0000,
                raw_entry_scan(zip_bytes@, c as int, end as int, entry_name@) == raw_zip_entry(
                    zip_bytes@,
                    entry_name@,
                ),
            decreases if c < end {
                end - c
            } else {
                0
            },
        {
            if c + 46 > end {
                return None;
            }
            let o = c as usize;
            if !sig_exec(zip_bytes, o, 0x01, 0x02) {
                return None;
            }
            let compression_method = rd16(zip_bytes, o + 10);
            let crc = rd32(zip_bytes, o + 16);
            let compressed_size = rd32(zip_bytes, o + 20);
            let uncompressed_size = rd32(zip_bytes, o + 24);
            let file_name_length = rd16(zip_bytes, o + 28);
            let extra_length = rd16(zip_bytes, o + 30);
            let comment_length = rd16(zip_bytes, o + 32);
            let relative_offset = rd32(zip_bytes, o + 42);
            let name_start = o + 46;
            if name_start as u64 + file_name_length > len as u64 {
                return None;
            }
            let name_end = name_start + file_name_length as usize;
            let current_name = string_from_utf8_lossy(&zip_bytes[name_start..name_end]);
            if crate::fix::Fix::logical_name_eq(current_name.as_str(), entry_name) {
                if compression_method != 8 {
                    return None;
                }
                if relative_offset + 30 > len as u64 {
                    return None;
                }
                let ro = relative_offset as usize;
                if !sig_exec(zip_bytes, ro, 0x03, 0x04) {
                    return None;
                }
                let local_name_length = rd16(zip_bytes, ro + 26);
                let local_extra_length = rd16(zip_bytes, ro + 28);
                let data_offset = relative_offset + 30 + local_name_length + local_extra_length;
                let data_end = data_offset + compressed_size;
                if data_end > len as u64 {
                    return None;
                }
                let data = vstd::slice::slice_to_vec(&zip_bytes[data_offset as usize..data_end as usize]);
                return Some(
                    StoredZipEntry {
                        compressed_data: data,
                        crc: crc as u32,
                        compressed_size: compressed_size as u32,
                        uncompressed_size: uncompressed_size as u32,
                    },
                );
            }
            c = c + 46 + file_name_length + extra_length + comment_length;
        }
    }
}

/// Appending an ASCII byte to valid UTF-8 keeps it valid.
proof fn lemma_push_ascii_valid(b: Seq<u8>, x: u8)
    requires
        valid_utf8(b),
        x < 0x80,
    ensures
        valid_utf8(b.push(x)),
{
    assert(valid_utf8(seq![x])) by {
        reveal_with_fuel(valid_utf8, 2);
        assert(seq![x].subrange(1, 1) =~= Seq::<u8>::empty());
    }
    valid_utf8_concat(b, seq![x]);
    assert(b + seq![x] =~= b.push(x));
}

} // verus!
