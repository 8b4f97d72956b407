//! Fixed-size lookup keys built from a file size and a hash value.

use vstd::prelude::*;

verus! {

/// Size and CRC32.
pub type CrcKey = (u64, [u8; 4]);

/// Size and SHA-1.
pub type Sha1Key = (u64, [u8; 20]);

/// Size and MD5.
pub type Md5Key = (u64, [u8; 16]);

/// Key from a size and a 4-byte CRC; `None` when `bytes` is not 4 bytes long.
pub fn crc_key(size: u64, bytes: &[u8]) -> (res: Option<CrcKey>)
    ensures
        res is Some <==> bytes@.len() == 4,
        res matches Some(k) ==> k.0 == size && k.1@ == bytes@,
{
    if bytes.len() != 4 {
        return None;
    }
    let arr: [u8; 4] = [bytes[0], bytes[1], bytes[2], bytes[3]];
    assert(arr@ =~= bytes@);
    Some((size, arr))
}

/// Key from a size and a 20-byte SHA-1; `None` when `bytes` is not 20 bytes long.
pub fn sha1_key(size: u64, bytes: &[u8]) -> (res: Option<Sha1Key>)
    ensures
        res is Some <==> bytes@.len() == 20,
        res matches Some(k) ==> k.0 == size && k.1@ == bytes@,
{
    if bytes.len() != 20 {
        return None;
    }
    let arr: [u8; 20] = [
        bytes[0], bytes[1], bytes[2], bytes[3], bytes[4], bytes[5], bytes[6], bytes[7],
        bytes[8], bytes[9], bytes[10], bytes[11], bytes[12], bytes[13], bytes[14], bytes[15],
        bytes[16], bytes[17], bytes[18], bytes[19],
    ];
    assert(arr@ =~= bytes@);
    Some((size, arr))
}

/// Key from a size and a 16-byte MD5; `None` when `bytes` is not 16 bytes long.
pub fn md5_key(size: u64, bytes: &[u8]) -> (res: Option<Md5Key>)
    ensures
        res is Some <==> bytes@.len() == 16,
        res matches Some(k) ==> k.0 == size && k.1@ == bytes@,
{
    if bytes.len() != 16 {
        return None;
    }
    let arr: [u8; 16] = [
        bytes[0], bytes[1], bytes[2], bytes[3], bytes[4], bytes[5], bytes[6], bytes[7],
        bytes[8], bytes[9], bytes[10], bytes[11], bytes[12], bytes[13], bytes[14], bytes[15],
    ];
    assert(arr@ =~= bytes@);
    Some((size, arr))
}

} // verus!
