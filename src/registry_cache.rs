use vstd::prelude::*;

use crate::registry::{le_bytes, u32_le_bytes, DataInitError};

verus! {

/// The format version of the cache that this library writes and reads.
pub const CACHE_VERSION: u32 = 1;

/// The ten bytes that open a cache file: `FoRegistry` in ASCII.
pub open spec fn magic() -> Seq<u8> {
    seq![70u8, 111u8, 82u8, 101u8, 103u8, 105u8, 115u8, 116u8, 114u8, 121u8]
}

/// The header of a cache file: the tag, then the version in four bytes,
/// least significant first.
pub open spec fn header_bytes(version: u32) -> Seq<u8> {
    magic() + le_bytes(version)
}

/// The number that four bytes hold, least significant first.
pub open spec fn le_u32(b: Seq<u8>) -> u32 {
    (b[0] as int + 256 * (b[1] as int) + 65536 * (b[2] as int) + 16777216 * (b[3] as int)) as u32
}

/// The header of a cache file.
#[derive(Debug)]
pub struct FoRegistryCacheHeader {
    pub pattern: Vec<u8>,
    pub version: u32,
}

impl FoRegistryCacheHeader {
    /// The header was written by this format and version.
    pub open spec fn spec_is_current(&self) -> bool {
        self.pattern@ == magic() && self.version == CACHE_VERSION
    }
}

/// A cache file: its header and the encoded registry that follows it.
#[derive(Debug)]
pub struct FoRegistryCache {
    pub header: FoRegistryCacheHeader,
    pub payload: Vec<u8>,
}

fn magic_bytes() -> (r: Vec<u8>)
    ensures
        r@ == magic(),
{
    let r = vec![70u8, 111u8, 82u8, 101u8, 103u8, 105u8, 115u8, 116u8, 114u8, 121u8];
    assert(r@ =~= magic());
    r
}

fn same_bytes(a: &Vec<u8>, b: &Vec<u8>) -> (r: bool)
    ensures
        r == (a@ == b@),
{
    if a.len() != b.len() {
        return false;
    }
    let mut i: usize = 0;
    while i < a.len()
        invariant
            a.len() == b.len(),
            i <= a.len(),
            forall|j: int| 0 <= j < i ==> a@[j] == b@[j],
        decreases a.len() - i,
    {
        if a[i] != b[i] {
            return false;
        }
        i += 1;
    }
    assert(a@ =~= b@);
    true
}

proof fn lemma_le_round_trip(v: u32)
    ensures
        le_u32(le_bytes(v)) == v,
{
    let b = le_bytes(v);
    assert(v == (v % 256) + 256 * ((v / 256) % 256) + 65536 * ((v / 65536) % 256) + 16777216 * ((
    v / 16777216) % 256)) by (nonlinear_arith);
}

impl FoRegistryCache {
    /// A cache of the current format and version around `payload`.
    pub fn new(payload: Vec<u8>) -> (r: FoRegistryCache)
        ensures
            r.header.spec_is_current(),
            r.payload@ == payload@,
    {
        FoRegistryCache {
            header: FoRegistryCacheHeader { pattern: magic_bytes(), version: CACHE_VERSION },
            payload,
        }
    }

    /// The bytes of the cache file: header, then payload.
    pub fn to_bytes(&self) -> (r: Vec<u8>)
        ensures
            r@ == self.header.pattern@ + le_bytes(self.header.version) + self.payload@,
    {
        let mut out: Vec<u8> = Vec::new();
        let mut i: usize = 0;
        let version = u32_le_bytes(self.header.version);
        let ghost parts = self.header.pattern@ + version@ + self.payload@;
        while i < self.header.pattern.len()
            invariant
                i <= self.header.pattern.len(),
                out@ == self.header.pattern@.take(i as int),
            decreases self.header.pattern.len() - i,
        {
            out.push(self.header.pattern[i]);
            assert(self.header.pattern@.take(i + 1) == self.header.pattern@.take(i as int).push(
                self.header.pattern@[i as int],
            ));
            i += 1;
        }
        assert(self.header.pattern@.take(i as int) == self.header.pattern@);
        let mut j: usize = 0;
        while j < 4
            invariant
                j <= 4,
                version@.len() == 4,
                out@ == self.header.pattern@ + version@.take(j as int),
            decreases 4 - j,
        {
            out.push(version[j]);
            assert(version@.take(j + 1) == version@.take(j as int).push(version@[j as int]));
            j += 1;
        }
        assert(version@.take(4) == version@);
        let mut k: usize = 0;
        while k < self.payload.len()
            invariant
                k <= self.payload.len(),
                out@ == self.header.pattern@ + version@ + self.payload@.take(k as int),
            decreases self.payload.len() - k,
        {
            out.push(self.payload[k]);
            assert(self.payload@.take(k + 1) == self.payload@.take(k as int).push(self.payload@[k as int]));
            k += 1;
        }
        assert(self.payload@.take(k as int) == self.payload@);
        out
    }

    /// Reads the header of a cache file; the rest is the payload, which is
    /// not looked at.
    pub fn from_bytes(bytes: &[u8]) -> (r: Result<FoRegistryCache, DataInitError>)
        ensures
            bytes@.len() < 14 ==> r is Err && r->Err_0 is CacheDeserialize,
            bytes@.len() >= 14 ==> (r matches Ok(c) && c.header.pattern@ == bytes@.take(10)
                && c.header.version == le_u32(bytes@.subrange(10, 14)) && c.payload@ == bytes@.skip(
                14,
            )),
    {
        if bytes.len() < 14 {
            return Err(DataInitError::CacheDeserialize);
        }
        let mut pattern: Vec<u8> = Vec::new();
        let mut i: usize = 0;
        while i < 10
            invariant
                i <= 10,
                bytes@.len() >= 14,
                pattern@ == bytes@.take(i as int),
            decreases 10 - i,
        {
            pattern.push(bytes[i]);
            assert(bytes@.take(i + 1) == bytes@.take(i as int).push(bytes@[i as int]));
            i += 1;
        }
        let version = ((bytes[10] as u64) + 256 * (bytes[11] as u64) + 65536 * (bytes[12] as u64)
            + 16777216 * (bytes[13] as u64)) as u32;
        let mut payload: Vec<u8> = Vec::new();
        let mut k: usize = 14;
        while k < bytes.len()
            invariant
                14 <= k <= bytes@.len(),
                payload@ == bytes@.subrange(14, k as int),
            decreases bytes.len() - k,
        {
            payload.push(bytes[k]);
            assert(bytes@.subrange(14, k + 1) == bytes@.subrange(14, k as int).push(bytes@[k as int]));
            k += 1;
        }
        assert(bytes@.subrange(14, k as int) == bytes@.skip(14));
        Ok(FoRegistryCache { header: FoRegistryCacheHeader { pattern, version }, payload })
    }

    /// The payload, if the header is of the current format and version.
    pub fn into_data(self) -> (r: Result<Vec<u8>, DataInitError>)
        ensures
            self.header.spec_is_current() ==> (r matches Ok(p) && p@ == self.payload@),
            !self.header.spec_is_current() ==> r is Err && r->Err_0 is CacheIncompatible,
    {
        let expected = magic_bytes();
        if same_bytes(&self.header.pattern, &expected) && self.header.version == CACHE_VERSION {
            Ok(self.payload)
        } else {
            Err(DataInitError::CacheIncompatible)
        }
    }
}

/// Cache round trip: the bytes written for a payload read back as a
/// current header followed by that payload.
pub proof fn lemma_cache_round_trip(payload: Seq<u8>)
    ensures
        ({
            let bytes = header_bytes(CACHE_VERSION) + payload;
            &&& bytes.len() >= 14
            &&& bytes.take(10) == magic()
            &&& le_u32(bytes.subrange(10, 14)) == CACHE_VERSION
            &&& bytes.skip(14) == payload
        }),
{
    let bytes = header_bytes(CACHE_VERSION) + payload;
    lemma_le_round_trip(CACHE_VERSION);
    assert(bytes.take(10) =~= magic());
    assert(bytes.subrange(10, 14) =~= le_bytes(CACHE_VERSION));
    assert(bytes.skip(14) =~= payload);
}

/// Schema drift is rejected: a header that carries another version reads
/// back as that version whatever payload follows, so the cache is refused.
pub proof fn lemma_version_drift_rejected(version: u32, payload: Seq<u8>)
    requires
        version != CACHE_VERSION,
    ensures
        ({
            let bytes = header_bytes(version) + payload;
            &&& bytes.len() >= 14
            &&& le_u32(bytes.subrange(10, 14)) == version
            &&& le_u32(bytes.subrange(10, 14)) != CACHE_VERSION
        }),
{
    let bytes = header_bytes(version) + payload;
    lemma_le_round_trip(version);
    assert(bytes.subrange(10, 14) =~= le_bytes(version));
}

} // verus!
