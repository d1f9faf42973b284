//! The stored value and its on-disk layout: 8 bytes `expire_at` (little
//! endian), 4 bytes `flags` (little endian), then the data.
//!
//! TTL rules: 0 never expires; up to thirty days is relative to now; more
//! than that is an absolute Unix timestamp.
use crate::error::StorageError;
use crate::text::{decimal_digits, decimal_spec, format_decimal, parse_decimal};
use vstd::bytes::{
    spec_u32_from_le_bytes, spec_u32_to_le_bytes, spec_u64_from_le_bytes, spec_u64_to_le_bytes,
    u32_from_le_bytes, u32_to_le_bytes, u64_from_le_bytes, u64_to_le_bytes,
};
use vstd::prelude::*;

verus! {

/// Largest exptime read as relative seconds (thirty days).
pub const MAX_RELATIVE_TTL: u64 = 2592000;

/// Length of the fixed prefix before the data.
pub const HEADER_LEN: usize = 12;

/// A value with its metadata.
#[derive(Debug, Clone)]
pub struct StoredValue {
    /// Expiration instant in Unix seconds; 0 means never.
    pub expire_at: u64,
    /// Opaque client flags.
    pub flags: u32,
    /// The payload.
    pub data: Vec<u8>,
}

/// The `expire_at` that an `exptime` gives at instant `now`; a relative
/// time that would pass the largest instant stays at the largest instant.
pub open spec fn expire_at_for(exptime: u64, now: u64) -> u64 {
    if exptime == 0 {
        0
    } else if exptime <= MAX_RELATIVE_TTL {
        if now as int + exptime as int <= u64::MAX as int {
            (now + exptime) as u64
        } else {
            u64::MAX
        }
    } else {
        exptime
    }
}

/// Whether an entry with this `expire_at` is gone at instant `now`.
pub open spec fn expired_at(expire_at: u64, now: u64) -> bool {
    expire_at != 0 && now >= expire_at
}

/// The stored bytes of a value.
pub open spec fn encoded(expire_at: u64, flags: u32, data: Seq<u8>) -> Seq<u8> {
    spec_u64_to_le_bytes(expire_at) + spec_u32_to_le_bytes(flags) + data
}

/// The value that stored bytes hold, if they are long enough.
pub open spec fn decoded(bytes: Seq<u8>) -> Option<(u64, u32, Seq<u8>)> {
    if bytes.len() < HEADER_LEN {
        None
    } else {
        Some(
            (
                spec_u64_from_le_bytes(bytes.take(8)),
                spec_u32_from_le_bytes(bytes.subrange(8, 12)),
                bytes.skip(12),
            ),
        )
    }
}

/// ASCII white space, as `str::trim` removes it from ASCII text.
pub open spec fn is_ascii_space(b: u8) -> bool {
    b == 9 || b == 10 || b == 11 || b == 12 || b == 13 || b == 32
}

/// Index of the first byte that is not white space, from `i` on.
pub open spec fn trim_start_from(s: Seq<u8>, i: int) -> int
    decreases s.len() - i,
{
    if i >= s.len() || !is_ascii_space(s[i]) {
        i
    } else {
        trim_start_from(s, i + 1)
    }
}

/// One past the last byte that is not white space, below `j`.
pub open spec fn trim_end_from(s: Seq<u8>, lo: int, j: int) -> int
    decreases j - lo,
{
    if j <= lo || !is_ascii_space(s[j - 1]) {
        j
    } else {
        trim_end_from(s, lo, j - 1)
    }
}

/// The data with white space removed at both ends.
pub open spec fn trimmed(s: Seq<u8>) -> Seq<u8> {
    let lo = trim_start_from(s, 0);
    s.subrange(lo, trim_end_from(s, lo, s.len() as int))
}

/// The number that the data of a value spells: decimal digits with an
/// optional leading `+`, surrounded by white space, at most `u64::MAX`.
pub open spec fn numeric_value(data: Seq<u8>) -> Option<nat> {
    let t = trimmed(data);
    if t.len() > 0 && t[0] == 43 {
        decimal_spec(t.skip(1), u64::MAX as nat)
    } else {
        decimal_spec(t, u64::MAX as nat)
    }
}

impl StoredValue {
    /// Creates a value whose expiration follows the memcached exptime rules,
    /// read against the clock.
    pub fn new(flags: u32, exptime: u64, data: Vec<u8>) -> (r: Self)
        ensures
            r.flags == flags,
            r.data@ == data@,
            exists|now: u64| r.expire_at == expire_at_for(exptime, now),
    {
        let expire_at = calculate_expire_at(exptime);
        Self { expire_at, flags, data }
    }

    /// Creates a value with a given expiration instant.
    pub fn with_expire_at(flags: u32, expire_at: u64, data: Vec<u8>) -> (r: Self)
        ensures
            r.expire_at == expire_at,
            r.flags == flags,
            r.data@ == data@,
    {
        Self { expire_at, flags, data }
    }

    /// The stored bytes of this value.
    pub fn encode(&self) -> (r: Vec<u8>)
        ensures
            r@ == encoded(self.expire_at, self.flags, self.data@),
    {
        let mut buf: Vec<u8> = Vec::with_capacity(self.data.len());
        let mut head = u64_to_le_bytes(self.expire_at);
        let mut flags = u32_to_le_bytes(self.flags);
        buf.append(&mut head);
        buf.append(&mut flags);
        buf.extend_from_slice(self.data.as_slice());
        buf
    }

    /// Reads a value from stored bytes; fewer than twelve bytes is corrupt.
    pub fn decode(bytes: &[u8]) -> (r: Result<Self, StorageError>)
        ensures
            bytes@.len() < HEADER_LEN <==> r is Err,
            r matches Ok(v) ==> decoded(bytes@) == Some((v.expire_at, v.flags, v.data@)),
            r matches Err(e) ==> e@ == crate::error::StorageErrorModel::Decoding(
                "Value too short to decode"@,
            ),
    {
        if bytes.len() < HEADER_LEN {
            let msg = "Value too short to decode".to_string();
            proof {
                broadcast use vstd::string::to_string_from_display_ensures_for_str;
            }
            return Err(StorageError::Decoding(msg));
        }
        let expire_at = u64_from_le_bytes(slice_range(bytes, 0, 8));
        let flags = u32_from_le_bytes(slice_range(bytes, 8, 12));
        let data = vstd::slice::slice_to_vec(slice_range(bytes, 12, bytes.len()));
        Ok(Self { expire_at, flags, data })
    }

    /// Whether the value has expired at instant `now`.
    pub fn is_expired_at(&self, now: u64) -> (r: bool)
        ensures
            r == expired_at(self.expire_at, now),
    {
        self.expire_at != 0 && now >= self.expire_at
    }

    /// Whether the value has expired, read against the clock.
    pub fn is_expired(&self) -> (r: bool)
        ensures
            self.expire_at == 0 ==> !r,
            exists|now: u64| r == expired_at(self.expire_at, now),
    {
        let now = current_timestamp();
        self.is_expired_at(now)
    }

    /// Sets a new expiration from an exptime, read against the clock.
    pub fn touch(&mut self, exptime: u64)
        ensures
            final(self).flags == old(self).flags,
            final(self).data@ == old(self).data@,
            exists|now: u64| final(self).expire_at == expire_at_for(exptime, now),
    {
        self.expire_at = calculate_expire_at(exptime);
    }

    /// The data read as an unsigned number.
    pub fn as_u64(&self) -> (r: Result<u64, StorageError>)
        ensures
            r matches Ok(n) ==> numeric_value(self.data@) == Some(n as nat),
            r is Err ==> numeric_value(self.data@) is None && r == Err::<u64, StorageError>(
                StorageError::NotNumeric,
            ),
    {
        let d = self.data.as_slice();
        let mut lo: usize = 0;
        while lo < d.len() && is_space(d[lo])
            invariant
                lo <= d@.len(),
                trim_start_from(d@, 0) == trim_start_from(d@, lo as int),
            decreases d@.len() - lo,
        {
            lo = lo + 1;
        }
        let mut hi: usize = d.len();
        while hi > lo && is_space(d[hi - 1])
            invariant
                lo <= hi <= d@.len(),
                lo == trim_start_from(d@, 0),
                trim_end_from(d@, lo as int, d@.len() as int) == trim_end_from(
                    d@,
                    lo as int,
                    hi as int,
                ),
            decreases hi - lo,
        {
            hi = hi - 1;
        }
        let t = slice_range(d, lo, hi);
        proof {
            assert(t@ == trimmed(d@));
        }
        let digits = if t.len() > 0 && t[0] == 43 {
            slice_range(t, 1, t.len())
        } else {
            t
        };
        proof {
            if t@.len() > 0 && t@[0] == 43 {
                assert(digits@ =~= t@.skip(1));
            }
        }
        match parse_decimal(digits, u64::MAX) {
            Some(n) => Ok(n),
            None => Err(StorageError::NotNumeric),
        }
    }

    /// Replaces the data with the decimal form of `value`.
    pub fn set_numeric(&mut self, value: u64)
        ensures
            final(self).data@ == decimal_digits(value as nat),
            final(self).expire_at == old(self).expire_at,
            final(self).flags == old(self).flags,
    {
        self.data = format_decimal(value);
    }
}

fn is_space(b: u8) -> (r: bool)
    ensures
        r == is_ascii_space(b),
{
    b == 9 || b == 10 || b == 11 || b == 12 || b == 13 || b == 32
}

/// The bytes `s[i..j]`.
pub(crate) fn slice_range(s: &[u8], i: usize, j: usize) -> (r: &[u8])
    requires
        i <= j <= s@.len(),
    ensures
        r@ == s@.subrange(i as int, j as int),
{
    vstd::slice::slice_subrange(s, i, j)
}

/// The expiration instant that an exptime gives at instant `now`.
pub fn calculate_expire_at_from(exptime: u64, now: u64) -> (r: u64)
    ensures
        r == expire_at_for(exptime, now),
{
    if exptime == 0 {
        0
    } else if exptime <= MAX_RELATIVE_TTL {
        now.saturating_add(exptime)
    } else {
        exptime
    }
}

/// The expiration instant that an exptime gives, read against the clock.
pub fn calculate_expire_at(exptime: u64) -> (r: u64)
    ensures
        exptime == 0 ==> r == 0,
        exptime > MAX_RELATIVE_TTL ==> r == exptime,
        exists|now: u64| r == expire_at_for(exptime, now),
{
    let now = current_timestamp();
    calculate_expire_at_from(exptime, now)
}

/// Relies on std::time::SystemTime::now: whole seconds since the Unix epoch,
/// or 0 where the clock reads earlier than the epoch.
#[verifier::external_body]
pub fn current_timestamp() -> (r: u64) {
    std::time::SystemTime::now().duration_since(std::time::UNIX_EPOCH).map(|d| d.as_secs()).unwrap_or(0)
}


/// Decoding the stored bytes of a value gives back its expiration, its
/// flags and its data, bit for bit.
pub proof fn lemma_decode_encode(expire_at: u64, flags: u32, data: Seq<u8>)
    ensures
        decoded(encoded(expire_at, flags, data)) == Some((expire_at, flags, data)),
{
    vstd::bytes::lemma_auto_spec_u64_to_from_le_bytes();
    vstd::bytes::lemma_auto_spec_u32_to_from_le_bytes();
    let s = encoded(expire_at, flags, data);
    assert(s.take(8) =~= spec_u64_to_le_bytes(expire_at));
    assert(s.subrange(8, 12) =~= spec_u32_to_le_bytes(flags));
    assert(s.skip(12) =~= data);
}

} // verus!
