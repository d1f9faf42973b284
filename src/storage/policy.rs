//! What the storage façade decides from what the engine hands back: lazy
//! expiration on reads, the batched read, and the compaction filter.
use crate::error::{StorageError, StorageErrorModel};
use crate::storage::value::{decoded, encoded, expired_at, slice_range, StoredValue};
use vstd::bytes::{spec_u64_from_le_bytes, u64_from_le_bytes};
use vstd::prelude::*;

verus! {

/// Memory usage statistics of the engine.
#[derive(Debug, Clone, Default)]
pub struct MemoryUsage {
    /// Block cache usage in bytes.
    pub block_cache_usage: usize,
    /// Total memory usage in bytes.
    pub total: usize,
}

/// TTL expiration statistics.
#[derive(Debug, Clone, Default)]
pub struct TtlStats {
    /// Keys removed by lazy expiration.
    pub expired_removed: u64,
    /// Keys removed by the compaction filter.
    pub compaction_removed: u64,
}

impl MemoryUsage {
    /// Usage from the engine's block-cache property, 0 where it is unknown.
    pub fn from_block_cache(property: Option<u64>) -> (r: Self)
        ensures
            r.block_cache_usage == r.total,
            r.total as int == match property {
                Some(n) => if n <= usize::MAX { n as int } else { usize::MAX as int },
                None => 0int,
            },
    {
        let used: usize = match property {
            Some(n) => if n <= usize::MAX as u64 {
                n as usize
            } else {
                usize::MAX
            },
            None => 0,
        };
        MemoryUsage { block_cache_usage: used, total: used }
    }
}

/// What one engine read means at an instant.
pub enum LookupModel {
    Hit(u64, u32, Seq<u8>),
    Miss,
    Expired,
    Corrupt,
}

/// The meaning of the bytes stored under a key (if any) at instant `now`.
pub open spec fn lookup_spec(raw: Option<Seq<u8>>, now: u64) -> LookupModel {
    match raw {
        None => LookupModel::Miss,
        Some(b) => match decoded(b) {
            None => LookupModel::Corrupt,
            Some(v) => if expired_at(v.0, now) {
                LookupModel::Expired
            } else {
                LookupModel::Hit(v.0, v.1, v.2)
            },
        },
    }
}

/// Outcome of one read.
#[derive(Debug)]
pub enum Lookup {
    /// A live value.
    Hit(StoredValue),
    /// Nothing is stored under the key.
    Miss,
    /// The entry is past its expiration: the caller deletes it, best effort,
    /// and answers a miss.
    Expired,
}

/// The error for stored bytes too short to hold a value.
pub open spec fn corrupt_error() -> StorageErrorModel {
    StorageErrorModel::Decoding("Value too short to decode"@)
}

pub open spec fn raw_view(raw: Option<Vec<u8>>) -> Option<Seq<u8>> {
    match raw {
        Some(b) => Some(b@),
        None => None,
    }
}

pub open spec fn lookup_matches(r: Result<Lookup, StorageError>, m: LookupModel) -> bool {
    match m {
        LookupModel::Hit(e, f, d) => r matches Ok(Lookup::Hit(v)) && v.expire_at == e && v.flags == f
            && v.data@ == d,
        LookupModel::Miss => r matches Ok(Lookup::Miss),
        LookupModel::Expired => r matches Ok(Lookup::Expired),
        LookupModel::Corrupt => r matches Err(e) && e@ == corrupt_error(),
    }
}

/// Decides a single-key read from what the engine returned for the key.
pub fn resolve_get(raw: Option<Vec<u8>>, now: u64) -> (r: Result<Lookup, StorageError>)
    ensures
        lookup_matches(r, lookup_spec(raw_view(raw), now)),
{
    match raw {
        None => Ok(Lookup::Miss),
        Some(bytes) => match StoredValue::decode(bytes.as_slice()) {
            Err(e) => Err(e),
            Ok(v) => if v.is_expired_at(now) {
                Ok(Lookup::Expired)
            } else {
                Ok(Lookup::Hit(v))
            },
        },
    }
}

/// One entry of a batched engine read.
pub open spec fn entry_view(e: Result<Option<Vec<u8>>, StorageError>) -> Result<
    Option<Seq<u8>>,
    StorageErrorModel,
> {
    match e {
        Ok(raw) => Ok(raw_view(raw)),
        Err(err) => Err(err@),
    }
}

pub type MultiModel = (Seq<Option<(u64, u32, Seq<u8>)>>, Seq<Seq<u8>>);

/// A batched read walked in key order: per key its live value or nothing,
/// and the keys found expired; the first engine error or corrupt entry
/// fails the whole batch.
pub open spec fn multi_spec(
    keys: Seq<Seq<u8>>,
    raws: Seq<Result<Option<Seq<u8>>, StorageErrorModel>>,
    now: u64,
) -> Result<MultiModel, StorageErrorModel>
    decreases raws.len(),
{
    if raws.len() == 0 || keys.len() == 0 {
        Ok((Seq::empty(), Seq::empty()))
    } else {
        match multi_spec(keys.drop_last(), raws.drop_last(), now) {
            Err(e) => Err(e),
            Ok(acc) => match raws.last() {
                Err(e) => Err(e),
                Ok(raw) => match lookup_spec(raw, now) {
                    LookupModel::Corrupt => Err(corrupt_error()),
                    LookupModel::Miss => Ok((acc.0.push(None), acc.1)),
                    LookupModel::Expired => Ok((acc.0.push(None), acc.1.push(keys.last()))),
                    LookupModel::Hit(e, f, d) => Ok((acc.0.push(Some((e, f, d))), acc.1)),
                },
            },
        }
    }
}

/// Outcome of a batched read.
#[derive(Debug)]
pub struct MultiGet {
    /// Each key in input order with its live value, or `None` for a miss or
    /// an expired entry.
    pub results: Vec<(Vec<u8>, Option<StoredValue>)>,
    /// The keys found expired, in input order: the caller deletes them, best
    /// effort, and counts them.
    pub expired: Vec<Vec<u8>>,
}

pub open spec fn value_view(v: Option<StoredValue>) -> Option<(u64, u32, Seq<u8>)> {
    match v {
        Some(s) => Some((s.expire_at, s.flags, s.data@)),
        None => None,
    }
}

impl MultiGet {
    pub open spec fn model(&self) -> MultiModel {
        (
            self.results@.map_values(|p: (Vec<u8>, Option<StoredValue>)| value_view(p.1)),
            self.expired@.map_values(|k: Vec<u8>| k@),
        )
    }

    pub open spec fn keys(&self) -> Seq<Seq<u8>> {
        self.results@.map_values(|p: (Vec<u8>, Option<StoredValue>)| p.0@)
    }
}

/// A copy of an error.
pub fn copy_error(e: &StorageError) -> (r: StorageError)
    ensures
        r@ == e@,
{
    match e {
        StorageError::Engine(s) => StorageError::Engine(s.clone()),
        StorageError::Internal(s) => StorageError::Internal(s.clone()),
        StorageError::Encoding(s) => StorageError::Encoding(s.clone()),
        StorageError::Decoding(s) => StorageError::Decoding(s.clone()),
        StorageError::NotFound => StorageError::NotFound,
        StorageError::AlreadyExists => StorageError::AlreadyExists,
        StorageError::NotNumeric => StorageError::NotNumeric,
        StorageError::NumericOverflow => StorageError::NumericOverflow,
        StorageError::NumericUnderflow => StorageError::NumericUnderflow,
    }
}

/// Decides a batched read from the engine's per-key results, given in the
/// order of `keys`.
pub fn resolve_get_multi(
    keys: &Vec<Vec<u8>>,
    raws: &Vec<Result<Option<Vec<u8>>, StorageError>>,
    now: u64,
) -> (r: Result<MultiGet, StorageError>)
    requires
        keys@.len() == raws@.len(),
    ensures
        match multi_spec(
            keys@.map_values(|k: Vec<u8>| k@),
            raws@.map_values(|e: Result<Option<Vec<u8>>, StorageError>| entry_view(e)),
            now,
        ) {
            Ok(m) => r matches Ok(g) && g.model() == m && g.keys() == keys@.map_values(
                |k: Vec<u8>| k@,
            ),
            Err(e) => r matches Err(x) && x@ == e,
        },
{
    let ghost ks = keys@.map_values(|k: Vec<u8>| k@);
    let ghost rs = raws@.map_values(|e: Result<Option<Vec<u8>>, StorageError>| entry_view(e));
    let mut results: Vec<(Vec<u8>, Option<StoredValue>)> = Vec::new();
    let mut expired: Vec<Vec<u8>> = Vec::new();
    let mut i: usize = 0;
    proof {
        assert(ks.take(0) =~= Seq::<Seq<u8>>::empty());
        assert(rs.take(0).len() == 0);
        assert(results@.map_values(|p: (Vec<u8>, Option<StoredValue>)| value_view(p.1)) =~= Seq::<
            Option<(u64, u32, Seq<u8>)>,
        >::empty());
        assert(expired@.map_values(|k: Vec<u8>| k@) =~= Seq::<Seq<u8>>::empty());
        assert(results@.map_values(|p: (Vec<u8>, Option<StoredValue>)| p.0@) =~= Seq::<
            Seq<u8>,
        >::empty());
    }
    while i < raws.len()
        invariant
            i <= raws@.len() == keys@.len(),
            ks == keys@.map_values(|k: Vec<u8>| k@),
            rs == raws@.map_values(|e: Result<Option<Vec<u8>>, StorageError>| entry_view(e)),
            multi_spec(ks.take(i as int), rs.take(i as int), now) == Ok::<
                MultiModel,
                StorageErrorModel,
            >(
                (
                    results@.map_values(|p: (Vec<u8>, Option<StoredValue>)| value_view(p.1)),
                    expired@.map_values(|k: Vec<u8>| k@),
                ),
            ),
            results@.map_values(|p: (Vec<u8>, Option<StoredValue>)| p.0@) == ks.take(i as int),
        decreases raws@.len() - i,
    {
        let ghost old_results = results@;
        let ghost old_expired = expired@;
        proof {
            assert(ks.take(i + 1).drop_last() =~= ks.take(i as int));
            assert(rs.take(i + 1).drop_last() =~= rs.take(i as int));
            assert(ks.take(i + 1).last() == keys@[i as int]@);
            assert(rs.take(i + 1).last() == entry_view(raws@[i as int]));
        }
        let key = vstd::slice::slice_to_vec(keys[i].as_slice());
        match &raws[i] {
            Err(e) => {
                proof {
                    lemma_multi_err_sticky(ks, rs, i + 1, now, e@);
                }
                return Err(copy_error(e));
            },
            Ok(None) => {
                results.push((key, None));
            },
            Ok(Some(bytes)) => {
                match StoredValue::decode(bytes.as_slice()) {
                    Err(e) => {
                        proof {
                            lemma_multi_err_sticky(ks, rs, i + 1, now, e@);
                        }
                        return Err(e);
                    },
                    Ok(v) => {
                        if v.is_expired_at(now) {
                            let copy = vstd::slice::slice_to_vec(key.as_slice());
                            expired.push(copy);
                            results.push((key, None));
                        } else {
                            results.push((key, Some(v)));
                        }
                    },
                }
            },
        }
        proof {
            assert(results@.map_values(|p: (Vec<u8>, Option<StoredValue>)| value_view(p.1))
                =~= old_results.map_values(|p: (Vec<u8>, Option<StoredValue>)| value_view(p.1)).push(
                value_view(results@.last().1),
            ));
            assert(results@.map_values(|p: (Vec<u8>, Option<StoredValue>)| p.0@) =~= ks.take(i + 1));
            assert(expired@.map_values(|k: Vec<u8>| k@) =~= old_expired.map_values(
                |k: Vec<u8>| k@,
            ) || expired@.map_values(|k: Vec<u8>| k@) =~= old_expired.map_values(
                |k: Vec<u8>| k@,
            ).push(ks[i as int]));
        }
        i = i + 1;
    }
    proof {
        assert(ks.take(i as int) =~= ks);
        assert(rs.take(i as int) =~= rs);
    }
    Ok(MultiGet { results, expired })
}

proof fn lemma_multi_err_sticky(
    keys: Seq<Seq<u8>>,
    raws: Seq<Result<Option<Seq<u8>>, StorageErrorModel>>,
    j: int,
    now: u64,
    e: StorageErrorModel,
)
    requires
        0 <= j <= raws.len(),
        keys.len() == raws.len(),
        multi_spec(keys.take(j), raws.take(j), now) == Err::<MultiModel, StorageErrorModel>(e),
    ensures
        multi_spec(keys, raws, now) == Err::<MultiModel, StorageErrorModel>(e),
    decreases raws.len() - j,
{
    if j == raws.len() {
        assert(keys.take(j) =~= keys);
        assert(raws.take(j) =~= raws);
    } else {
        assert(keys.take(j + 1).drop_last() =~= keys.take(j));
        assert(raws.take(j + 1).drop_last() =~= raws.take(j));
        lemma_multi_err_sticky(keys, raws, j + 1, now, e);
    }
}

/// The compaction filter's verdict on one entry.
#[derive(Debug, Clone, Copy, PartialEq, Eq)]
pub enum FilterDecision {
    Keep,
    Remove,
}

/// An entry goes at compaction exactly when its first eight bytes, read
/// little endian, give a nonzero `expire_at` that `now` has reached.
pub open spec fn removes(value: Seq<u8>, now: u64) -> bool {
    value.len() >= 8 && expired_at(spec_u64_from_le_bytes(value.take(8)), now)
}

/// The compaction filter: reads only the expiration prefix of an entry.
pub fn ttl_compaction_decision(value: &[u8], now: u64) -> (r: FilterDecision)
    ensures
        (r == FilterDecision::Remove) == removes(value@, now),
{
    if value.len() >= 8 {
        let expire_at = u64_from_le_bytes(slice_range(value, 0, 8));
        if expire_at != 0 && now >= expire_at {
            return FilterDecision::Remove;
        }
    }
    FilterDecision::Keep
}


/// What the engine holds under a key, if anything.
pub open spec fn stored_under(contents: Map<Seq<u8>, Seq<u8>>, key: Seq<u8>) -> Option<Seq<u8>> {
    if contents.contains_key(key) {
        Some(contents[key])
    } else {
        None
    }
}

/// After a `set` of a key, a read of the key gives back the value with its
/// flags and data while it lives, and a miss from its expiration on; after
/// a `delete` of the key, a read misses.
pub proof fn lemma_set_then_get(
    contents: Map<Seq<u8>, Seq<u8>>,
    key: Seq<u8>,
    expire_at: u64,
    flags: u32,
    data: Seq<u8>,
    now: u64,
)
    requires
        crate::protocol::command::valid_key(key),
    ensures
        !expired_at(expire_at, now) ==> lookup_spec(
            stored_under(contents.insert(key, encoded(expire_at, flags, data)), key),
            now,
        ) == LookupModel::Hit(expire_at, flags, data),
        expired_at(expire_at, now) ==> lookup_spec(
            stored_under(contents.insert(key, encoded(expire_at, flags, data)), key),
            now,
        ) == LookupModel::Expired,
        lookup_spec(stored_under(contents.remove(key), key), now) == LookupModel::Miss,
{
    crate::storage::value::lemma_decode_encode(expire_at, flags, data);
}

} // verus!
