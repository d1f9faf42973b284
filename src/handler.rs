//! The responses to executed commands, built from what storage returned.
use crate::error::StorageError;
use crate::protocol::response::{
    deleted_line, end_line, has_room, not_found_line, server_error_line,
    stored_line, value_line, version_line, ResponseWriter,
};
use crate::storage::policy::MultiGet;
use crate::storage::value::{encoded, expire_at_for, calculate_expire_at_from, StoredValue};
use crate::text::ascii;
use vstd::prelude::*;
use vstd::string::StringSliceAdditionalSpecFns;

verus! {

/// The text sent in answer to `version`.
pub const VERSION: &'static str = "petracache 0.1.0";

/// A key with its live value, if any: (expire_at, flags, data).
pub type Found = (Seq<u8>, Option<(u64, u32, Seq<u8>)>);

/// The `VALUE` blocks of the keys that hit, in order.
pub open spec fn hit_lines(results: Seq<Found>) -> Seq<u8>
    decreases results.len(),
{
    if results.len() == 0 {
        Seq::empty()
    } else {
        let last = results.last();
        hit_lines(results.drop_last()) + match last.1 {
            Some(v) => value_line(last.0, v.1, v.2),
            None => Seq::empty(),
        }
    }
}

/// How many of the keys hit.
pub open spec fn hit_count(results: Seq<Found>) -> nat
    decreases results.len(),
{
    if results.len() == 0 {
        0
    } else {
        hit_count(results.drop_last()) + if results.last().1 is Some {
            1nat
        } else {
            0nat
        }
    }
}

impl MultiGet {
    pub open spec fn found(&self) -> Seq<Found> {
        self.results@.map_values(
            |p: (Vec<u8>, Option<StoredValue>)|
                (
                    p.0@,
                    match p.1 {
                        Some(v) => Some((v.expire_at, v.flags, v.data@)),
                        None => None,
                    },
                ),
        )
    }
}

proof fn lemma_hit_lines_prefix(results: Seq<Found>, i: int)
    requires
        0 <= i <= results.len(),
    ensures
        hit_lines(results.take(i)).len() <= hit_lines(results).len(),
    decreases results.len() - i,
{
    if i < results.len() {
        assert(results.take(i + 1).drop_last() =~= results.take(i));
        lemma_hit_lines_prefix(results, i + 1);
    } else {
        assert(results.take(i) =~= results);
    }
}

/// Answers a `get`: a `VALUE` block per hit in key order, then `END`; or
/// the `SERVER_ERROR` line of a failed read. Returns the hits and misses.
pub fn respond_get(response: &mut ResponseWriter, outcome: &Result<MultiGet, StorageError>) -> (r: (
    u64,
    u64,
))
    requires
        match outcome {
            Ok(g) => has_room((old(response)@.len() + hit_lines(g.found()).len()) as int, 0),
            Err(e) => has_room(old(response)@.len() as int, e@.message().len() as int),
        },
    ensures
        match outcome {
            Ok(g) => final(response)@ == old(response)@ + hit_lines(g.found()) + end_line()
                && r.0 == hit_count(g.found()) && r.0 + r.1 == g.results@.len(),
            Err(e) => final(response)@ == old(response)@ + server_error_line(e@.message()) && r
                == (0u64, 0u64),
        },
{
    match outcome {
        Err(e) => {
            response.storage_error(e);
            (0, 0)
        },
        Ok(g) => {
            let ghost found = g.found();
            let ghost start = response@;
            let mut hits: u64 = 0;
            let mut misses: u64 = 0;
            let mut i: usize = 0;
            proof {
                assert(found.take(0) =~= Seq::<Found>::empty());
            }
            while i < g.results.len()
                invariant
                    i <= g.results@.len() == found.len(),
                    found == g.found(),
                    has_room((start.len() + hit_lines(found).len()) as int, 0),
                    response@ == start + hit_lines(found.take(i as int)),
                    hits == hit_count(found.take(i as int)),
                    hits + misses == i,
                decreases g.results@.len() - i,
            {
                proof {
                    assert(found.take(i + 1).drop_last() =~= found.take(i as int));
                    lemma_hit_lines_prefix(found, i + 1);
                    lemma_hit_count_le(found.take(i as int));
                }
                let (key, value) = &g.results[i];
                match value {
                    Some(v) => {
                        response.value(key.as_slice(), v.flags, v.data.as_slice());
                        hits = hits + 1;
                    },
                    None => {
                        misses = misses + 1;
                    },
                }
                proof {
                    assert(response@ =~= start + hit_lines(found.take(i + 1)));
                }
                i = i + 1;
            }
            proof {
                assert(found.take(i as int) =~= found);
            }
            response.end();
            (hits, misses)
        },
    }
}

proof fn lemma_hit_count_le(results: Seq<Found>)
    ensures
        hit_count(results) <= results.len(),
    decreases results.len(),
{
    if results.len() > 0 {
        lemma_hit_count_le(results.drop_last());
    }
}

/// Answers a `set`: `STORED`, or the `SERVER_ERROR` line of a failed write.
pub fn respond_set(response: &mut ResponseWriter, outcome: &Result<(), StorageError>)
    requires
        match outcome {
            Ok(_) => has_room(old(response)@.len() as int, 0),
            Err(e) => has_room(old(response)@.len() as int, e@.message().len() as int),
        },
    ensures
        match outcome {
            Ok(_) => final(response)@ == old(response)@ + stored_line(),
            Err(e) => final(response)@ == old(response)@ + server_error_line(e@.message()),
        },
{
    match outcome {
        Ok(_) => response.stored(),
        Err(e) => response.storage_error(e),
    }
}

/// Answers a `delete`: `DELETED` when the key existed, `NOT_FOUND` when it
/// did not, or the `SERVER_ERROR` line of a failed delete.
pub fn respond_delete(response: &mut ResponseWriter, outcome: &Result<bool, StorageError>)
    requires
        match outcome {
            Ok(_) => has_room(old(response)@.len() as int, 0),
            Err(e) => has_room(old(response)@.len() as int, e@.message().len() as int),
        },
    ensures
        match outcome {
            Ok(true) => final(response)@ == old(response)@ + deleted_line(),
            Ok(false) => final(response)@ == old(response)@ + not_found_line(),
            Err(e) => final(response)@ == old(response)@ + server_error_line(e@.message()),
        },
{
    match outcome {
        Ok(true) => response.deleted(),
        Ok(false) => response.not_found(),
        Err(e) => response.storage_error(e),
    }
}

/// Answers `version` with the server's name and version.
pub fn respond_version(response: &mut ResponseWriter)
    requires
        has_room(old(response)@.len() as int, 16),
    ensures
        final(response)@ == old(response)@ + version_line(ascii(VERSION@)),
{
    proof {
        reveal_strlit("petracache 0.1.0");
        broadcast use vstd::string::is_ascii_spec_bytes;
        assert(vstd::string::is_ascii(VERSION));
        assert(VERSION.spec_bytes() =~= ascii(VERSION@));
    }
    response.version(VERSION)
}

/// The bytes a `set` stores: the value with its expiration computed at `now`.
pub fn set_entry(flags: u32, exptime: u64, data: &[u8], now: u64) -> (r: Vec<u8>)
    ensures
        r@ == encoded(expire_at_for(exptime, now), flags, data@),
{
    let value = StoredValue::with_expire_at(
        flags,
        calculate_expire_at_from(exptime, now),
        vstd::slice::slice_to_vec(data),
    );
    value.encode()
}

} // verus!
