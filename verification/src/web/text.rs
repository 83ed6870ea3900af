//! A cache of text sizes. Measuring a text is slow, so the size of each of
//! the texts measured last is kept, and a text is measured anew only once
//! it has dropped out.

use vstd::prelude::*;
use crate::error::Error;

verus! {

/// The cache of the `lru` crate, whose inside Verus does not look into.
#[verifier::external_type_specification]
#[verifier::external_body]
#[verifier::reject_recursive_types(K)]
#[verifier::reject_recursive_types(V)]
#[verifier::reject_recursive_types(S)]
pub struct ExLruCache<K, V, S>(lru::LruCache<K, V, S>);

/// The hasher that the caches of the `lru` crate use unless told otherwise.
#[verifier::external_type_specification]
#[verifier::external_body]
pub struct ExDefaultHasher(lru::DefaultHasher);

/// The keys and sizes that a cache holds, the one used last first.
pub uninterp spec fn lru_entries(cache: lru::LruCache<String, (u32, u32)>) -> Seq<
    (Seq<char>, (u32, u32)),
>;

/// The number of entries that a cache was made for.
pub uninterp spec fn lru_cap(cache: lru::LruCache<String, (u32, u32)>) -> nat;

/// The place of `key` among the entries; their number where it is not
/// among them.
pub open spec fn index_of(entries: Seq<(Seq<char>, (u32, u32))>, key: Seq<char>) -> int
    decreases entries.len(),
{
    if entries.len() == 0 {
        0
    } else if entries[0].0 == key {
        0
    } else {
        1 + index_of(entries.drop_first(), key)
    }
}

/// The size kept for `key`, if there is one.
pub open spec fn looked_up(entries: Seq<(Seq<char>, (u32, u32))>, key: Seq<char>) -> Option<
    (u32, u32),
> {
    let i = index_of(entries, key);
    if 0 <= i < entries.len() {
        Some(entries[i].1)
    } else {
        None
    }
}

/// The entries after `key` was asked for: its entry, if there is one, has
/// moved to the front.
pub open spec fn touched(entries: Seq<(Seq<char>, (u32, u32))>, key: Seq<char>) -> Seq<
    (Seq<char>, (u32, u32)),
> {
    let i = index_of(entries, key);
    if 0 <= i < entries.len() {
        seq![entries[i]] + entries.remove(i)
    } else {
        entries
    }
}

/// The entries after `size` was put in for `key`, in a cache made for `cap`
/// entries: the entry is at the front, in place of the one that the key had
/// before; for a new key in a full cache the entry used longest ago is gone.
pub open spec fn stored(
    entries: Seq<(Seq<char>, (u32, u32))>,
    key: Seq<char>,
    size: (u32, u32),
    cap: nat,
) -> Seq<(Seq<char>, (u32, u32))> {
    let i = index_of(entries, key);
    if 0 <= i < entries.len() {
        seq![(key, size)] + entries.remove(i)
    } else if cap == 0 {
        entries
    } else if entries.len() == cap {
        seq![(key, size)] + entries.drop_last()
    } else {
        seq![(key, size)] + entries
    }
}

/// `LruCache::new`: an empty cache for at most `cap` entries.
#[verifier::external_body]
fn lru_new(cap: usize) -> (cache: lru::LruCache<String, (u32, u32)>)
    requires
        cap <= 0xffff,
    ensures
        lru_entries(cache) == Seq::<(Seq<char>, (u32, u32))>::empty(),
        lru_cap(cache) == cap,
{
    lru::LruCache::new(cap)
}

/// `LruCache::get`: the value kept for `key`, whose entry moves to the
/// front; nothing changes where the key is not in the cache. The call does
/// not panic.
#[verifier::external_body]
fn lru_get(cache: &mut lru::LruCache<String, (u32, u32)>, key: &String) -> (size: Option<
    (u32, u32),
>)
    ensures
        size == looked_up(lru_entries(*old(cache)), key@),
        lru_entries(*final(cache)) == touched(lru_entries(*old(cache)), key@),
        lru_cap(*final(cache)) == lru_cap(*old(cache)),
    no_unwind
{
    cache.get(key).copied()
}

/// `LruCache::put`: the entry for `key` holds `size` and is at the front;
/// where the key is new and the cache full, the entry at the back is
/// dropped for it. The call does not panic.
#[verifier::external_body]
fn lru_put(cache: &mut lru::LruCache<String, (u32, u32)>, key: String, size: (u32, u32))
    ensures
        lru_entries(*final(cache)) == stored(
            lru_entries(*old(cache)),
            key@,
            size,
            lru_cap(*old(cache)),
        ),
        lru_cap(*final(cache)) == lru_cap(*old(cache)),
    no_unwind
{
    cache.put(key, size);
}

/// The place of a key is a place among the entries, or their number.
pub proof fn lemma_index_of(entries: Seq<(Seq<char>, (u32, u32))>, key: Seq<char>)
    ensures
        0 <= index_of(entries, key) <= entries.len(),
        index_of(entries, key) < entries.len() ==> entries[index_of(entries, key)].0 == key,
        forall|i: int| 0 <= i < index_of(entries, key) ==> (#[trigger] entries[i]).0 != key,
    decreases entries.len(),
{
    if entries.len() > 0 && entries[0].0 != key {
        let rest = entries.drop_first();
        lemma_index_of(rest, key);
        assert forall|i: int| 0 <= i < index_of(entries, key) implies (#[trigger] entries[i]).0
            != key by {
            if i > 0 {
                assert(entries[i] == rest[i - 1]);
            }
        }
    }
}

/// What was put in for a key is what is kept for it, and the cache does not
/// grow beyond what it was made for.
pub proof fn lemma_stored_is_looked_up(
    entries: Seq<(Seq<char>, (u32, u32))>,
    key: Seq<char>,
    size: (u32, u32),
    cap: nat,
)
    requires
        cap > 0,
        entries.len() <= cap,
    ensures
        looked_up(stored(entries, key, size, cap), key) == Some(size),
        stored(entries, key, size, cap).len() <= cap,
{
    lemma_index_of(entries, key);
}

/// Asking for a key neither adds an entry nor drops one, and changes no
/// size that is kept.
pub proof fn lemma_touched(entries: Seq<(Seq<char>, (u32, u32))>, key: Seq<char>)
    ensures
        touched(entries, key).len() == entries.len(),
        looked_up(touched(entries, key), key) == looked_up(entries, key),
{
    lemma_index_of(entries, key);
}

/// The number of text sizes that are kept at most.
pub const CACHED_SIZES: usize = 100;

/// The sizes of the texts measured last.
pub struct Measurement {
    lru: lru::LruCache<String, (u32, u32)>,
}

impl Measurement {
    #[verifier::type_invariant]
    spec fn well_formed(self) -> bool {
        &&& lru_cap(self.lru) == CACHED_SIZES
        &&& lru_entries(self.lru).len() <= CACHED_SIZES
    }

    /// The keys and sizes that are kept, the one used last first.
    pub closed spec fn entries(self) -> Seq<(Seq<char>, (u32, u32))> {
        lru_entries(self.lru)
    }

    /// A cache that holds nothing yet.
    pub fn new() -> (measurement: Self)
        ensures
            measurement.entries() == Seq::<(Seq<char>, (u32, u32))>::empty(),
    {
        Self { lru: lru_new(CACHED_SIZES) }
    }

    /// The size of the text that `key` stands for: the one kept for it, or
    /// else what `measure` finds, which is kept from then on. A failure to
    /// measure is handed on, and nothing is kept for it.
    pub fn measure<F: FnOnce() -> Result<(u32, u32), Error>>(&mut self, key: String, measure: F)
        -> (size: Result<(u32, u32), Error>)
        requires
            measure.requires(()),
        ensures
            final(self).entries().len() <= CACHED_SIZES,
            match looked_up(old(self).entries(), key@) {
                Some(kept) => size == Ok::<(u32, u32), Error>(kept) && final(self).entries()
                    == touched(old(self).entries(), key@),
                None => measure.ensures((), size) && final(self).entries() == match size {
                    Ok(measured) => stored(old(self).entries(), key@, measured, CACHED_SIZES as nat),
                    Err(_) => old(self).entries(),
                },
            },
    {
        proof {
            use_type_invariant(&*self);
            lemma_touched(self.entries(), key@);
        }
        if let Some(v) = lru_get(&mut self.lru, &key) {
            return Ok(v);
        }
        let size = measure()?;
        proof {
            lemma_stored_is_looked_up(self.entries(), key@, size, CACHED_SIZES as nat);
        }
        lru_put(&mut self.lru, key, size);
        Ok(size)
    }
}

} // verus!
