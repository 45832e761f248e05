//! String interning into one byte arena.
use std::collections::HashMap;
use vstd::prelude::*;
use vstd::string::StringSliceAdditionalSpecFns;
use vstd::utf8::{encode_utf8, valid_utf8};

verus! {

broadcast use vstd::utf8::group_utf8_lib, vstd::std_specs::hash::group_hash_axioms;

pub const FNV_OFFSET: u64 = 0xcbf2_9ce4_8422_2325;

pub const FNV_PRIME: u64 = 0x0000_0100_0000_01b3;

/// 64-bit FNV-1a hash of a byte string.
pub open spec fn fingerprint(b: Seq<u8>) -> u64
    decreases b.len(),
{
    if b.len() == 0 {
        FNV_OFFSET
    } else {
        let h = fingerprint(b.drop_last()) ^ (b.last() as u64);
        ((h as nat * FNV_PRIME as nat) % 0x1_0000_0000_0000_0000nat) as u64
    }
}

/// Computes the FNV-1a hash of `b`.
pub fn fingerprint_of(b: &[u8]) -> (r: u64)
    ensures
        r == fingerprint(b@),
{
    let mut h: u64 = FNV_OFFSET;
    let mut i: usize = 0;
    assert(b@.subrange(0, 0).len() == 0);
    while i < b.len()
        invariant
            i <= b@.len(),
            h == fingerprint(b@.subrange(0, i as int)),
        decreases b@.len() - i,
    {
        let ghost prefix = b@.subrange(0, i + 1);
        assert(prefix.drop_last() =~= b@.subrange(0, i as int));
        assert(prefix.last() == b@[i as int]);
        h = (h ^ (b[i] as u64)).wrapping_mul(FNV_PRIME);
        i = i + 1;
    }
    assert(b@.subrange(0, b@.len() as int) =~= b@);
    h
}

/// Relies on std::str::from_utf8: valid UTF-8 bytes are returned as a
/// string slice over those same bytes, anything else is refused.
#[verifier::external_body]
fn str_from_utf8(b: &[u8]) -> (r: Option<&str>)
    ensures
        valid_utf8(b@) ==> r is Some,
        r matches Some(s) ==> s.spec_bytes() == b@,
{
    std::str::from_utf8(b).ok()
}

/// Deduplicates strings into dense integer IDs, in first-seen order. The
/// bytes of every distinct string are stored once, in one growable arena;
/// a map from each string's fingerprint to the IDs that share it serves
/// lookups while interning.
pub struct StringInternTable {
    bytes: Vec<u8>,
    offsets: Vec<(usize, usize)>,
    lookup: HashMap<u64, Vec<u32>>,
}

impl StringInternTable {
    /// The UTF-8 bytes of each interned string, indexed by ID.
    pub closed spec fn entries(&self) -> Seq<Seq<u8>> {
        Seq::new(
            self.offsets@.len(),
            |i: int|
                self.bytes@.subrange(
                    self.offsets@[i].0 as int,
                    self.offsets@[i].0 + self.offsets@[i].1,
                ),
        )
    }

    pub closed spec fn wf(&self) -> bool {
        &&& forall|i: int|
            0 <= i < self.offsets@.len() ==> self.offsets@[i].0 + self.offsets@[i].1
                <= self.bytes@.len()
        &&& self.entries().no_duplicates()
        &&& forall|i: int| 0 <= i < self.offsets@.len() ==> valid_utf8(#[trigger] self.entries()[i])
        &&& forall|i: int|
            0 <= i < self.offsets@.len() ==> self.lookup@.contains_key(
                fingerprint(#[trigger] self.entries()[i]),
            ) && self.lookup@[fingerprint(self.entries()[i])]@.contains(i as u32)
        &&& forall|k: u64, j: int|
            self.lookup@.contains_key(k) && 0 <= j < self.lookup@[k]@.len() ==> (
            #[trigger] self.lookup@[k]@[j] as int) < self.offsets@.len()
        &&& self.offsets@.len() <= u32::MAX
    }

    /// An empty table.
    pub fn new() -> (r: Self)
        ensures
            r.wf(),
            r.entries() == Seq::<Seq<u8>>::empty(),
    {
        let r = StringInternTable { bytes: Vec::new(), offsets: Vec::new(), lookup: HashMap::new() };
        assert(r.entries() =~= Seq::<Seq<u8>>::empty());
        r
    }

    /// Whether the stored string `id` has exactly the bytes `b`.
    fn entry_equals(&self, id: usize, b: &[u8]) -> (r: bool)
        requires
            self.wf(),
            id < self.offsets@.len(),
        ensures
            r == (self.entries()[id as int] == b@),
    {
        let (off, len) = self.offsets[id];
        let total = self.bytes.len();
        assert(off + len <= total);
        if len != b.len() {
            assert(self.entries()[id as int].len() != b@.len());
            return false;
        }
        let mut k: usize = 0;
        while k < len
            invariant
                self.wf(),
                id < self.offsets@.len(),
                (off, len) == self.offsets@[id as int],
                off + len <= self.bytes@.len(),
                self.bytes@.len() <= usize::MAX,
                len == b@.len(),
                k <= len,
                forall|j: int| 0 <= j < k ==> self.bytes@[off + j] == b@[j],
            decreases len - k,
        {
            if self.bytes[off + k] != b[k] {
                assert(self.entries()[id as int][k as int] != b@[k as int]);
                return false;
            }
            k = k + 1;
        }
        assert(self.entries()[id as int] =~= b@);
        true
    }

    /// Returns the ID of `s`, adding it to the table if it was not there.
    pub fn intern(&mut self, s: &str) -> (r: u32)
        requires
            old(self).wf(),
            old(self).entries().len() < u32::MAX,
        ensures
            final(self).wf(),
            final(self).entries().no_duplicates(),
            (r as int) < final(self).entries().len(),
            final(self).entries()[r as int] == s.spec_bytes(),
            old(self).entries().contains(s.spec_bytes()) ==> final(self).entries() == old(
                self,
            ).entries(),
            !old(self).entries().contains(s.spec_bytes()) ==> final(self).entries() == old(
                self,
            ).entries().push(s.spec_bytes()),
    {
        let b = s.as_bytes();
        let n = self.offsets.len();
        let h = fingerprint_of(b);
        match self.lookup.get(&h) {
            Some(cands) => {
                let mut j: usize = 0;
                while j < cands.len()
                    invariant
                        self.wf(),
                        n == self.offsets@.len(),
                        b@ == s.spec_bytes(),
                        h == fingerprint(b@),
                        self.lookup@.contains_key(h),
                        cands@ == self.lookup@[h]@,
                        j <= cands@.len(),
                        forall|t: int| 0 <= t < j ==> self.entries()[#[trigger] cands@[t] as int] != b@,
                    decreases cands@.len() - j,
                {
                    let id = cands[j];
                    assert((self.lookup@[h]@[j as int] as int) < n);
                    if self.entry_equals(id as usize, b) {
                        return id;
                    }
                    j = j + 1;
                }
                proof {
                    if self.entries().contains(b@) {
                        let i = choose|i: int| 0 <= i < self.entries().len() && self.entries()[i] == b@;
                        assert(self.lookup@[h]@.contains(i as u32));
                        let t = choose|t: int| 0 <= t < cands@.len() && cands@[t] == i as u32;
                        assert(self.entries()[cands@[t] as int] != b@);
                    }
                }
            },
            None => {
                proof {
                    if self.entries().contains(b@) {
                        let i = choose|i: int| 0 <= i < self.entries().len() && self.entries()[i] == b@;
                        assert(self.lookup@.contains_key(fingerprint(self.entries()[i])));
                    }
                }
            },
        }
        let ghost old_entries = self.entries();
        let ghost old_bytes = self.bytes@;
        let ghost old_offsets = self.offsets@;
        let ghost old_lookup = self.lookup@;
        assert(!old_entries.contains(b@));
        let start = self.bytes.len();
        let mut k: usize = 0;
        while k < b.len()
            invariant
                k <= b@.len(),
                self.bytes@.len() == start + k,
                self.bytes@.subrange(0, start as int) == old_bytes,
                start == old_bytes.len(),
                forall|j: int| 0 <= j < k ==> self.bytes@[start + j] == b@[j],
                self.offsets@ == old_offsets,
                self.lookup@ == old_lookup,
                old_entries == Seq::new(
                    old_offsets.len(),
                    |i: int|
                        old_bytes.subrange(
                            old_offsets[i].0 as int,
                            old_offsets[i].0 + old_offsets[i].1,
                        ),
                ),
                n == old_offsets.len(),
                forall|i: int|
                    0 <= i < n ==> self.offsets@[i].0 + self.offsets@[i].1 <= start,
            decreases b@.len() - k,
        {
            self.bytes.push(b[k]);
            k = k + 1;
        }
        self.offsets.push((start, b.len()));
        let mut ids: Vec<u32> = match self.lookup.remove(&h) {
            Some(v) => v,
            None => Vec::new(),
        };
        let ghost old_ids = ids@;
        ids.push(n as u32);
        self.lookup.insert(h, ids);
        proof {
            assert forall|i: int| 0 <= i < n implies self.entries()[i] == old_entries[i] by {
                assert(self.offsets@[i] == old_offsets[i]);
                assert(self.bytes@.subrange(
                    self.offsets@[i].0 as int,
                    self.offsets@[i].0 + self.offsets@[i].1,
                ) =~= old_bytes.subrange(
                    self.offsets@[i].0 as int,
                    self.offsets@[i].0 + self.offsets@[i].1,
                ));
            }
            assert(self.entries()[n as int] =~= b@);
            assert(self.entries() =~= old_entries.push(b@));
            assert(old_lookup.contains_key(h) ==> old_ids == old_lookup[h]@);
            assert(!old_lookup.contains_key(h) ==> old_ids.len() == 0);
            assert forall|i: int| 0 <= i <= n implies self.lookup@.contains_key(
                fingerprint(#[trigger] self.entries()[i]),
            ) && self.lookup@[fingerprint(self.entries()[i])]@.contains(i as u32) by {
                if i < n {
                    let k = fingerprint(old_entries[i]);
                    assert(old_lookup.contains_key(k) && old_lookup[k]@.contains(i as u32));
                    if k == h {
                        let t = choose|t: int| 0 <= t < old_ids.len() && old_ids[t] == i as u32;
                        assert(self.lookup@[h]@[t] == i as u32);
                    }
                } else {
                    assert(self.lookup@[h]@[old_ids.len() as int] == n as u32);
                }
            }
            assert forall|k: u64, j: int|
                self.lookup@.contains_key(k) && 0 <= j < self.lookup@[k]@.len() implies (
                #[trigger] self.lookup@[k]@[j] as int) < self.offsets@.len() by {
                if k == h {
                    if j < old_ids.len() {
                        assert(old_lookup.contains_key(h));
                        assert(old_lookup[h]@[j] == self.lookup@[k]@[j]);
                    }
                } else {
                    assert(old_lookup.contains_key(k));
                    assert(old_lookup[k]@[j] == self.lookup@[k]@[j]);
                }
            }
        }
        n as u32
    }

    /// The string stored under `id`.
    pub fn resolve(&self, id: u32) -> (r: &str)
        requires
            self.wf(),
            (id as int) < self.entries().len(),
        ensures
            r.spec_bytes() == self.entries()[id as int],
    {
        let (off, len) = self.offsets[id as usize];
        let total = self.bytes.len();
        assert(off + len <= total);
        let b = &self.bytes.as_slice()[off..off + len];
        assert(b@ == self.entries()[id as int]);
        match str_from_utf8(b) {
            Some(s) => s,
            None => "",
        }
    }

    /// The UTF-8 bytes of the string stored under `id`.
    pub fn entry_bytes(&self, id: u32) -> (r: &[u8])
        requires
            self.wf(),
            (id as int) < self.entries().len(),
        ensures
            r@ == self.entries()[id as int],
            valid_utf8(r@),
    {
        let (off, len) = self.offsets[id as usize];
        let total = self.bytes.len();
        assert(off + len <= total);
        &self.bytes.as_slice()[off..off + len]
    }

    /// Number of distinct strings interned.
    pub fn len(&self) -> (r: usize)
        ensures
            r == self.entries().len(),
    {
        self.offsets.len()
    }

    /// Whether no string has been interned.
    pub fn is_empty(&self) -> (r: bool)
        ensures
            r == (self.entries().len() == 0),
    {
        self.offsets.len() == 0
    }
}

impl Default for StringInternTable {
    fn default() -> (r: Self)
        ensures
            r.wf(),
            r.entries() == Seq::<Seq<u8>>::empty(),
    {
        Self::new()
    }
}

} // verus!
