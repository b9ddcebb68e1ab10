//! Blocks: entries under a header and the proof-of-work hash, with the
//! difficulty measures and the structural checks that acceptance relies on.
use vstd::prelude::*;

use vstd::arithmetic::power2::{lemma2_to64, lemma_pow2_strictly_increases, lemma_pow2_unfold, pow2};
use vstd::bytes::{spec_u64_to_le_bytes, u64_to_le_bytes};

use crate::digest::{wide_digest, wide_hash};
use crate::entry::{encode_entry, encode_error, Entry, EntryView};
use crate::error::{BlockError, BlockErrorKind, Cause};
use crate::header::BlockHeader;
use crate::keys::{key_of, KeyType};
use crate::merkle::{merkle_root, MerkleTree};
use crate::octets::bytes_eq;
use crate::octets::copy_range;
use crate::signing::{aggregate_accepts, aggregate_bytes, aggregate_signatures, byte_views, signature_decodes, verify_aggregate};
use crate::store::KvStore;

verus! {

/// Leading zero bits of a digest: whole zero bytes count eight, and the
/// count ends inside the first byte that is not zero.
pub open spec fn lead_zero_bits(d: Seq<u8>) -> nat
    decreases d.len(),
{
    if d.len() == 0 {
        0
    } else if d[0].leading_zeros() < 8 {
        d[0].leading_zeros() as nat
    } else {
        8 + lead_zero_bits(d.drop_first())
    }
}

/// The zero-bit count of entry difficulty: each byte adds its leading zeros,
/// and the count stops at the first byte whose high bit is set.
pub open spec fn entry_zero_bits(d: Seq<u8>) -> nat
    decreases d.len(),
{
    if d.len() == 0 {
        0
    } else if d[0].leading_zeros() == 0 {
        0
    } else {
        d[0].leading_zeros() as nat + entry_zero_bits(d.drop_first())
    }
}

/// `2^z`, saturated at the largest `usize`.
pub open spec fn work(z: nat) -> nat {
    if pow2(z) <= usize::MAX {
        pow2(z)
    } else {
        usize::MAX as nat
    }
}

/// The difficulty of an entry: `2^z`, for `z` the entry zero-bit count of the
/// wide digest of its serialization.
pub open spec fn entry_work(e: EntryView) -> nat {
    work(entry_zero_bits(wide_digest(encode_entry(e))))
}

/// The first serialization fault among `es`, in order.
pub open spec fn first_encode_fault(es: Seq<EntryView>) -> Option<BlockErrorKind>
    decreases es.len(),
{
    if es.len() == 0 {
        None
    } else if encode_error(es[0]).is_some() {
        encode_error(es[0])
    } else {
        first_encode_fault(es.drop_first())
    }
}

/// The serializations of `es`.
pub open spec fn encodings(es: Seq<EntryView>) -> Seq<Seq<u8>> {
    es.map_values(|e: EntryView| encode_entry(e))
}

pub open spec fn entry_views(es: Seq<Entry>) -> Seq<EntryView> {
    es.map_values(|e: Entry| e@)
}

/// The key that signs an entry: inline, or looked up by index in the store.
pub open spec fn resolve_key(e: EntryView, kv: Map<Seq<u8>, Seq<u8>>) -> Option<Seq<u8>> {
    match e.public_key {
        Some(pk) => Some(pk),
        None => match e.public_key_index {
            Some(i) => {
                let k = key_of(KeyType::PublicKey, spec_u64_to_le_bytes(i));
                if kv.contains_key(k) {
                    Some(kv[k])
                } else {
                    None
                }
            },
            None => None,
        },
    }
}

/// The first fault met while collecting keys and messages, entry by entry.
pub open spec fn signing_fault(es: Seq<EntryView>, kv: Map<Seq<u8>, Seq<u8>>) -> Option<BlockErrorKind>
    decreases es.len(),
{
    if es.len() == 0 {
        None
    } else if resolve_key(es[0], kv).is_none() {
        Some(BlockErrorKind::NoPublicKeyFound)
    } else if encode_error(es[0]).is_some() {
        encode_error(es[0])
    } else {
        signing_fault(es.drop_first(), kv)
    }
}

/// The keys that sign `es`, in order (see `resolve_key`).
pub open spec fn resolved_keys(es: Seq<EntryView>, kv: Map<Seq<u8>, Seq<u8>>) -> Seq<Seq<u8>> {
    es.map_values(|e: EntryView| resolve_key(e, kv).unwrap())
}

/// The detached signatures of mempool entries, in order.
pub open spec fn mempool_signatures(ms: Seq<MempoolEntry>) -> Seq<Seq<u8>> {
    ms.map_values(|m: MempoolEntry| m.signature@)
}

/// The entries of mempool entries, in order.
pub open spec fn mempool_entry_views(ms: Seq<MempoolEntry>) -> Seq<EntryView> {
    ms.map_values(|m: MempoolEntry| m.entry@)
}

/// Every signature decodes, and there is at least one.
pub open spec fn signatures_decode(sigs: Seq<Seq<u8>>) -> bool {
    sigs.len() > 0 && forall|i: int| 0 <= i < sigs.len() ==> signature_decodes(#[trigger] sigs[i])
}

proof fn lemma_subrange_front<T>(s: Seq<T>, i: int)
    requires
        0 <= i < s.len(),
    ensures
        s.subrange(i, s.len() as int)[0] == s[i],
        s.subrange(i, s.len() as int).drop_first() == s.subrange(i + 1, s.len() as int),
{
    assert(s.subrange(i, s.len() as int).drop_first() =~= s.subrange(i + 1, s.len() as int));
}

/// `2^z`, saturated at the largest `usize`.
pub fn work_of(z: u32) -> (r: usize)
    ensures
        r == work(z as nat),
{
    let mut w: usize = 1;
    let mut i: u32 = 0;
    proof {
        lemma2_to64();
    }
    while i < z
        invariant
            i <= z,
            w as nat == pow2(i as nat),
        decreases z - i,
    {
        proof {
            lemma_pow2_unfold((i + 1) as nat);
        }
        if w > usize::MAX / 2 {
            proof {
                if i + 1 < z {
                    lemma_pow2_strictly_increases((i + 1) as nat, z as nat);
                }
            }
            return usize::MAX;
        }
        w = w * 2;
        i = i + 1;
    }
    w
}

/// Leading zero bits of `d` (see `lead_zero_bits`).
pub fn count_lead_zero_bits(d: &[u8]) -> (r: u32)
    requires
        d@.len() <= 64,
    ensures
        r == lead_zero_bits(d@),
{
    let n = d.len();
    let mut total: u32 = 0;
    let mut i: usize = 0;
    assert(d@.subrange(0, n as int) =~= d@);
    while i < n
        invariant
            n == d@.len() <= 64,
            i <= n,
            total == 8 * i,
            lead_zero_bits(d@) == total + lead_zero_bits(d@.subrange(i as int, n as int)),
        decreases n - i,
    {
        proof {
            lemma_subrange_front(d@, i as int);
        }
        let z = d[i].leading_zeros();
        if z < 8 {
            return total + z;
        }
        total = total + 8;
        i = i + 1;
    }
    total
}

/// The entry zero-bit count of `d` (see `entry_zero_bits`).
pub fn count_entry_zero_bits(d: &[u8]) -> (r: u32)
    requires
        d@.len() <= 64,
    ensures
        r == entry_zero_bits(d@),
{
    let n = d.len();
    let mut total: u32 = 0;
    let mut i: usize = 0;
    assert(d@.subrange(0, n as int) =~= d@);
    while i < n
        invariant
            n == d@.len() <= 64,
            i <= n,
            total <= 8 * i,
            entry_zero_bits(d@) == total + entry_zero_bits(d@.subrange(i as int, n as int)),
        decreases n - i,
    {
        proof {
            lemma_subrange_front(d@, i as int);
        }
        let z = d[i].leading_zeros();
        if z == 0 {
            return total;
        }
        total = total + z;
        i = i + 1;
    }
    total
}

impl Entry {
    /// The wide digest of the serialization.
    fn hash(&self) -> (r: Result<[u8; 64], BlockError>)
        ensures
            match r {
                Ok(h) => encode_error(self@).is_none() && h@ == wide_digest(encode_entry(self@)),
                Err(err) => encode_error(self@) == Some(err.kind) && err.source.is_none(),
            },
    {
        let bytes = self.to_bytes()?;
        Ok(wide_hash(bytes.as_slice()))
    }

    /// The difficulty of the entry (see `entry_work`).
    pub fn difficulty(&self) -> (r: Result<usize, BlockError>)
        ensures
            match r {
                Ok(d) => encode_error(self@).is_none() && d == entry_work(self@),
                Err(err) => encode_error(self@) == Some(err.kind) && err.source.is_none(),
            },
    {
        let h = self.hash()?;
        let z = count_entry_zero_bits(h.as_slice());
        Ok(work_of(z))
    }
}

/// Serializes every entry, stopping at the first that cannot be.
pub fn encode_entries(entries: &Vec<Entry>) -> (r: Result<Vec<Vec<u8>>, BlockError>)
    ensures
        match r {
            Ok(v) => first_encode_fault(entry_views(entries@)).is_none()
                && v@.map_values(|x: Vec<u8>| x@) == encodings(entry_views(entries@)),
            Err(err) => first_encode_fault(entry_views(entries@)) == Some(err.kind) && err.source.is_none(),
        },
{
    let ghost es = entry_views(entries@);
    let n = entries.len();
    let mut out: Vec<Vec<u8>> = Vec::new();
    let mut i: usize = 0;
    assert(es.subrange(0, n as int) =~= es);
    while i < n
        invariant
            n == entries@.len(),
            es == entry_views(entries@),
            i <= n,
            first_encode_fault(es) == first_encode_fault(es.subrange(i as int, n as int)),
            out@.len() == i,
            forall|k: int| 0 <= k < i ==> (#[trigger] out@[k])@ == encode_entry(es[k]),
        decreases n - i,
    {
        proof {
            lemma_subrange_front(es, i as int);
        }
        let b = entries[i].to_bytes()?;
        out.push(b);
        i = i + 1;
    }
    assert(out@.map_values(|x: Vec<u8>| x@) =~= encodings(es));
    Ok(out)
}

/// An entry paired with its own detached signature, as it waits to be mined.
#[derive(Clone, Debug)]
pub struct MempoolEntry {
    pub entry: Entry,
    pub signature: Vec<u8>,
}

impl MempoolEntry {
    pub fn new(entry: Entry, signature: Vec<u8>) -> (r: Self)
        ensures
            r.entry == entry,
            r.signature == signature,
    {
        MempoolEntry { entry, signature }
    }
}

impl From<MempoolEntry> for Entry {
    fn from(mempool_entry: MempoolEntry) -> (r: Entry)
        ensures
            r == mempool_entry.entry,
    {
        mempool_entry.entry
    }
}

impl vstd::std_specs::convert::FromSpecImpl<MempoolEntry> for Entry {
    open spec fn obeys_from_spec() -> bool {
        true
    }

    open spec fn from_spec(v: MempoolEntry) -> Entry {
        v.entry
    }
}

/// A block: its entries, its header, and its proof-of-work hash.
#[derive(Clone, Debug)]
pub struct Block {
    pub entries: Vec<Entry>,
    pub header: BlockHeader,
    pub hash: [u8; 32],
}

impl Block {
    pub open spec fn entries_view(&self) -> Seq<EntryView> {
        entry_views(self.entries@)
    }

    /// Whether the header's Merkle root is the root over the serialized
    /// entries; a block without entries, or with an entry that cannot be
    /// serialized, has no valid root.
    pub open spec fn merkle_root_valid(&self) -> bool {
        &&& self.entries@.len() > 0
        &&& first_encode_fault(self.entries_view()).is_none()
        &&& merkle_root(encodings(self.entries_view())) == self.header.merkle_root@
    }

    /// Builds a block over already-aggregated signature bytes; the Merkle
    /// root is computed from the entries.
    pub fn new_with_signature(
        previous_hash: [u8; 32],
        height: usize,
        entries: Vec<Entry>,
        nonce: Vec<u8>,
        timestamp: u64,
        difficulty_target: u32,
        entry_difficulty: u32,
        entry_difficulty_multiplier: u32,
        max_allowed_entry_difficulty: u32,
        miner_address: [u8; 32],
        signature: Vec<u8>,
        hash: [u8; 32],
    ) -> (r: Result<Self, BlockError>)
        ensures
            entries@.len() == 0 ==> r == Err::<Self, BlockError>(BlockError { kind: BlockErrorKind::NoEntries, source: None }),
            entries@.len() > 0 ==> match r {
                Ok(b) => {
                    &&& first_encode_fault(entry_views(entries@)).is_none()
                    &&& b.entries == entries
                    &&& b.merkle_root_valid()
                    &&& b.hash == hash
                    &&& b.header.previous_hash == previous_hash
                    &&& b.header.height == height
                    &&& b.header.timestamp == timestamp
                    &&& b.header.difficulty_target == difficulty_target
                    &&& b.header.entry_difficulty == entry_difficulty
                    &&& b.header.entry_difficulty_multiplier == entry_difficulty_multiplier
                    &&& b.header.max_allowed_entry_difficulty == max_allowed_entry_difficulty
                    &&& b.header.miner_address == miner_address
                    &&& b.header.signature == signature
                    &&& b.header.nonce == nonce
                },
                Err(err) => first_encode_fault(entry_views(entries@)) == Some(err.kind) && err.source.is_none(),
            },
    {
        if entries.len() == 0 {
            return Err(BlockError::new(BlockErrorKind::NoEntries));
        }
        let encoded = encode_entries(&entries)?;
        assert(encoded@.map_values(|x: Vec<u8>| x@).len() == encoded@.len());
        assert(encodings(entry_views(entries@)).len() == entries@.len());
        let tree = MerkleTree::new(encoded.as_slice());
        let header = BlockHeader::new(
            previous_hash,
            height,
            tree.root,
            timestamp,
            difficulty_target,
            entry_difficulty,
            entry_difficulty_multiplier,
            max_allowed_entry_difficulty,
            miner_address,
            signature,
            nonce,
        );
        Ok(Block { entries, header, hash })
    }

    /// Builds a block from signed mempool entries: their signatures are
    /// aggregated into the header's signature.
    pub fn new(
        previous_hash: [u8; 32],
        height: usize,
        mempool_entries: Vec<MempoolEntry>,
        nonce: Vec<u8>,
        timestamp: u64,
        difficulty_target: u32,
        entry_difficulty: u32,
        entry_difficulty_multiplier: u32,
        max_allowed_entry_difficulty: u32,
        miner_address: [u8; 32],
        hash: [u8; 32],
    ) -> (r: Result<Self, BlockError>)
        ensures
            signatures_decode(mempool_signatures(mempool_entries@))
                && first_encode_fault(mempool_entry_views(mempool_entries@)).is_none() <==> r is Ok,
            !signatures_decode(mempool_signatures(mempool_entries@))
                ==> r == Err::<Self, BlockError>(BlockError::from_source_spec(Cause::Signature)),
            signatures_decode(mempool_signatures(mempool_entries@)) ==> (first_encode_fault(
                mempool_entry_views(mempool_entries@),
            ) matches Some(k) ==> r == Err::<Self, BlockError>(BlockError::new_spec(k))),
            (exists|i: int| 0 <= i < mempool_entries@.len() && (#[trigger] mempool_entries@[i]).signature@.len() != 96)
                ==> r == Err::<Self, BlockError>(BlockError::from_source_spec(Cause::Signature)),
            r matches Ok(b) ==> {
                &&& b.entries@.len() == mempool_entries@.len()
                &&& forall|i: int| 0 <= i < b.entries@.len() ==> b.entries@[i]@ == (#[trigger] mempool_entries@[i]).entry@
                &&& b.merkle_root_valid()
                &&& b.header.signature@ == aggregate_bytes(mempool_signatures(mempool_entries@))
                &&& b.header.signature@.len() == 96
                &&& b.hash == hash
                &&& b.header.previous_hash == previous_hash
                &&& b.header.height == height
                &&& b.header.timestamp == timestamp
                &&& b.header.difficulty_target == difficulty_target
                &&& b.header.entry_difficulty == entry_difficulty
                &&& b.header.entry_difficulty_multiplier == entry_difficulty_multiplier
                &&& b.header.max_allowed_entry_difficulty == max_allowed_entry_difficulty
                &&& b.header.miner_address == miner_address
                &&& b.header.nonce == nonce
            },
    {
        let ghost sigs = mempool_signatures(mempool_entries@);
        let mut signatures: Vec<Vec<u8>> = Vec::new();
        let mut entries: Vec<Entry> = Vec::new();
        let n = mempool_entries.len();
        let mut i: usize = 0;
        while i < n
            invariant
                n == mempool_entries@.len(),
                sigs == mempool_signatures(mempool_entries@),
                i <= n,
                signatures@.len() == i,
                entries@.len() == i,
                forall|k: int| 0 <= k < i ==> entries@[k]@ == (#[trigger] mempool_entries@[k]).entry@,
                forall|k: int| 0 <= k < i ==> (#[trigger] signatures@[k])@ == sigs[k],
            decreases n - i,
        {
            let s = &mempool_entries[i].signature;
            signatures.push(copy_range(s.as_slice(), 0, s.len()));
            proof {
                assert(s@.subrange(0, s@.len() as int) =~= s@);
            }
            entries.push(mempool_entries[i].entry.copy());
            i = i + 1;
        }
        assert(byte_views(signatures@) =~= sigs);
        assert(entry_views(entries@) =~= mempool_entry_views(mempool_entries@));
        let signature = match aggregate_signatures(&signatures) {
            Some(s) => s,
            None => {
                proof {
                    if signatures_decode(sigs) {
                        assert forall|k: int| 0 <= k < signatures@.len() implies signature_decodes(
                            #[trigger] signatures@[k]@,
                        ) by {
                            assert(sigs[k] == signatures@[k]@);
                        }
                    }
                }
                return Err(BlockError::from_source(Cause::Signature));
            },
        };
        proof {
            assert forall|k: int| 0 <= k < sigs.len() implies signature_decodes(#[trigger] sigs[k]) by {
                assert(sigs[k] == signatures@[k]@);
                assert(signature_decodes(signatures@[k]@));
            }
            assert forall|k: int| 0 <= k < mempool_entries@.len() implies (#[trigger] mempool_entries@[k]).signature@.len() == 96 by {
                assert(sigs[k] == signatures@[k]@);
                if signatures@[k]@.len() != 96 {
                    assert(exists|j: int| 0 <= j < signatures@.len() && (#[trigger] signatures@[j])@.len() != 96);
                }
            }
        }
        let r = Block::new_with_signature(
            previous_hash,
            height,
            entries,
            nonce,
            timestamp,
            difficulty_target,
            entry_difficulty,
            entry_difficulty_multiplier,
            max_allowed_entry_difficulty,
            miner_address,
            signature,
            hash,
        );
        r
    }

    /// `2^z` for `z` the leading zero bits of the proof-of-work hash.
    pub fn miner_difficulty(&self) -> (r: usize)
        ensures
            r == work(lead_zero_bits(self.hash@)),
    {
        let z = count_lead_zero_bits(self.hash.as_slice());
        work_of(z)
    }

    /// The difficulty of each entry, in order.
    pub fn entry_difficulties(&self) -> (r: Result<Vec<usize>, BlockError>)
        ensures
            match r {
                Ok(v) => first_encode_fault(self.entries_view()).is_none() && v@.len() == self.entries@.len()
                    && forall|i: int| 0 <= i < v@.len() ==> v@[i] == entry_work(#[trigger] self.entries_view()[i]),
                Err(err) => first_encode_fault(self.entries_view()) == Some(err.kind) && err.source.is_none(),
            },
    {
        let ghost es = self.entries_view();
        let n = self.entries.len();
        let mut out: Vec<usize> = Vec::new();
        let mut i: usize = 0;
        assert(es.subrange(0, n as int) =~= es);
        while i < n
            invariant
                n == self.entries@.len(),
                es == self.entries_view(),
                i <= n,
                first_encode_fault(es) == first_encode_fault(es.subrange(i as int, n as int)),
                out@.len() == i,
                forall|k: int| 0 <= k < i ==> out@[k] == entry_work(#[trigger] es[k]),
            decreases n - i,
        {
            proof {
                lemma_subrange_front(es, i as int);
            }
            let d = self.entries[i].difficulty()?;
            out.push(d);
            i = i + 1;
        }
        Ok(out)
    }

    /// Whether the header's Merkle root matches the entries.
    pub fn is_merkle_root_valid(&self) -> (r: bool)
        ensures
            r == self.merkle_root_valid(),
    {
        if self.entries.len() == 0 {
            return false;
        }
        let encoded = match encode_entries(&self.entries) {
            Ok(v) => v,
            Err(_) => return false,
        };
        assert(encoded@.map_values(|x: Vec<u8>| x@).len() == encoded@.len());
        assert(encodings(self.entries_view()).len() == self.entries@.len());
        let tree = MerkleTree::new(encoded.as_slice());
        bytes_eq(tree.root.as_slice(), self.header.merkle_root.as_slice())
    }

    /// The public key and the message of every entry, in order: the key
    /// inline or from the store's public-key table, the message the entry's
    /// serialization.
    pub fn signing_inputs(&self, store: &KvStore) -> (r: Result<(Vec<Vec<u8>>, Vec<Vec<u8>>), BlockError>)
        requires
            store.wf(),
        ensures
            match r {
                Ok((keys, messages)) => {
                    &&& signing_fault(self.entries_view(), store@).is_none()
                    &&& keys@.len() == self.entries@.len()
                    &&& messages@.len() == self.entries@.len()
                    &&& forall|i: int| 0 <= i < keys@.len() ==> Some((#[trigger] keys@[i])@) == resolve_key(self.entries_view()[i], store@)
                    &&& forall|i: int| 0 <= i < messages@.len() ==> (#[trigger] messages@[i])@ == encode_entry(self.entries_view()[i])
                },
                Err(err) => signing_fault(self.entries_view(), store@) == Some(err.kind) && err.source.is_none(),
            },
    {
        let ghost es = self.entries_view();
        let ghost kv = store@;
        let n = self.entries.len();
        let mut keys: Vec<Vec<u8>> = Vec::new();
        let mut messages: Vec<Vec<u8>> = Vec::new();
        let mut i: usize = 0;
        assert(es.subrange(0, n as int) =~= es);
        while i < n
            invariant
                store.wf(),
                kv == store@,
                n == self.entries@.len(),
                es == self.entries_view(),
                i <= n,
                signing_fault(es, kv) == signing_fault(es.subrange(i as int, n as int), kv),
                keys@.len() == i,
                messages@.len() == i,
                forall|k: int| 0 <= k < i ==> Some((#[trigger] keys@[k])@) == resolve_key(es[k], kv),
                forall|k: int| 0 <= k < i ==> (#[trigger] messages@[k])@ == encode_entry(es[k]),
            decreases n - i,
        {
            proof {
                lemma_subrange_front(es, i as int);
            }
            let entry = &self.entries[i];
            let key = match &entry.public_key {
                Some(pk) => crate::octets::copy_range(pk.as_slice(), 0, pk.len()),
                None => match entry.public_key_index {
                    Some(index) => {
                        let le = u64_to_le_bytes(index);
                        let k = KeyType::make_key(KeyType::PublicKey, le.as_slice());
                        match store.get(k.as_slice()) {
                            Some(v) => v,
                            None => return Err(BlockError::new(BlockErrorKind::NoPublicKeyFound)),
                        }
                    },
                    None => return Err(BlockError::new(BlockErrorKind::NoPublicKeyFound)),
                },
            };
            proof {
                match &entry.public_key {
                    Some(pk) => assert(pk@.subrange(0, pk@.len() as int) =~= pk@),
                    None => {},
                }
            }
            let message = entry.to_bytes()?;
            keys.push(key);
            messages.push(message);
            i = i + 1;
        }
        Ok((keys, messages))
    }

    /// Checks the header's aggregate signature against every entry's key and
    /// message. A missing key or an entry that cannot be serialized is
    /// reported as such; otherwise the result is `Ok` exactly when the
    /// aggregate verifier accepts, and `InvalidSignature` when it does not.
    pub fn check_signature(&self, store: &KvStore) -> (r: Result<(), BlockError>)
        requires
            store.wf(),
        ensures
            signing_fault(self.entries_view(), store@) matches Some(k) ==> r == Err::<(), BlockError>(BlockError::new_spec(k)),
            signing_fault(self.entries_view(), store@).is_none() ==> (r is Ok <==> aggregate_accepts(
                self.header.signature@,
                encodings(self.entries_view()),
                resolved_keys(self.entries_view(), store@),
            )),
            signing_fault(self.entries_view(), store@).is_none() && r is Err ==> r == Err::<(), BlockError>(
                BlockError::new_spec(BlockErrorKind::InvalidSignature),
            ),
            r is Ok ==> self.entries@.len() > 0 && self.header.signature@.len() == 96,
    {
        let (keys, messages) = self.signing_inputs(store)?;
        proof {
            let es = self.entries_view();
            assert(byte_views(messages@) =~= encodings(es));
            assert forall|i: int| 0 <= i < keys@.len() implies byte_views(keys@)[i] == resolved_keys(es, store@)[i] by {
                assert(Some(keys@[i]@) == resolve_key(es[i], store@));
            }
            assert(byte_views(keys@) =~= resolved_keys(es, store@));
        }
        if !verify_aggregate(self.header.signature.as_slice(), &messages, &keys) {
            return Err(BlockError::new(BlockErrorKind::InvalidSignature));
        }
        Ok(())
    }
}

} // verus!
