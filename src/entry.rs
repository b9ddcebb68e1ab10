//! Entries: the self-standing units of work that blocks carry, and their
//! canonical byte layout.
use vstd::prelude::*;

use vstd::bytes::{
    lemma_auto_spec_u64_to_from_le_bytes, spec_u64_from_le_bytes, spec_u64_to_le_bytes,
    u64_from_le_bytes, u64_to_le_bytes,
};

use crate::error::{BlockError, BlockErrorKind, Cause};
use crate::octets::{append_bytes, bytes_eq, copy_range, read8};

verus! {

/// Length of an inline public key.
pub const PUBLIC_KEY_LEN: usize = 48;

/// Most coinfile hashes, and most proof-of-work bytes, that one entry holds.
pub const MAX_FIELD_LEN: usize = 255;

/// A unit of work: the coinfiles it consumes, its output, the key that signs it
/// (inline or by index into the public-key table), and its proof of work.
#[derive(Clone, Debug)]
pub struct Entry {
    pub coinfile_hashes: Vec<[u8; 8]>,
    pub output_hash: [u8; 8],
    pub public_key: Option<Vec<u8>>,
    pub public_key_index: Option<u64>,
    pub proof_of_work: Vec<u8>,
}

/// The mathematical value of an entry.
pub struct EntryView {
    pub coinfile_hashes: Seq<Seq<u8>>,
    pub output_hash: Seq<u8>,
    pub public_key: Option<Seq<u8>>,
    pub public_key_index: Option<u64>,
    pub proof_of_work: Seq<u8>,
}

pub open spec fn opt_bytes_view(o: Option<Vec<u8>>) -> Option<Seq<u8>> {
    match o {
        Some(v) => Some(v@),
        None => None,
    }
}

impl View for Entry {
    type V = EntryView;

    open spec fn view(&self) -> EntryView {
        EntryView {
            coinfile_hashes: self.coinfile_hashes@.map_values(|h: [u8; 8]| h@),
            output_hash: self.output_hash@,
            public_key: opt_bytes_view(self.public_key),
            public_key_index: self.public_key_index,
            proof_of_work: self.proof_of_work@,
        }
    }
}

/// The structural constraints of an entry: bounded fields, eight-byte hashes,
/// and exactly one form of public key, inline keys being 48 bytes long.
pub open spec fn entry_wf(e: EntryView) -> bool {
    &&& e.coinfile_hashes.len() <= 255
    &&& forall|i: int| 0 <= i < e.coinfile_hashes.len() ==> #[trigger] e.coinfile_hashes[i].len() == 8
    &&& e.output_hash.len() == 8
    &&& e.public_key.is_some() != e.public_key_index.is_some()
    &&& (e.public_key matches Some(pk) ==> pk.len() == 48)
    &&& e.proof_of_work.len() <= 255
}

/// The concatenation of a sequence of byte strings.
pub open spec fn flatten(hs: Seq<Seq<u8>>) -> Seq<u8>
    decreases hs.len(),
{
    if hs.len() == 0 {
        Seq::empty()
    } else {
        flatten(hs.drop_last()) + hs.last()
    }
}

/// The key field of the layout: a discriminant, then the inline key or the
/// little-endian index.
pub open spec fn key_field(e: EntryView) -> Seq<u8> {
    match e.public_key {
        Some(pk) => seq![0u8] + pk,
        None => seq![1u8] + spec_u64_to_le_bytes(e.public_key_index.unwrap()),
    }
}

/// The canonical serialization of an entry.
pub open spec fn encode_entry(e: EntryView) -> Seq<u8> {
    seq![e.coinfile_hashes.len() as u8] + flatten(e.coinfile_hashes) + e.output_hash + key_field(e)
        + seq![e.proof_of_work.len() as u8] + e.proof_of_work
}

/// Why an entry cannot be serialized, checked in this order; `None` when it can.
pub open spec fn encode_error(e: EntryView) -> Option<BlockErrorKind> {
    if e.coinfile_hashes.len() > 255 {
        Some(BlockErrorKind::TooManyCoinfileHashes)
    } else if e.public_key.is_none() && e.public_key_index.is_none() {
        Some(BlockErrorKind::NoPublicKeyFound)
    } else if e.proof_of_work.len() > 255 {
        Some(BlockErrorKind::PoWTooLong)
    } else {
        None
    }
}

/// The entry that a byte string encodes, if it is exactly one canonical entry.
pub open spec fn parse_entry(b: Seq<u8>) -> Option<EntryView> {
    if b.len() < 1 {
        None
    } else {
        let n = b[0] as int;
        let hashes_end = 1 + 8 * n;
        let tag_at = hashes_end + 8;
        if b.len() < tag_at + 1 || b[tag_at] > 1 {
            None
        } else {
            let d = b[tag_at];
            let pow_len_at = if d == 0 { tag_at + 1 + 48 } else { tag_at + 1 + 8 };
            if b.len() < pow_len_at + 1 || b.len() != pow_len_at + 1 + b[pow_len_at] as int {
                None
            } else {
                Some(EntryView {
                    coinfile_hashes: Seq::new(n as nat, |i: int| b.subrange(1 + 8 * i, 9 + 8 * i)),
                    output_hash: b.subrange(hashes_end, tag_at),
                    public_key: if d == 0 { Some(b.subrange(tag_at + 1, pow_len_at)) } else { None },
                    public_key_index: if d == 1 {
                        Some(spec_u64_from_le_bytes(b.subrange(tag_at + 1, pow_len_at)))
                    } else {
                        None
                    },
                    proof_of_work: b.subrange(pow_len_at + 1, b.len() as int),
                })
            }
        }
    }
}

proof fn lemma_flatten(hs: Seq<Seq<u8>>)
    requires
        forall|i: int| 0 <= i < hs.len() ==> #[trigger] hs[i].len() == 8,
    ensures
        flatten(hs).len() == 8 * hs.len(),
        forall|i: int| 0 <= i < hs.len() ==> #[trigger] flatten(hs).subrange(8 * i, 8 * i + 8) == hs[i],
    decreases hs.len(),
{
    if hs.len() > 0 {
        let init = hs.drop_last();
        assert forall|i: int| 0 <= i < init.len() implies #[trigger] init[i].len() == 8 by {
            assert(init[i] == hs[i]);
        }
        lemma_flatten(init);
        assert forall|i: int| 0 <= i < hs.len() implies #[trigger] flatten(hs).subrange(8 * i, 8 * i + 8) == hs[i] by {
            if i < hs.len() - 1 {
                assert(init[i] == hs[i]);
                assert(flatten(hs).subrange(8 * i, 8 * i + 8) =~= flatten(init).subrange(8 * i, 8 * i + 8));
            } else {
                assert(flatten(hs).subrange(8 * i, 8 * i + 8) =~= hs.last());
            }
        }
    }
}

/// Decoding the canonical serialization of a well-formed entry gives the entry back.
pub proof fn lemma_entry_round_trip(e: EntryView)
    requires
        entry_wf(e),
    ensures
        encode_error(e).is_none(),
        parse_entry(encode_entry(e)) == Some(e),
{
    lemma_flatten(e.coinfile_hashes);
    lemma_auto_spec_u64_to_from_le_bytes();
    let b = encode_entry(e);
    let n = e.coinfile_hashes.len() as int;
    let hashes_end = 1 + 8 * n;
    let tag_at = hashes_end + 8;
    let pow_len_at = tag_at + 1 + (if e.public_key.is_some() { 48int } else { 8int });
    let f = flatten(e.coinfile_hashes);
    assert(b[0] as int == n);
    assert(b.subrange(1, hashes_end) =~= f);
    assert(b.subrange(hashes_end, tag_at) =~= e.output_hash);
    assert(b[tag_at] == key_field(e)[0]);
    assert(b.subrange(tag_at + 1, pow_len_at) =~= key_field(e).drop_first());
    assert(b[pow_len_at] as int == e.proof_of_work.len());
    assert(b.subrange(pow_len_at + 1, b.len() as int) =~= e.proof_of_work);
    let p = parse_entry(b).unwrap();
    assert(p.coinfile_hashes =~= e.coinfile_hashes) by {
        assert forall|i: int| 0 <= i < n implies p.coinfile_hashes[i] == e.coinfile_hashes[i] by {
            assert(b.subrange(1 + 8 * i, 9 + 8 * i) =~= f.subrange(8 * i, 8 * i + 8));
        }
    }
    match e.public_key {
        Some(pk) => {
            assert(key_field(e).drop_first() =~= pk);
        },
        None => {
            assert(key_field(e).drop_first() =~= spec_u64_to_le_bytes(e.public_key_index.unwrap()));
        },
    }
}

impl Entry {
    pub fn new(
        coinfile_hashes: Vec<[u8; 8]>,
        output_hash: [u8; 8],
        public_key: Option<Vec<u8>>,
        public_key_index: Option<u64>,
        proof_of_work: Vec<u8>,
    ) -> (r: Self)
        ensures
            r.coinfile_hashes == coinfile_hashes,
            r.output_hash == output_hash,
            r.public_key == public_key,
            r.public_key_index == public_key_index,
            r.proof_of_work == proof_of_work,
    {
        Entry { coinfile_hashes, output_hash, public_key, public_key_index, proof_of_work }
    }

    /// The canonical serialization (see `encode_entry`), or the first
    /// structural fault that prevents it.
    pub fn to_bytes(&self) -> (r: Result<Vec<u8>, BlockError>)
        ensures
            match r {
                Ok(b) => encode_error(self@).is_none() && b@ == encode_entry(self@),
                Err(err) => encode_error(self@) == Some(err.kind) && err.source.is_none(),
            },
    {
        if self.coinfile_hashes.len() > MAX_FIELD_LEN {
            return Err(BlockError::new(BlockErrorKind::TooManyCoinfileHashes));
        }
        if self.public_key.is_none() && self.public_key_index.is_none() {
            return Err(BlockError::new(BlockErrorKind::NoPublicKeyFound));
        }
        if self.proof_of_work.len() > MAX_FIELD_LEN {
            return Err(BlockError::new(BlockErrorKind::PoWTooLong));
        }
        let ghost e = self@;
        let mut bytes: Vec<u8> = Vec::new();
        bytes.push(self.coinfile_hashes.len() as u8);
        let mut i: usize = 0;
        while i < self.coinfile_hashes.len()
            invariant
                e == self@,
                i <= self.coinfile_hashes@.len(),
                bytes@ == seq![e.coinfile_hashes.len() as u8] + flatten(e.coinfile_hashes.subrange(0, i as int)),
            decreases self.coinfile_hashes@.len() - i,
        {
            let h: [u8; 8] = self.coinfile_hashes[i];
            append_bytes(&mut bytes, h.as_slice());
            proof {
                let s = e.coinfile_hashes.subrange(0, i + 1);
                assert(s.drop_last() =~= e.coinfile_hashes.subrange(0, i as int));
                assert(s.last() == h@);
            }
            i = i + 1;
        }
        assert(e.coinfile_hashes.subrange(0, i as int) =~= e.coinfile_hashes);
        append_bytes(&mut bytes, self.output_hash.as_slice());
        match &self.public_key {
            Some(pk) => {
                bytes.push(0u8);
                append_bytes(&mut bytes, pk.as_slice());
            },
            None => {
                bytes.push(1u8);
                let idx = self.public_key_index.unwrap();
                let le = u64_to_le_bytes(idx);
                append_bytes(&mut bytes, le.as_slice());
            },
        }
        bytes.push(self.proof_of_work.len() as u8);
        append_bytes(&mut bytes, self.proof_of_work.as_slice());
        assert(bytes@ =~= encode_entry(e));
        Ok(bytes)
    }

    /// Decodes exactly one canonical entry; anything else, trailing bytes
    /// included, is a codec error.
    pub fn from_bytes(bytes: &[u8]) -> (r: Result<Entry, BlockError>)
        ensures
            match r {
                Ok(e) => parse_entry(bytes@) == Some(e@),
                Err(err) => parse_entry(bytes@).is_none() && err == BlockError::from_source_spec(Cause::Codec),
            },
    {
        let len = bytes.len();
        if len < 1 {
            return Err(BlockError::from_source(Cause::Codec));
        }
        let n = bytes[0] as usize;
        let hashes_end: usize = 1 + 8 * n;
        let tag_at: usize = hashes_end + 8;
        if len < tag_at + 1 || bytes[tag_at] > 1 {
            return Err(BlockError::from_source(Cause::Codec));
        }
        let d = bytes[tag_at];
        let pow_len_at: usize = if d == 0 { tag_at + 1 + PUBLIC_KEY_LEN } else { tag_at + 1 + 8 };
        if len < pow_len_at + 1 || len != pow_len_at + 1 + bytes[pow_len_at] as usize {
            return Err(BlockError::from_source(Cause::Codec));
        }
        let ghost parsed = parse_entry(bytes@).unwrap();
        let mut coinfile_hashes: Vec<[u8; 8]> = Vec::new();
        let mut i: usize = 0;
        while i < n
            invariant
                n == bytes@[0] as int,
                1 + 8 * n + 8 < bytes@.len(),
                i <= n,
                coinfile_hashes@.len() == i,
                forall|k: int| 0 <= k < i ==> (#[trigger] coinfile_hashes@[k])@ == bytes@.subrange(1 + 8 * k, 9 + 8 * k),
            decreases n - i,
        {
            let h = read8(bytes, 1 + 8 * i);
            coinfile_hashes.push(h);
            i = i + 1;
        }
        let output_hash = read8(bytes, hashes_end);
        let public_key: Option<Vec<u8>>;
        let public_key_index: Option<u64>;
        if d == 0 {
            public_key = Some(copy_range(bytes, tag_at + 1, pow_len_at));
            public_key_index = None;
        } else {
            let raw = copy_range(bytes, tag_at + 1, pow_len_at);
            public_key = None;
            public_key_index = Some(u64_from_le_bytes(raw.as_slice()));
        }
        let proof_of_work = copy_range(bytes, pow_len_at + 1, len);
        let e = Entry { coinfile_hashes, output_hash, public_key, public_key_index, proof_of_work };
        assert(e@.coinfile_hashes =~= parsed.coinfile_hashes);
        Ok(e)
    }
}

impl Entry {
    /// A copy of this entry.
    pub fn copy(&self) -> (r: Entry)
        ensures
            r@ == self@,
    {
        let mut coinfile_hashes: Vec<[u8; 8]> = Vec::new();
        let mut i: usize = 0;
        while i < self.coinfile_hashes.len()
            invariant
                i <= self.coinfile_hashes@.len(),
                coinfile_hashes@ == self.coinfile_hashes@.subrange(0, i as int),
            decreases self.coinfile_hashes@.len() - i,
        {
            coinfile_hashes.push(self.coinfile_hashes[i]);
            i = i + 1;
            assert(coinfile_hashes@ =~= self.coinfile_hashes@.subrange(0, i as int));
        }
        assert(coinfile_hashes@ =~= self.coinfile_hashes@);
        let public_key = match &self.public_key {
            Some(pk) => Some(copy_range(pk.as_slice(), 0, pk.len())),
            None => None,
        };
        let r = Entry {
            coinfile_hashes,
            output_hash: self.output_hash,
            public_key,
            public_key_index: self.public_key_index,
            proof_of_work: copy_range(self.proof_of_work.as_slice(), 0, self.proof_of_work.len()),
        };
        assert(r@.coinfile_hashes =~= self@.coinfile_hashes);
        assert(r@.proof_of_work =~= self@.proof_of_work);
        match &self.public_key {
            Some(pk) => assert(pk@.subrange(0, pk@.len() as int) =~= pk@),
            None => {},
        }
        r
    }
}

impl PartialEq for Entry {
    fn eq(&self, other: &Entry) -> (r: bool)
        ensures
            r == (self@ == other@),
    {
        if self.coinfile_hashes.len() != other.coinfile_hashes.len() {
            assert(self@.coinfile_hashes.len() != other@.coinfile_hashes.len());
            return false;
        }
        let mut i: usize = 0;
        while i < self.coinfile_hashes.len()
            invariant
                self.coinfile_hashes@.len() == other.coinfile_hashes@.len(),
                i <= self.coinfile_hashes@.len(),
                forall|k: int| 0 <= k < i ==> self@.coinfile_hashes[k] == other@.coinfile_hashes[k],
            decreases self.coinfile_hashes@.len() - i,
        {
            if !bytes_eq(self.coinfile_hashes[i].as_slice(), other.coinfile_hashes[i].as_slice()) {
                assert(self@.coinfile_hashes[i as int] != other@.coinfile_hashes[i as int]);
                return false;
            }
            i = i + 1;
        }
        assert(self@.coinfile_hashes =~= other@.coinfile_hashes);
        if !bytes_eq(self.output_hash.as_slice(), other.output_hash.as_slice()) {
            return false;
        }
        let same_key = match (&self.public_key, &other.public_key) {
            (Some(a), Some(b)) => bytes_eq(a.as_slice(), b.as_slice()),
            (None, None) => true,
            _ => false,
        };
        if !same_key {
            return false;
        }
        let same_index = match (self.public_key_index, other.public_key_index) {
            (Some(a), Some(b)) => a == b,
            (None, None) => true,
            _ => false,
        };
        if !same_index {
            return false;
        }
        bytes_eq(self.proof_of_work.as_slice(), other.proof_of_work.as_slice())
    }
}

impl vstd::std_specs::cmp::PartialEqSpecImpl for Entry {
    open spec fn obeys_eq_spec() -> bool {
        true
    }

    open spec fn eq_spec(&self, other: &Entry) -> bool {
        self@ == other@
    }
}

} // verus!
