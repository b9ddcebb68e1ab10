//! Block headers: the byte string that keys proof of work, and the record
//! that the store keeps for each header.
use vstd::prelude::*;

use vstd::bytes::{
    lemma_auto_spec_u32_to_from_le_bytes, lemma_auto_spec_u64_to_from_le_bytes, spec_u32_from_le_bytes,
    spec_u32_to_le_bytes, spec_u64_from_le_bytes, spec_u64_to_le_bytes, u32_from_le_bytes, u32_to_le_bytes,
    u64_from_le_bytes, u64_to_le_bytes,
};

use crate::octets::{append_bytes, copy_range};

verus! {

/// A block header. The four difficulty quantities are single-precision
/// numbers, held here as their IEEE-754 bit patterns.
#[derive(Clone, Debug)]
pub struct BlockHeader {
    pub previous_hash: [u8; 32],
    pub height: usize,
    pub merkle_root: [u8; 28],
    pub timestamp: u64,
    pub difficulty_target: u32,
    pub entry_difficulty: u32,
    pub entry_difficulty_multiplier: u32,
    pub max_allowed_entry_difficulty: u32,
    pub miner_address: [u8; 32],
    pub signature: Vec<u8>,
    pub nonce: Vec<u8>,
}

/// The mathematical value of a header.
pub struct HeaderView {
    pub previous_hash: Seq<u8>,
    pub height: u64,
    pub merkle_root: Seq<u8>,
    pub timestamp: u64,
    pub difficulty_target: u32,
    pub entry_difficulty: u32,
    pub entry_difficulty_multiplier: u32,
    pub max_allowed_entry_difficulty: u32,
    pub miner_address: Seq<u8>,
    pub signature: Seq<u8>,
    pub nonce: Seq<u8>,
}

impl View for BlockHeader {
    type V = HeaderView;

    open spec fn view(&self) -> HeaderView {
        HeaderView {
            previous_hash: self.previous_hash@,
            height: self.height as u64,
            merkle_root: self.merkle_root@,
            timestamp: self.timestamp,
            difficulty_target: self.difficulty_target,
            entry_difficulty: self.entry_difficulty,
            entry_difficulty_multiplier: self.entry_difficulty_multiplier,
            max_allowed_entry_difficulty: self.max_allowed_entry_difficulty,
            miner_address: self.miner_address@,
            signature: self.signature@,
            nonce: self.nonce@,
        }
    }
}

/// The header concatenation that keys proof of work; it leaves out the nonce
/// and the three entry-difficulty quantities.
pub open spec fn header_concat(h: HeaderView) -> Seq<u8> {
    h.previous_hash + spec_u64_to_le_bytes(h.height) + h.merkle_root + spec_u64_to_le_bytes(h.timestamp)
        + spec_u32_to_le_bytes(h.difficulty_target) + h.miner_address + h.signature
}

/// Length of the fixed part of a header record.
pub const RECORD_FIXED_LEN: usize = 132;

/// The stored record of a header: every field, the signature length-prefixed
/// and the nonce last.
pub open spec fn header_record(h: HeaderView) -> Seq<u8> {
    h.previous_hash + spec_u64_to_le_bytes(h.height) + h.merkle_root + spec_u64_to_le_bytes(h.timestamp)
        + spec_u32_to_le_bytes(h.difficulty_target) + spec_u32_to_le_bytes(h.entry_difficulty)
        + spec_u32_to_le_bytes(h.entry_difficulty_multiplier) + spec_u32_to_le_bytes(h.max_allowed_entry_difficulty)
        + h.miner_address + spec_u64_to_le_bytes(h.signature.len() as u64) + h.signature + h.nonce
}

/// Fields of a header view have the widths of the header's arrays.
pub open spec fn header_view_wf(h: HeaderView) -> bool {
    &&& h.previous_hash.len() == 32
    &&& h.merkle_root.len() == 28
    &&& h.miner_address.len() == 32
    &&& h.signature.len() < 0x1_0000_0000
    &&& h.height <= usize::MAX
}

/// The header that a record holds, if it is one.
pub open spec fn parse_header_record(b: Seq<u8>) -> Option<HeaderView> {
    if b.len() < 132 {
        None
    } else {
        let sig_len = spec_u64_from_le_bytes(b.subrange(124, 132)) as int;
        if sig_len >= 0x1_0000_0000 || b.len() < 132 + sig_len
            || spec_u64_from_le_bytes(b.subrange(32, 40)) > usize::MAX {
            None
        } else {
            Some(HeaderView {
                previous_hash: b.subrange(0, 32),
                height: spec_u64_from_le_bytes(b.subrange(32, 40)),
                merkle_root: b.subrange(40, 68),
                timestamp: spec_u64_from_le_bytes(b.subrange(68, 76)),
                difficulty_target: spec_u32_from_le_bytes(b.subrange(76, 80)),
                entry_difficulty: spec_u32_from_le_bytes(b.subrange(80, 84)),
                entry_difficulty_multiplier: spec_u32_from_le_bytes(b.subrange(84, 88)),
                max_allowed_entry_difficulty: spec_u32_from_le_bytes(b.subrange(88, 92)),
                miner_address: b.subrange(92, 124),
                signature: b.subrange(132, 132 + sig_len),
                nonce: b.subrange(132 + sig_len, b.len() as int),
            })
        }
    }
}

/// A header record reads back as the header it was written from.
pub proof fn lemma_header_record_round_trip(h: HeaderView)
    requires
        header_view_wf(h),
    ensures
        parse_header_record(header_record(h)) == Some(h),
{
    lemma_auto_spec_u64_to_from_le_bytes();
    lemma_auto_spec_u32_to_from_le_bytes();
    let b = header_record(h);
    let s = h.signature.len() as int;
    assert(b.subrange(0, 32) =~= h.previous_hash);
    assert(b.subrange(32, 40) =~= spec_u64_to_le_bytes(h.height));
    assert(b.subrange(40, 68) =~= h.merkle_root);
    assert(b.subrange(68, 76) =~= spec_u64_to_le_bytes(h.timestamp));
    assert(b.subrange(76, 80) =~= spec_u32_to_le_bytes(h.difficulty_target));
    assert(b.subrange(80, 84) =~= spec_u32_to_le_bytes(h.entry_difficulty));
    assert(b.subrange(84, 88) =~= spec_u32_to_le_bytes(h.entry_difficulty_multiplier));
    assert(b.subrange(88, 92) =~= spec_u32_to_le_bytes(h.max_allowed_entry_difficulty));
    assert(b.subrange(92, 124) =~= h.miner_address);
    assert(b.subrange(124, 132) =~= spec_u64_to_le_bytes(s as u64));
    assert(b.subrange(132, 132 + s) =~= h.signature);
    assert(b.subrange(132 + s, b.len() as int) =~= h.nonce);
}

fn read28(b: &[u8], pos: usize) -> (r: [u8; 28])
    requires
        pos + 28 <= b@.len(),
    ensures
        r@ == b@.subrange(pos as int, pos + 28),
{
    let mut r = [0u8; 28];
    let blen = b.len();
    let mut j: usize = 0;
    while j < 28
        invariant
            blen == b@.len(),
            pos + 28 <= b@.len(),
            j <= 28,
            forall|k: int| 0 <= k < j ==> r@[k] == b@[pos + k],
        decreases 28 - j,
    {
        r[j] = b[pos + j];
        j = j + 1;
    }
    assert(r@ =~= b@.subrange(pos as int, pos + 28));
    r
}

pub(crate) fn read32(b: &[u8], pos: usize) -> (r: [u8; 32])
    requires
        pos + 32 <= b@.len(),
    ensures
        r@ == b@.subrange(pos as int, pos + 32),
{
    let mut r = [0u8; 32];
    let blen = b.len();
    let mut j: usize = 0;
    while j < 32
        invariant
            blen == b@.len(),
            pos + 32 <= b@.len(),
            j <= 32,
            forall|k: int| 0 <= k < j ==> r@[k] == b@[pos + k],
        decreases 32 - j,
    {
        r[j] = b[pos + j];
        j = j + 1;
    }
    assert(r@ =~= b@.subrange(pos as int, pos + 32));
    r
}

fn read_u64(b: &[u8], pos: usize) -> (r: u64)
    requires
        pos + 8 <= b@.len(),
    ensures
        r == spec_u64_from_le_bytes(b@.subrange(pos as int, pos + 8)),
{
    let blen = b.len();
    let raw = copy_range(b, pos, pos + 8);
    u64_from_le_bytes(raw.as_slice())
}

fn read_u32(b: &[u8], pos: usize) -> (r: u32)
    requires
        pos + 4 <= b@.len(),
    ensures
        r == spec_u32_from_le_bytes(b@.subrange(pos as int, pos + 4)),
{
    let blen = b.len();
    let raw = copy_range(b, pos, pos + 4);
    u32_from_le_bytes(raw.as_slice())
}

impl BlockHeader {
    pub fn new(
        previous_hash: [u8; 32],
        height: usize,
        merkle_root: [u8; 28],
        timestamp: u64,
        difficulty_target: u32,
        entry_difficulty: u32,
        entry_difficulty_multiplier: u32,
        max_allowed_entry_difficulty: u32,
        miner_address: [u8; 32],
        signature: Vec<u8>,
        nonce: Vec<u8>,
    ) -> (r: Self)
        ensures
            r.previous_hash == previous_hash,
            r.height == height,
            r.merkle_root == merkle_root,
            r.timestamp == timestamp,
            r.difficulty_target == difficulty_target,
            r.entry_difficulty == entry_difficulty,
            r.entry_difficulty_multiplier == entry_difficulty_multiplier,
            r.max_allowed_entry_difficulty == max_allowed_entry_difficulty,
            r.miner_address == miner_address,
            r.signature == signature,
            r.nonce == nonce,
    {
        BlockHeader {
            previous_hash,
            height,
            merkle_root,
            timestamp,
            difficulty_target,
            entry_difficulty,
            entry_difficulty_multiplier,
            max_allowed_entry_difficulty,
            miner_address,
            signature,
            nonce,
        }
    }

    /// The header concatenation that keys proof of work.
    pub fn concat(&self) -> (r: Vec<u8>)
        ensures
            r@ == header_concat(self@),
    {
        let mut out: Vec<u8> = Vec::new();
        append_bytes(&mut out, self.previous_hash.as_slice());
        append_bytes(&mut out, u64_to_le_bytes(self.height as u64).as_slice());
        append_bytes(&mut out, self.merkle_root.as_slice());
        append_bytes(&mut out, u64_to_le_bytes(self.timestamp).as_slice());
        append_bytes(&mut out, u32_to_le_bytes(self.difficulty_target).as_slice());
        append_bytes(&mut out, self.miner_address.as_slice());
        append_bytes(&mut out, self.signature.as_slice());
        out
    }

    /// The input that the proof-of-work hash is evaluated on: the header
    /// concatenation followed by the nonce.
    pub fn pow_input(&self) -> (r: Vec<u8>)
        ensures
            r@ == header_concat(self@) + self.nonce@,
    {
        let mut out = self.concat();
        append_bytes(&mut out, self.nonce.as_slice());
        out
    }

    /// The record that the store keeps for this header.
    pub fn to_record(&self) -> (r: Vec<u8>)
        ensures
            r@ == header_record(self@),
    {
        let mut out: Vec<u8> = Vec::new();
        append_bytes(&mut out, self.previous_hash.as_slice());
        append_bytes(&mut out, u64_to_le_bytes(self.height as u64).as_slice());
        append_bytes(&mut out, self.merkle_root.as_slice());
        append_bytes(&mut out, u64_to_le_bytes(self.timestamp).as_slice());
        append_bytes(&mut out, u32_to_le_bytes(self.difficulty_target).as_slice());
        append_bytes(&mut out, u32_to_le_bytes(self.entry_difficulty).as_slice());
        append_bytes(&mut out, u32_to_le_bytes(self.entry_difficulty_multiplier).as_slice());
        append_bytes(&mut out, u32_to_le_bytes(self.max_allowed_entry_difficulty).as_slice());
        append_bytes(&mut out, self.miner_address.as_slice());
        append_bytes(&mut out, u64_to_le_bytes(self.signature.len() as u64).as_slice());
        append_bytes(&mut out, self.signature.as_slice());
        append_bytes(&mut out, self.nonce.as_slice());
        out
    }

    /// Reads a header back from its record.
    pub fn from_record(b: &[u8]) -> (r: Option<BlockHeader>)
        ensures
            match r {
                Some(h) => parse_header_record(b@) == Some(h@),
                None => parse_header_record(b@).is_none(),
            },
    {
        let len = b.len();
        if len < RECORD_FIXED_LEN {
            return None;
        }
        let sig_len = read_u64(b, 124);
        if sig_len >= 0x1_0000_0000u64 || (len as u64) < 132 + sig_len {
            return None;
        }
        let height = read_u64(b, 32);
        if height > usize::MAX as u64 {
            return None;
        }
        let sig_end = 132 + sig_len as usize;
        let h = BlockHeader {
            previous_hash: read32(b, 0),
            height: height as usize,
            merkle_root: read28(b, 40),
            timestamp: read_u64(b, 68),
            difficulty_target: read_u32(b, 76),
            entry_difficulty: read_u32(b, 80),
            entry_difficulty_multiplier: read_u32(b, 84),
            max_allowed_entry_difficulty: read_u32(b, 88),
            miner_address: read32(b, 92),
            signature: copy_range(b, 132, sig_end),
            nonce: copy_range(b, sig_end, len),
        };
        Some(h)
    }
}

} // verus!
