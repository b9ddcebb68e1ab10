//! The chain engine: chain info, the ordered block-acceptance pipeline, the
//! rollback of the top block, and the bookkeeping that follows each of them.
use vstd::prelude::*;

use vstd::bytes::{spec_u64_to_le_bytes, u64_to_le_bytes};

use crate::block::{encodings, resolved_keys, signing_fault, Block};
use crate::signing::aggregate_accepts;
use crate::error::{BlockError, BlockchainError, BlockchainErrorKind, Cause};
use crate::float_bits::{f32_eq, f32_lt, float_eq, float_lt};
use crate::header::{header_record, lemma_header_record_round_trip, parse_header_record, read32, BlockHeader, HeaderView};
use crate::keys::{key_of, lemma_keys_distinct, KeyType};
use crate::octets::{bytes_eq, copy_range};
use crate::store::KvStore;

verus! {

/// How many recent headers the difficulty averages look at.
pub const PREVIOUS_BLOCKS_TO_CONSIDER: usize = 750;

/// How long, in blocks, one proof-of-work key stays in use.
pub const RANDOMX_VM_KEY_LIFETIME: usize = 10000;

/// How far, in seconds, a block's timestamp may run ahead of network time.
pub const FUTURE_TOLERANCE: u64 = 3600;

/// How far back, in blocks, the timestamp floor is read.
pub const MEDIAN_TIMESTAMP_DEPTH: usize = 11;

/// Starting difficulty target: 256.0 as single-precision bits.
pub const DEFAULT_DIFFICULTY: u32 = 0x4380_0000;

/// Starting entry-difficulty multiplier: 0.005 as single-precision bits.
pub const DEFAULT_ENTRY_DIFFICULTY_MULTIPLIER: u32 = 0x3ba3_d70a;

/// Starting cap on entry difficulty: 4096.0 as single-precision bits.
pub const DEFAULT_MAX_ALLOWED_ENTRY_DIFFICULTY: u32 = 0x4580_0000;

/// Starting block size cap, in bytes.
pub const DEFAULT_BLOCK_SIZE_CAP: usize = 250000;

/// The singleton record of the chain's state. Difficulty quantities are
/// single-precision numbers held as their bit patterns.
#[derive(Clone, Copy, Debug)]
pub struct BlockchainInfo {
    pub is_empty: bool,
    pub top_block_hash: [u8; 32],
    pub past_median_timestamp: u64,
    pub network_adjusted_time: u64,
    pub difficulty: u32,
    pub randomx_vm_key: [u8; 32],
    pub entry_difficulty_multiplier: u32,
    pub max_allowed_entry_difficulty: u32,
    pub block_size_cap: usize,
    pub height: usize,
}

/// The mathematical value of the chain info.
pub struct InfoView {
    pub is_empty: bool,
    pub top_block_hash: Seq<u8>,
    pub past_median_timestamp: u64,
    pub network_adjusted_time: u64,
    pub difficulty: u32,
    pub randomx_vm_key: Seq<u8>,
    pub entry_difficulty_multiplier: u32,
    pub max_allowed_entry_difficulty: u32,
    pub block_size_cap: usize,
    pub height: usize,
}

impl View for BlockchainInfo {
    type V = InfoView;

    open spec fn view(&self) -> InfoView {
        InfoView {
            is_empty: self.is_empty,
            top_block_hash: self.top_block_hash@,
            past_median_timestamp: self.past_median_timestamp,
            network_adjusted_time: self.network_adjusted_time,
            difficulty: self.difficulty,
            randomx_vm_key: self.randomx_vm_key@,
            entry_difficulty_multiplier: self.entry_difficulty_multiplier,
            max_allowed_entry_difficulty: self.max_allowed_entry_difficulty,
            block_size_cap: self.block_size_cap,
            height: self.height,
        }
    }
}

/// The chain info of an empty chain: no blocks, the zero key, and the
/// starting difficulty quantities.
pub open spec fn default_info(network_adjusted_time: u64) -> InfoView {
    InfoView {
        is_empty: true,
        top_block_hash: zero_key(),
        past_median_timestamp: 0,
        network_adjusted_time,
        difficulty: DEFAULT_DIFFICULTY,
        randomx_vm_key: zero_key(),
        entry_difficulty_multiplier: DEFAULT_ENTRY_DIFFICULTY_MULTIPLIER,
        max_allowed_entry_difficulty: DEFAULT_MAX_ALLOWED_ENTRY_DIFFICULTY,
        block_size_cap: DEFAULT_BLOCK_SIZE_CAP,
        height: 0,
    }
}

impl BlockchainInfo {
    /// The chain info of an empty chain at network time `network_adjusted_time`.
    pub fn new_default(network_adjusted_time: u64) -> (r: Self)
        ensures
            r@ == default_info(network_adjusted_time),
    {
        let r = BlockchainInfo {
            is_empty: true,
            top_block_hash: [0u8; 32],
            past_median_timestamp: 0,
            network_adjusted_time,
            difficulty: DEFAULT_DIFFICULTY,
            randomx_vm_key: [0u8; 32],
            entry_difficulty_multiplier: DEFAULT_ENTRY_DIFFICULTY_MULTIPLIER,
            max_allowed_entry_difficulty: DEFAULT_MAX_ALLOWED_ENTRY_DIFFICULTY,
            block_size_cap: DEFAULT_BLOCK_SIZE_CAP,
            height: 0,
        };
        assert(r.top_block_hash@ =~= zero_key());
        assert(r.randomx_vm_key@ =~= zero_key());
        r
    }
}

impl PartialEq for BlockchainInfo {
    fn eq(&self, other: &BlockchainInfo) -> (r: bool)
        ensures
            r == (self@ == other@),
    {
        self.is_empty == other.is_empty
            && bytes_eq(self.top_block_hash.as_slice(), other.top_block_hash.as_slice())
            && self.past_median_timestamp == other.past_median_timestamp
            && self.network_adjusted_time == other.network_adjusted_time
            && self.difficulty == other.difficulty
            && bytes_eq(self.randomx_vm_key.as_slice(), other.randomx_vm_key.as_slice())
            && self.entry_difficulty_multiplier == other.entry_difficulty_multiplier
            && self.max_allowed_entry_difficulty == other.max_allowed_entry_difficulty
            && self.block_size_cap == other.block_size_cap
            && self.height == other.height
    }
}

impl vstd::std_specs::cmp::PartialEqSpecImpl for BlockchainInfo {
    open spec fn obeys_eq_spec() -> bool {
        true
    }

    open spec fn eq_spec(&self, other: &BlockchainInfo) -> bool {
        self@ == other@
    }
}

/// What the difficulty averages read of one header.
#[derive(Clone, Copy, Debug, PartialEq, Eq, Structural)]
pub struct WindowSample {
    pub timestamp: u64,
    pub difficulty_target: u32,
    pub entry_difficulty: u32,
}

/// The outputs of the difficulty controller.
#[derive(Clone, Copy, Debug, PartialEq, Eq, Structural)]
pub struct Limits {
    pub difficulty: u32,
    pub entry_difficulty_multiplier: u32,
    pub max_allowed_entry_difficulty: u32,
}

/// The single-precision measures of a candidate block, and the proof-of-work
/// hash recomputed under the current key, that acceptance compares against.
#[derive(Clone, Copy, Debug)]
pub struct Measures {
    /// The block's difficulty: miner difficulty plus entry difficulty times
    /// the multiplier.
    pub block_difficulty: u32,
    /// The sum of the entries' difficulties, capped at the block's maximum.
    pub entry_difficulty: u32,
    /// The proof-of-work hash of the header input under the current key.
    pub pow_hash: [u8; 32],
}

/// One write to the backing store: a put of a value, or a delete.
#[derive(Clone, Debug)]
pub enum StoreWrite {
    Put(Vec<u8>, Vec<u8>),
    Delete(Vec<u8>),
}

impl View for StoreWrite {
    type V = (Seq<u8>, Option<Seq<u8>>);

    open spec fn view(&self) -> (Seq<u8>, Option<Seq<u8>>) {
        match self {
            StoreWrite::Put(k, v) => (k@, Some(v@)),
            StoreWrite::Delete(k) => (k@, None),
        }
    }
}

pub open spec fn block_key(hash: Seq<u8>) -> Seq<u8> {
    key_of(KeyType::Block, hash)
}

pub open spec fn header_key(hash: Seq<u8>) -> Seq<u8> {
    key_of(KeyType::BlockHeader, hash)
}

pub open spec fn height_key(height: int) -> Seq<u8> {
    key_of(KeyType::BlockHeight, spec_u64_to_le_bytes(height as u64))
}

/// The header stored for height `h`, looked up through the height index.
pub open spec fn header_at(kv: Map<Seq<u8>, Seq<u8>>, h: int) -> Option<HeaderView> {
    if kv.contains_key(height_key(h)) && kv.contains_key(header_key(kv[height_key(h)])) {
        parse_header_record(kv[header_key(kv[height_key(h)])])
    } else {
        None
    }
}

/// The error of a header lookup at height `h` that finds no header: no
/// height index entry, no header record under the indexed hash, or a record
/// that does not decode.
pub open spec fn header_at_error(kv: Map<Seq<u8>, Seq<u8>>, h: int) -> BlockchainError {
    if !kv.contains_key(height_key(h)) {
        BlockchainError::new_spec(BlockchainErrorKind::CantFindHashFromHeight)
    } else if !kv.contains_key(header_key(kv[height_key(h)])) {
        BlockchainError::new_spec(BlockchainErrorKind::BlockHeaderDoesntExist)
    } else {
        BlockchainError::from_source_spec(Cause::Codec)
    }
}

/// A read that recomputing the chain info at height `h` needs fails: the
/// hash at the epoch boundary (missing, or not 32 bytes), the header at the
/// timestamp-floor height, or a header of the difficulty window.
pub open spec fn recovery_read_fails(kv: Map<Seq<u8>, Seq<u8>>, h: int) -> bool {
    let l = RANDOMX_VM_KEY_LIFETIME as int;
    let boundary = height_key((h / l) * l);
    ||| (h >= l && !(kv.contains_key(boundary) && kv[boundary].len() == 32))
    ||| (h >= 1 && header_at(kv, median_source(h)).is_none())
    ||| (h >= 2 && !window_readable(kv, h))
}

pub open spec fn sample_of(h: HeaderView) -> WindowSample {
    WindowSample { timestamp: h.timestamp, difficulty_target: h.difficulty_target, entry_difficulty: h.entry_difficulty }
}

/// The number of headers the averages read at height `h`.
pub open spec fn window_len(h: int) -> int {
    if h < (PREVIOUS_BLOCKS_TO_CONSIDER as int) {
        h
    } else {
        PREVIOUS_BLOCKS_TO_CONSIDER as int
    }
}

/// Whether every header of the window at height `h` can be read.
pub open spec fn window_readable(kv: Map<Seq<u8>, Seq<u8>>, h: int) -> bool {
    forall|i: int| 0 <= i < window_len(h) ==> #[trigger] header_at(kv, h - i).is_some()
}

/// The window at height `h`: the most recent headers, newest first.
pub open spec fn window(kv: Map<Seq<u8>, Seq<u8>>, h: int) -> Seq<WindowSample> {
    Seq::new(window_len(h) as nat, |i: int| sample_of(header_at(kv, h - i).unwrap()))
}

/// The height whose timestamp becomes the timestamp floor at height `h`.
pub open spec fn median_source(h: int) -> int {
    if h - (MEDIAN_TIMESTAMP_DEPTH as int) < 1 {
        1
    } else {
        h - MEDIAN_TIMESTAMP_DEPTH as int
    }
}

/// The first check that `block` fails before its signature is looked at,
/// in the order of acceptance.
pub open spec fn admission_error(
    info: BlockchainInfo,
    kv: Map<Seq<u8>, Seq<u8>>,
    block: Block,
    envelope_len: int,
    m: Measures,
) -> Option<BlockchainErrorKind> {
    if kv.contains_key(block_key(block.hash@)) {
        Some(BlockchainErrorKind::BlockAlreadyExists)
    } else if block.header.height > info.height + 1 {
        Some(BlockchainErrorKind::SkippedBlock)
    } else if block.header.height < info.height + 1 {
        Some(BlockchainErrorKind::BlockNotAtTop)
    } else if block.header.previous_hash@ != info.top_block_hash@ {
        Some(BlockchainErrorKind::BlockPreviousHashWrong)
    } else if !float_eq(block.header.difficulty_target, info.difficulty) {
        Some(BlockchainErrorKind::BlockTargetDifficultyWrong)
    } else if block.header.timestamp < info.past_median_timestamp {
        Some(BlockchainErrorKind::BlockTimestampTooEarly)
    } else if block.header.timestamp > info.network_adjusted_time + FUTURE_TOLERANCE {
        Some(BlockchainErrorKind::BlockInFuture)
    } else if float_lt(m.block_difficulty, info.difficulty) {
        Some(BlockchainErrorKind::BlockNotEnoughWork)
    } else if !float_eq(block.header.entry_difficulty, m.entry_difficulty) {
        Some(BlockchainErrorKind::BlockEntryDifficultyWrong)
    } else if !float_eq(block.header.max_allowed_entry_difficulty, info.max_allowed_entry_difficulty) {
        Some(BlockchainErrorKind::BlockMaxAllowedEntryDifficultyWrong)
    } else if !block.merkle_root_valid() {
        Some(BlockchainErrorKind::InvalidMerkleRoot)
    } else if envelope_len > info.block_size_cap {
        Some(BlockchainErrorKind::BlockTooBig)
    } else {
        None
    }
}

/// The chain engine: the chain info over a key-value store.
pub struct Blockchain {
    pub info: BlockchainInfo,
    pub store: KvStore,
}


/// The difficulty fields of `after` are those that `retarget` gave for the
/// window at height `h` of `kv`; below height two they are left as in `before`.
pub open spec fn limits_follow<F: Fn(Vec<WindowSample>) -> Limits>(
    retarget: F,
    before: BlockchainInfo,
    after: BlockchainInfo,
    kv: Map<Seq<u8>, Seq<u8>>,
    h: int,
) -> bool {
    if h < 2 {
        &&& after.difficulty == before.difficulty
        &&& after.entry_difficulty_multiplier == before.entry_difficulty_multiplier
        &&& after.max_allowed_entry_difficulty == before.max_allowed_entry_difficulty
    } else {
        exists|w: Vec<WindowSample>, l: Limits|
            #![trigger call_ensures(retarget, (w,), l)]
            {
                &&& w@ == window(kv, h)
                &&& call_ensures(retarget, (w,), l)
                &&& after.difficulty == l.difficulty
                &&& after.entry_difficulty_multiplier == l.entry_difficulty_multiplier
                &&& after.max_allowed_entry_difficulty == l.max_allowed_entry_difficulty
            }
    }
}

/// The timestamp floor of `after` is read at height `h` of `kv`; at height
/// zero it is left as in `before`.
pub open spec fn median_follows(before: BlockchainInfo, after: BlockchainInfo, kv: Map<Seq<u8>, Seq<u8>>, h: int) -> bool {
    if h < 1 {
        after.past_median_timestamp == before.past_median_timestamp
    } else {
        header_at(kv, median_source(h)) matches Some(x) && after.past_median_timestamp == x.timestamp
    }
}

/// The store after `block` is appended at height `h`: its envelope, its
/// height index entry, and its header record.
pub open spec fn appended_store(kv: Map<Seq<u8>, Seq<u8>>, block: Block, envelope: Seq<u8>, h: int) -> Map<
    Seq<u8>,
    Seq<u8>,
> {
    kv.insert(block_key(block.hash@), envelope).insert(height_key(h), block.hash@).insert(
        header_key(block.hash@),
        header_record(block.header@),
    )
}

/// The store after the top block, at height `h` with hash `hash`, is removed.
pub open spec fn truncated_store(kv: Map<Seq<u8>, Seq<u8>>, hash: Seq<u8>, h: int) -> Map<Seq<u8>, Seq<u8>> {
    kv.remove(height_key(h)).remove(header_key(hash)).remove(block_key(hash))
}

pub open spec fn zero_key() -> Seq<u8> {
    Seq::new(32, |i: int| 0u8)
}

/// The aggregate verifier accepts the block's signature over its entries'
/// serializations and their keys as `kv` resolves them.
pub open spec fn signature_accepted(block: Block, kv: Map<Seq<u8>, Seq<u8>>) -> bool {
    aggregate_accepts(block.header.signature@, encodings(block.entries_view()), resolved_keys(block.entries_view(), kv))
}

/// `post` is `pre` with `block` appended: every check passed, the three
/// records are written, the top moves to the block, and the timestamp floor,
/// the difficulty limits and the proof-of-work key follow the new height.
pub open spec fn appended<F: Fn(Vec<WindowSample>) -> Limits>(
    pre: Blockchain,
    post: Blockchain,
    block: Block,
    envelope: Seq<u8>,
    measures: Measures,
    retarget: F,
) -> bool {
    let h = pre.info.height + 1;
    let kv = appended_store(pre.store@, block, envelope, h);
    &&& admission_error(pre.info, pre.store@, block, envelope.len() as int, measures).is_none()
    &&& signing_fault(block.entries_view(), pre.store@).is_none()
    &&& signature_accepted(block, pre.store@)
    &&& block.header.signature@.len() == 96
    &&& measures.pow_hash@ == block.hash@
    &&& block.header.height == h
    &&& post.store@ == kv
    &&& post.info.height == h
    &&& post.info.top_block_hash == block.hash
    &&& !post.info.is_empty
    &&& post.info.network_adjusted_time == pre.info.network_adjusted_time
    &&& post.info.block_size_cap == pre.info.block_size_cap
    &&& median_follows(pre.info, post.info, kv, h)
    &&& limits_follow(retarget, pre.info, post.info, kv, h)
    &&& post.info.randomx_vm_key == if h % (RANDOMX_VM_KEY_LIFETIME as int) == 0 {
        block.hash
    } else {
        pre.info.randomx_vm_key
    }
}

/// `post` is `pre` with its top block removed: the three records of the
/// block at the top height are deleted, the top moves to the removed header's
/// previous hash, and the timestamp floor, the difficulty limits and the
/// proof-of-work key follow the lower height.
pub open spec fn rolled_back<F: Fn(Vec<WindowSample>) -> Limits>(pre: Blockchain, post: Blockchain, retarget: F) -> bool {
    let h = pre.info.height as int;
    let hash = pre.store@[height_key(h)];
    let removed = parse_header_record(pre.store@[header_key(hash)]);
    let kv = truncated_store(pre.store@, hash, h);
    &&& h > 0
    &&& pre.store@.contains_key(height_key(h))
    &&& pre.store@.contains_key(header_key(hash))
    &&& removed is Some
    &&& post.store@ == kv
    &&& post.info.height == h - 1
    &&& post.info.top_block_hash@ == removed.unwrap().previous_hash
    &&& post.info.is_empty == pre.info.is_empty
    &&& post.info.network_adjusted_time == pre.info.network_adjusted_time
    &&& post.info.block_size_cap == pre.info.block_size_cap
    &&& median_follows(pre.info, post.info, kv, h - 1)
    &&& limits_follow(retarget, pre.info, post.info, kv, h - 1)
    &&& post.info.randomx_vm_key@ == if h % (RANDOMX_VM_KEY_LIFETIME as int) != 0 {
        pre.info.randomx_vm_key@
    } else if h > RANDOMX_VM_KEY_LIFETIME as int {
        kv[height_key(h - RANDOMX_VM_KEY_LIFETIME as int)]
    } else {
        zero_key()
    }
}

fn height_key_of(h: usize) -> (r: Vec<u8>)
    ensures
        r@ == height_key(h as int),
{
    let le = u64_to_le_bytes(h as u64);
    KeyType::make_key(KeyType::BlockHeight, le.as_slice())
}

impl Blockchain {
    pub open spec fn wf(&self) -> bool {
        self.store.wf()
    }

    /// An empty chain over an empty store.
    pub fn new(network_adjusted_time: u64) -> (r: Self)
        ensures
            r.wf(),
            r.store@ == Map::<Seq<u8>, Seq<u8>>::empty(),
            r.info@ == default_info(network_adjusted_time),
    {
        Blockchain { info: BlockchainInfo::new_default(network_adjusted_time), store: KvStore::new() }
    }

    /// An engine over an existing store and chain info.
    pub fn from_parts(info: BlockchainInfo, store: KvStore) -> (r: Self)
        requires
            store.wf(),
        ensures
            r.wf(),
            r.info == info,
            r.store == store,
    {
        Blockchain { info, store }
    }

    /// The stored envelope of the block whose proof-of-work hash is `hash`.
    pub fn get_block(&self, hash: &[u8]) -> (r: Result<Vec<u8>, BlockchainError>)
        requires
            self.wf(),
        ensures
            match r {
                Ok(v) => self.store@.contains_key(block_key(hash@)) && v@ == self.store@[block_key(hash@)],
                Err(e) => !self.store@.contains_key(block_key(hash@))
                    && e == BlockchainError::new_spec(BlockchainErrorKind::BlockDoesntExist),
            },
    {
        let key = KeyType::make_key(KeyType::Block, hash);
        match self.store.get(key.as_slice()) {
            Some(v) => Ok(v),
            None => Err(BlockchainError::new(BlockchainErrorKind::BlockDoesntExist)),
        }
    }

    /// The proof-of-work hash of the block at `height`.
    pub fn get_block_hash(&self, height: usize) -> (r: Result<Vec<u8>, BlockchainError>)
        requires
            self.wf(),
        ensures
            match r {
                Ok(v) => self.store@.contains_key(height_key(height as int)) && v@ == self.store@[height_key(height as int)],
                Err(e) => !self.store@.contains_key(height_key(height as int))
                    && e == BlockchainError::new_spec(BlockchainErrorKind::CantFindHashFromHeight),
            },
    {
        let key = height_key_of(height);
        match self.store.get(key.as_slice()) {
            Some(v) => Ok(v),
            None => Err(BlockchainError::new(BlockchainErrorKind::CantFindHashFromHeight)),
        }
    }

    /// The header of the block whose proof-of-work hash is `hash`.
    pub fn get_block_header(&self, hash: &[u8]) -> (r: Result<BlockHeader, BlockchainError>)
        requires
            self.wf(),
        ensures
            match r {
                Ok(h) => self.store@.contains_key(header_key(hash@))
                    && parse_header_record(self.store@[header_key(hash@)]) == Some(h@),
                Err(e) => if self.store@.contains_key(header_key(hash@)) {
                    parse_header_record(self.store@[header_key(hash@)]).is_none()
                        && e == BlockchainError::from_source_spec(Cause::Codec)
                } else {
                    e == BlockchainError::new_spec(BlockchainErrorKind::BlockHeaderDoesntExist)
                },
            },
    {
        let key = KeyType::make_key(KeyType::BlockHeader, hash);
        match self.store.get(key.as_slice()) {
            Some(v) => match BlockHeader::from_record(v.as_slice()) {
                Some(h) => Ok(h),
                None => Err(BlockchainError::from_source(Cause::Codec)),
            },
            None => Err(BlockchainError::new(BlockchainErrorKind::BlockHeaderDoesntExist)),
        }
    }

    /// The header at `height`, through the height index.
    pub fn header_at_height(&self, height: usize) -> (r: Result<BlockHeader, BlockchainError>)
        requires
            self.wf(),
        ensures
            match r {
                Ok(h) => header_at(self.store@, height as int) == Some(h@),
                Err(e) => header_at(self.store@, height as int).is_none() && e == header_at_error(
                    self.store@,
                    height as int,
                ),
            },
    {
        let hash = self.get_block_hash(height)?;
        self.get_block_header(hash.as_slice())
    }

    /// The samples of the most recent headers, newest first, that the
    /// difficulty averages read.
    pub fn window_samples(&self) -> (r: Result<Vec<WindowSample>, BlockchainError>)
        requires
            self.wf(),
        ensures
            match r {
                Ok(w) => window_readable(self.store@, self.info.height as int) && w@ == window(self.store@, self.info.height as int),
                Err(e) => exists|i: int|
                    0 <= i < window_len(self.info.height as int) && (#[trigger] header_at(
                        self.store@,
                        self.info.height - i,
                    )).is_none() && e == header_at_error(self.store@, self.info.height - i),
            },
    {
        let h = self.info.height;
        let n = if h < PREVIOUS_BLOCKS_TO_CONSIDER { h } else { PREVIOUS_BLOCKS_TO_CONSIDER };
        let mut out: Vec<WindowSample> = Vec::new();
        let mut i: usize = 0;
        while i < n
            invariant
                self.wf(),
                h == self.info.height,
                n as int == window_len(h as int),
                i <= n,
                out@.len() == i,
                forall|k: int| 0 <= k < i ==> #[trigger] header_at(self.store@, h - k).is_some(),
                forall|k: int| 0 <= k < i ==> (#[trigger] out@[k]) == sample_of(header_at(self.store@, h - k).unwrap()),
            decreases n - i,
        {
            let x = match self.header_at_height(h - i) {
                Ok(x) => x,
                Err(e) => {
                    assert(!header_at(self.store@, h - i).is_some());
                    return Err(e);
                },
            };
            out.push(WindowSample { timestamp: x.timestamp, difficulty_target: x.difficulty_target, entry_difficulty: x.entry_difficulty });
            i = i + 1;
        }
        assert(out@ =~= window(self.store@, h as int));
        Ok(out)
    }

    /// Sets the timestamp floor from the header `MEDIAN_TIMESTAMP_DEPTH`
    /// blocks below the top (never below the first block).
    fn update_median_timestamp(&mut self) -> (r: Result<(), BlockchainError>)
        requires
            old(self).wf(),
        ensures
            final(self).wf(),
            final(self).store == old(self).store,
            r is Ok ==> median_follows(old(self).info, final(self).info, old(self).store@, old(self).info.height as int),
            r is Ok ==> final(self).info == (BlockchainInfo { past_median_timestamp: final(self).info.past_median_timestamp, ..old(self).info }),
            r matches Err(e) ==> old(self).info.height >= 1 && header_at(
                old(self).store@,
                median_source(old(self).info.height as int),
            ).is_none() && e == header_at_error(old(self).store@, median_source(old(self).info.height as int)),
            r is Err ==> final(self).info == old(self).info,
    {
        if self.info.height < 1 {
            return Ok(());
        }
        let idx = if self.info.height < MEDIAN_TIMESTAMP_DEPTH + 1 { 1 } else { self.info.height - MEDIAN_TIMESTAMP_DEPTH };
        let x = self.header_at_height(idx)?;
        self.info.past_median_timestamp = x.timestamp;
        Ok(())
    }

    /// Recomputes the difficulty target and the entry-difficulty limits
    /// from the window of recent headers, from height two on.
    fn update_limits<F: Fn(Vec<WindowSample>) -> Limits>(&mut self, retarget: &F) -> (r: Result<(), BlockchainError>)
        requires
            old(self).wf(),
            forall|w: Vec<WindowSample>| #[trigger] call_requires(*retarget, (w,)),
        ensures
            final(self).wf(),
            final(self).store == old(self).store,
            r is Ok ==> limits_follow(*retarget, old(self).info, final(self).info, old(self).store@, old(self).info.height as int),
            r is Ok ==> final(self).info == (BlockchainInfo {
                difficulty: final(self).info.difficulty,
                entry_difficulty_multiplier: final(self).info.entry_difficulty_multiplier,
                max_allowed_entry_difficulty: final(self).info.max_allowed_entry_difficulty,
                ..old(self).info
            }),
            r is Err ==> old(self).info.height >= 2 && !window_readable(old(self).store@, old(self).info.height as int),
            r is Err ==> final(self).info == old(self).info,
    {
        if self.info.height < 2 {
            return Ok(());
        }
        let w = match self.window_samples() {
            Ok(w) => w,
            Err(e) => {
                proof {
                    let h = self.info.height as int;
                    let i = choose|i: int| 0 <= i < window_len(h) && (#[trigger] header_at(self.store@, h - i)).is_none();
                    assert(!header_at(self.store@, h - i).is_some());
                }
                return Err(e);
            },
        };
        let ghost wv = w;
        assert(call_requires(*retarget, (w,)));
        let l = retarget(w);
        self.info.difficulty = l.difficulty;
        self.info.entry_difficulty_multiplier = l.entry_difficulty_multiplier;
        self.info.max_allowed_entry_difficulty = l.max_allowed_entry_difficulty;
        assert(call_ensures(*retarget, (wv,), l));
        Ok(())
    }

    /// Whether the block recorded at height `h` is fully present: its
    /// height index entry is a 32-byte hash whose envelope is stored.
    pub open spec fn intact_at(&self, h: int) -> bool {
        &&& self.store@.contains_key(height_key(h))
        &&& self.store@[height_key(h)].len() == 32
        &&& self.store@.contains_key(block_key(self.store@[height_key(h)]))
    }

    /// Recovers from writes that an interrupted append left behind: while the
    /// top hash names no stored envelope, the top block is treated as absent
    /// and the height drops to the highest height whose block is intact (or
    /// to zero). The proof-of-work key, the timestamp floor and the
    /// difficulty limits are then recomputed for that height. Returns whether
    /// anything changed.
    pub fn recover<F: Fn(Vec<WindowSample>) -> Limits>(&mut self, retarget: &F) -> (r: Result<bool, BlockchainError>)
        requires
            old(self).wf(),
            forall|w: Vec<WindowSample>| #[trigger] call_requires(*retarget, (w,)),
        ensures
            final(self).wf(),
            final(self).store == old(self).store,
            old(self).info.height == 0 || old(self).store@.contains_key(block_key(old(self).info.top_block_hash@))
                ==> r == Ok::<bool, BlockchainError>(false) && *final(self) == *old(self),
            old(self).info.height > 0 && !old(self).store@.contains_key(block_key(old(self).info.top_block_hash@))
                ==> r == Ok::<bool, BlockchainError>(true) || (r is Err && final(self).info.height < old(self).info.height
                && recovery_read_fails(final(self).store@, final(self).info.height as int)),
            r == Ok::<bool, BlockchainError>(true) ==> {
                &&& final(self).info.height < old(self).info.height
                &&& forall|h: int| final(self).info.height < h < old(self).info.height ==> !#[trigger] final(self).intact_at(h)
                &&& final(self).info.height == 0 ==> final(self).info.top_block_hash@ == zero_key() && final(self).info.is_empty
                &&& final(self).info.height > 0 ==> final(self).intact_at(final(self).info.height as int)
                    && final(self).info.top_block_hash@ == final(self).store@[height_key(final(self).info.height as int)]
                &&& final(self).info.randomx_vm_key@ == epoch_key(final(self).store@, final(self).info.height as int)
                &&& median_follows(final(self).info, final(self).info, final(self).store@, final(self).info.height as int)
                &&& limits_follow(*retarget, final(self).info, final(self).info, final(self).store@, final(self).info.height as int)
            },
    {
        if self.info.height == 0 {
            return Ok(false);
        }
        let top_key = KeyType::make_key(KeyType::Block, self.info.top_block_hash.as_slice());
        if self.store.contains(top_key.as_slice()) {
            return Ok(false);
        }
        let ghost start = self.info.height;
        let mut h: usize = self.info.height - 1;
        let mut top = [0u8; 32];
        assert(top@ =~= zero_key());
        let mut found = false;
        while h > 0 && !found
            invariant
                self.wf(),
                h < start,
                start == self.info.height,
                forall|k: int| h < k < start ==> !#[trigger] self.intact_at(k),
                found ==> h > 0 && self.intact_at(h as int) && top@ == self.store@[height_key(h as int)],
                !found ==> top@ == zero_key(),
            decreases h + (if found { 0int } else { 1int }),
        {
            match self.get_block_hash(h) {
                Ok(v) => {
                    if v.len() == 32 {
                        let bk = KeyType::make_key(KeyType::Block, v.as_slice());
                        if self.store.contains(bk.as_slice()) {
                            top = read32(v.as_slice(), 0);
                            assert(v@.subrange(0, 32) =~= v@);
                            found = true;
                        }
                    }
                },
                Err(_) => {},
            }
            if !found {
                h = h - 1;
            }
        }
        let ghost scanned = *self;
        self.info.height = h;
        self.info.top_block_hash = top;
        if h == 0 {
            self.info.is_empty = true;
        }
        if h < RANDOMX_VM_KEY_LIFETIME {
            self.info.randomx_vm_key = [0u8; 32];
            assert(self.info.randomx_vm_key@ =~= zero_key());
        } else {
            let boundary = (h / RANDOMX_VM_KEY_LIFETIME) * RANDOMX_VM_KEY_LIFETIME;
            assert(boundary <= h) by (nonlinear_arith)
                requires
                    boundary == (h / 10000) * 10000,
            ;
            let key = self.get_block_hash(boundary)?;
            if key.len() != 32 {
                return Err(BlockchainError::from_source(Cause::Codec));
            }
            self.info.randomx_vm_key = read32(key.as_slice(), 0);
            assert(key@.subrange(0, 32) =~= key@);
        }
        self.update_median_timestamp()?;
        self.update_limits(retarget)?;
        assert forall|k: int| self.info.height < k < start implies !#[trigger] self.intact_at(k) by {
            assert(!scanned.intact_at(k));
        }
        Ok(true)
    }

    /// Runs the acceptance checks on `block`, in order, and on success
    /// appends it: the envelope, the height index entry and the header
    /// record are written, the timestamp floor and the difficulty limits are
    /// recomputed, and at an epoch boundary the proof-of-work key becomes the
    /// block's hash.
    ///
    /// `envelope` is the block's serialized envelope; `measures` holds the
    /// block's single-precision measures and its proof-of-work hash
    /// recomputed under the current key; `retarget` turns a window of recent
    /// headers into new difficulty limits. The writes made are returned in
    /// the order they were made.
    pub fn add_block<F: Fn(Vec<WindowSample>) -> Limits>(
        &mut self,
        block: &Block,
        envelope: Vec<u8>,
        measures: &Measures,
        retarget: &F,
    ) -> (r: Result<Vec<StoreWrite>, BlockchainError>)
        requires
            old(self).wf(),
            forall|w: Vec<WindowSample>| #[trigger] call_requires(*retarget, (w,)),
        ensures
            final(self).wf(),
            admission_error(old(self).info, old(self).store@, *block, envelope@.len() as int, *measures) matches Some(k)
                ==> r == Err::<Vec<StoreWrite>, BlockchainError>(BlockchainError::new_spec(k)) && *final(self) == *old(self),
            admission_error(old(self).info, old(self).store@, *block, envelope@.len() as int, *measures).is_none()
                ==> (signing_fault(block.entries_view(), old(self).store@) matches Some(k) ==> r == Err::<
                Vec<StoreWrite>,
                BlockchainError,
            >(BlockchainError::from_block_error_spec(BlockError::new_spec(k))) && *final(self) == *old(self)),
            admission_error(old(self).info, old(self).store@, *block, envelope@.len() as int, *measures).is_none()
                && signing_fault(block.entries_view(), old(self).store@).is_none() && !signature_accepted(
                *block,
                old(self).store@,
            ) ==> r == Err::<Vec<StoreWrite>, BlockchainError>(
                BlockchainError::new_spec(BlockchainErrorKind::InvalidSignature),
            ) && *final(self) == *old(self),
            admission_error(old(self).info, old(self).store@, *block, envelope@.len() as int, *measures).is_none()
                && signing_fault(block.entries_view(), old(self).store@).is_none() && signature_accepted(
                *block,
                old(self).store@,
            ) && measures.pow_hash@ != block.hash@ ==> r == Err::<Vec<StoreWrite>, BlockchainError>(
                BlockchainError::new_spec(BlockchainErrorKind::InvalidHash),
            ) && *final(self) == *old(self),
            r is Ok ==> appended(*old(self), *final(self), *block, envelope@, *measures, *retarget),
            consistent(*old(self), *retarget)
                && admission_error(old(self).info, old(self).store@, *block, envelope@.len() as int, *measures).is_none()
                && signing_fault(block.entries_view(), old(self).store@).is_none() && signature_accepted(
                *block,
                old(self).store@,
            ) && measures.pow_hash@ == block.hash@ ==> r is Ok,
            r matches Ok(ws) ==> ws@.map_values(|w: StoreWrite| w@) == seq![
                (block_key(block.hash@), Some(envelope@)),
                (height_key(old(self).info.height + 1), Some(block.hash@)),
                (header_key(block.hash@), Some(header_record(block.header@))),
            ],
    {
        let bk = KeyType::make_key(KeyType::Block, block.hash.as_slice());
        if self.store.contains(bk.as_slice()) {
            return Err(BlockchainError::new(BlockchainErrorKind::BlockAlreadyExists));
        }
        let header = &block.header;
        if header.height as u128 > self.info.height as u128 + 1 {
            return Err(BlockchainError::new(BlockchainErrorKind::SkippedBlock));
        }
        if (header.height as u128) < self.info.height as u128 + 1 {
            return Err(BlockchainError::new(BlockchainErrorKind::BlockNotAtTop));
        }
        if !bytes_eq(header.previous_hash.as_slice(), self.info.top_block_hash.as_slice()) {
            return Err(BlockchainError::new(BlockchainErrorKind::BlockPreviousHashWrong));
        }
        if !f32_eq(header.difficulty_target, self.info.difficulty) {
            return Err(BlockchainError::new(BlockchainErrorKind::BlockTargetDifficultyWrong));
        }
        if header.timestamp < self.info.past_median_timestamp {
            return Err(BlockchainError::new(BlockchainErrorKind::BlockTimestampTooEarly));
        }
        if header.timestamp as u128 > self.info.network_adjusted_time as u128 + FUTURE_TOLERANCE as u128 {
            return Err(BlockchainError::new(BlockchainErrorKind::BlockInFuture));
        }
        if f32_lt(measures.block_difficulty, self.info.difficulty) {
            return Err(BlockchainError::new(BlockchainErrorKind::BlockNotEnoughWork));
        }
        if !f32_eq(header.entry_difficulty, measures.entry_difficulty) {
            return Err(BlockchainError::new(BlockchainErrorKind::BlockEntryDifficultyWrong));
        }
        if !f32_eq(header.max_allowed_entry_difficulty, self.info.max_allowed_entry_difficulty) {
            return Err(BlockchainError::new(BlockchainErrorKind::BlockMaxAllowedEntryDifficultyWrong));
        }
        if !block.is_merkle_root_valid() {
            return Err(BlockchainError::new(BlockchainErrorKind::InvalidMerkleRoot));
        }
        if envelope.len() > self.info.block_size_cap {
            return Err(BlockchainError::new(BlockchainErrorKind::BlockTooBig));
        }
        match block.check_signature(&self.store) {
            Ok(()) => {},
            Err(e) => return Err(BlockchainError::from_block_error(e)),
        }
        if !bytes_eq(measures.pow_hash.as_slice(), block.hash.as_slice()) {
            return Err(BlockchainError::new(BlockchainErrorKind::InvalidHash));
        }
        let ghost old_info = self.info;
        let h = header.height;
        self.info.height = h;
        self.info.top_block_hash = block.hash;
        self.info.is_empty = false;
        let hk = height_key_of(h);
        let hdk = KeyType::make_key(KeyType::BlockHeader, block.hash.as_slice());
        let hash_bytes = copy_range(block.hash.as_slice(), 0, 32);
        let record = header.to_record();
        let mut writes: Vec<StoreWrite> = Vec::new();
        writes.push(StoreWrite::Put(copy_range(bk.as_slice(), 0, bk.len()), copy_range(envelope.as_slice(), 0, envelope.len())));
        writes.push(StoreWrite::Put(copy_range(hk.as_slice(), 0, hk.len()), copy_range(hash_bytes.as_slice(), 0, 32)));
        writes.push(StoreWrite::Put(copy_range(hdk.as_slice(), 0, hdk.len()), copy_range(record.as_slice(), 0, record.len())));
        proof {
            assert(block.hash@.subrange(0, 32) =~= block.hash@);
            assert(bk@.subrange(0, bk@.len() as int) =~= bk@);
            assert(hk@.subrange(0, hk@.len() as int) =~= hk@);
            assert(hdk@.subrange(0, hdk@.len() as int) =~= hdk@);
            assert(envelope@.subrange(0, envelope@.len() as int) =~= envelope@);
            assert(record@.subrange(0, record@.len() as int) =~= record@);
            assert(hash_bytes@.subrange(0, 32) =~= hash_bytes@);
        }
        self.store.put(bk, envelope);
        self.store.put(hk, hash_bytes);
        self.store.put(hdk, record);
        let ghost kv = self.store@;
        proof {
            if consistent(*old(self), *retarget) {
                lemma_append_headers(old(self).store@, *block, envelope@, old_info.height as int);
                assert(header_at(kv, median_source(h as int)).is_some());
                assert forall|i: int| 0 <= i < window_len(h as int) implies #[trigger] header_at(kv, h - i).is_some() by {
                    assert(1 <= h - i <= h);
                }
            }
        }
        self.update_median_timestamp()?;
        let ghost mid2 = self.info;
        self.update_limits(retarget)?;
        if h % RANDOMX_VM_KEY_LIFETIME == 0 {
            self.info.randomx_vm_key = self.info.top_block_hash;
        }
        proof {
            assert(writes@.map_values(|w: StoreWrite| w@) =~= seq![
                (block_key(block.hash@), Some(envelope@)),
                (height_key(old_info.height + 1), Some(block.hash@)),
                (header_key(block.hash@), Some(header_record(block.header@))),
            ]);
            assert(median_follows(old_info, self.info, kv, h as int));
            assert(limits_follow(*retarget, mid2, self.info, kv, h as int));
        }
        Ok(writes)
    }

    /// Removes the top block: its height index entry, its header record and
    /// its envelope are deleted, the height drops by one, the top hash becomes
    /// the removed header's previous hash, at an epoch boundary the
    /// proof-of-work key goes back to the previous epoch's key (the zero key
    /// for the first epoch), and the timestamp floor and difficulty limits
    /// are recomputed. The writes made are returned in order.
    pub fn del_top_block<F: Fn(Vec<WindowSample>) -> Limits>(&mut self, retarget: &F) -> (r: Result<
        Vec<StoreWrite>,
        BlockchainError,
    >)
        requires
            old(self).wf(),
            forall|w: Vec<WindowSample>| #[trigger] call_requires(*retarget, (w,)),
        ensures
            final(self).wf(),
            old(self).info.height == 0 ==> r == Err::<Vec<StoreWrite>, BlockchainError>(
                BlockchainError::new_spec(BlockchainErrorKind::CantFindHashFromHeight),
            ) && *final(self) == *old(self),
            old(self).info.height > 0 && !old(self).store@.contains_key(height_key(old(self).info.height as int))
                ==> r == Err::<Vec<StoreWrite>, BlockchainError>(
                BlockchainError::new_spec(BlockchainErrorKind::CantFindHashFromHeight),
            ) && *final(self) == *old(self),
            old(self).info.height > 0 && old(self).store@.contains_key(height_key(old(self).info.height as int))
                && !old(self).store@.contains_key(header_key(old(self).store@[height_key(old(self).info.height as int)]))
                ==> r == Err::<Vec<StoreWrite>, BlockchainError>(
                BlockchainError::new_spec(BlockchainErrorKind::BlockHeaderDoesntExist),
            ) && *final(self) == *old(self),
            r is Ok ==> rolled_back(*old(self), *final(self), *retarget),
            consistent(*old(self), *retarget) && old(self).info.height > 0 ==> r is Ok,
            r matches Ok(ws) ==> {
                let h = old(self).info.height as int;
                let hash = old(self).store@[height_key(h)];
                ws@.map_values(|w: StoreWrite| w@) == seq![
                    (height_key(h), None::<Seq<u8>>),
                    (header_key(hash), None::<Seq<u8>>),
                    (block_key(hash), None::<Seq<u8>>),
                ]
            },
    {
        let h = self.info.height;
        if h == 0 {
            return Err(BlockchainError::new(BlockchainErrorKind::CantFindHashFromHeight));
        }
        let block_hash = self.get_block_hash(h)?;
        proof {
            if consistent(*old(self), *retarget) {
                assert(header_at(self.store@, h as int).is_some());
            }
        }
        let removed = self.get_block_header(block_hash.as_slice())?;
        let hk = height_key_of(h);
        let hdk = KeyType::make_key(KeyType::BlockHeader, block_hash.as_slice());
        let bk = KeyType::make_key(KeyType::Block, block_hash.as_slice());
        let mut writes: Vec<StoreWrite> = Vec::new();
        writes.push(StoreWrite::Delete(copy_range(hk.as_slice(), 0, hk.len())));
        writes.push(StoreWrite::Delete(copy_range(hdk.as_slice(), 0, hdk.len())));
        writes.push(StoreWrite::Delete(copy_range(bk.as_slice(), 0, bk.len())));
        proof {
            assert(bk@.subrange(0, bk@.len() as int) =~= bk@);
            assert(hk@.subrange(0, hk@.len() as int) =~= hk@);
            assert(hdk@.subrange(0, hdk@.len() as int) =~= hdk@);
        }
        let ghost kv0 = self.store@;
        self.store.delete(hk.as_slice());
        self.store.delete(hdk.as_slice());
        self.store.delete(bk.as_slice());
        proof {
            if consistent(*old(self), *retarget) {
                lemma_rollback_headers(kv0, h as int);
                let x = kv0[height_key(h as int)];
                let l = RANDOMX_VM_KEY_LIFETIME as int;
                if h % RANDOMX_VM_KEY_LIFETIME == 0 && h > RANDOMX_VM_KEY_LIFETIME {
                    lemma_height_keys_distinct(h - l, h as int);
                    lemma_kinds_distinct(h - l, x);
                    assert(kv0.contains_key(height_key(h - l)));
                    assert(kv0[height_key(h - l)].len() == 32);
                }
                assert(header_at(self.store@, median_source(h - 1)).is_some() || h - 1 < 1);
                assert forall|i: int| 0 <= i < window_len(h - 1) implies #[trigger] header_at(self.store@, h - 1 - i).is_some() by {
                    assert(1 <= h - 1 - i <= h - 1);
                }
            }
        }
        self.info.top_block_hash = removed.previous_hash;
        self.info.height = h - 1;
        if h % RANDOMX_VM_KEY_LIFETIME == 0 {
            if h > RANDOMX_VM_KEY_LIFETIME {
                let earlier = self.get_block_hash(h - RANDOMX_VM_KEY_LIFETIME)?;
                if earlier.len() != 32 {
                    return Err(BlockchainError::from_source(Cause::Codec));
                }
                self.info.randomx_vm_key = read32(earlier.as_slice(), 0);
                assert(earlier@.subrange(0, 32) =~= earlier@);
            } else {
                self.info.randomx_vm_key = [0u8; 32];
                assert(self.info.randomx_vm_key@ =~= zero_key());
            }
        }
        let ghost kv = self.store@;
        self.update_median_timestamp()?;
        let ghost mid2 = self.info;
        self.update_limits(retarget)?;
        proof {
            assert(writes@.map_values(|w: StoreWrite| w@) =~= seq![
                (height_key(h as int), None::<Seq<u8>>),
                (header_key(block_hash@), None::<Seq<u8>>),
                (block_key(block_hash@), None::<Seq<u8>>),
            ]);
            assert(limits_follow(*retarget, mid2, self.info, kv, h - 1));
        }
        Ok(writes)
    }
}


/// The proof-of-work key that belongs at height `h`: the hash stored at the
/// last epoch boundary at or below `h`, or the zero key in the first epoch.
pub open spec fn epoch_key(kv: Map<Seq<u8>, Seq<u8>>, h: int) -> Seq<u8> {
    if h < RANDOMX_VM_KEY_LIFETIME as int {
        zero_key()
    } else {
        kv[height_key((h / (RANDOMX_VM_KEY_LIFETIME as int)) * (RANDOMX_VM_KEY_LIFETIME as int))]
    }
}

/// `retarget` gives the same limits for windows with the same samples.
pub open spec fn retarget_deterministic<F: Fn(Vec<WindowSample>) -> Limits>(retarget: F) -> bool {
    forall|w1: Vec<WindowSample>, w2: Vec<WindowSample>, l1: Limits, l2: Limits|
        #![trigger call_ensures(retarget, (w1,), l1), call_ensures(retarget, (w2,), l2)]
        w1@ == w2@ && call_ensures(retarget, (w1,), l1) && call_ensures(retarget, (w2,), l2) ==> l1 == l2
}

proof fn lemma_appended_lookups(kv: Map<Seq<u8>, Seq<u8>>, block: Block, envelope: Seq<u8>, h: int)
    requires
        block.header.signature@.len() == 96,
        block.header.height == h,
    ensures
        appended_store(kv, block, envelope, h).contains_key(height_key(h)),
        appended_store(kv, block, envelope, h)[height_key(h)] == block.hash@,
        appended_store(kv, block, envelope, h).contains_key(header_key(block.hash@)),
        parse_header_record(appended_store(kv, block, envelope, h)[header_key(block.hash@)]) == Some(block.header@),
        appended_store(kv, block, envelope, h).contains_key(block_key(block.hash@)),
{
    lemma_keys_distinct(KeyType::BlockHeight, spec_u64_to_le_bytes(h as u64), KeyType::BlockHeader, block.hash@);
    lemma_keys_distinct(KeyType::Block, block.hash@, KeyType::BlockHeader, block.hash@);
    lemma_keys_distinct(KeyType::Block, block.hash@, KeyType::BlockHeight, spec_u64_to_le_bytes(h as u64));
    lemma_header_record_round_trip(block.header@);
}

/// After a successful append at height `h`, the height index maps `h` to the
/// block's hash and the header stored under that hash reads back as the
/// block's header, whose height is `h`.
pub proof fn lemma_height_hash_duality<F: Fn(Vec<WindowSample>) -> Limits>(
    pre: Blockchain,
    post: Blockchain,
    block: Block,
    envelope: Seq<u8>,
    measures: Measures,
    retarget: F,
)
    requires
        appended(pre, post, block, envelope, measures, retarget),
    ensures
        post.store@.contains_key(height_key(post.info.height as int)),
        post.store@[height_key(post.info.height as int)] == block.hash@,
        post.store@.contains_key(header_key(block.hash@)),
        parse_header_record(post.store@[header_key(block.hash@)]) == Some(block.header@),
        block.header@.height == post.info.height,
{
    lemma_appended_lookups(pre.store@, block, envelope, pre.info.height + 1);
}

proof fn lemma_store_restored<F: Fn(Vec<WindowSample>) -> Limits>(
    pre: Blockchain,
    mid: Blockchain,
    post: Blockchain,
    block: Block,
    envelope: Seq<u8>,
    measures: Measures,
    retarget: F,
)
    requires
        appended(pre, mid, block, envelope, measures, retarget),
        rolled_back(mid, post, retarget),
        !pre.store@.contains_key(height_key(pre.info.height + 1)),
        !pre.store@.contains_key(header_key(block.hash@)),
    ensures
        mid.store@[height_key(mid.info.height as int)] == block.hash@,
        parse_header_record(mid.store@[header_key(block.hash@)]) == Some(block.header@),
        post.store@ == pre.store@,
{
    let h = pre.info.height + 1;
    lemma_appended_lookups(pre.store@, block, envelope, h);
    lemma_keys_distinct(KeyType::BlockHeight, spec_u64_to_le_bytes(h as u64), KeyType::BlockHeader, block.hash@);
    lemma_keys_distinct(KeyType::Block, block.hash@, KeyType::BlockHeader, block.hash@);
    lemma_keys_distinct(KeyType::Block, block.hash@, KeyType::BlockHeight, spec_u64_to_le_bytes(h as u64));
    assert(!pre.store@.contains_key(block_key(block.hash@)));
    assert(post.store@ =~= pre.store@);
}

/// A block is admitted against the proof-of-work hash of its header input
/// under the key in force before the append; that hash is the block's own,
/// the header stored for it reads back unchanged (so the same input is
/// recomputed from the store), and the key stays in force unless the append
/// itself opened a new epoch.
pub proof fn lemma_pow_rebinding<F: Fn(Vec<WindowSample>) -> Limits>(
    pre: Blockchain,
    post: Blockchain,
    block: Block,
    envelope: Seq<u8>,
    measures: Measures,
    retarget: F,
)
    requires
        appended(pre, post, block, envelope, measures, retarget),
    ensures
        measures.pow_hash@ == block.hash@,
        parse_header_record(post.store@[header_key(block.hash@)]) == Some(block.header@),
        post.info.height % RANDOMX_VM_KEY_LIFETIME != 0 ==> post.info.randomx_vm_key == pre.info.randomx_vm_key,
{
    lemma_appended_lookups(pre.store@, block, envelope, pre.info.height + 1);
}

/// Appending a block to a consistent chain of height two or more, and then
/// rolling the top block back, restores the chain info and
/// the store exactly, when the difficulty rule gives equal limits for equal
/// windows.
pub proof fn lemma_append_then_rollback<F: Fn(Vec<WindowSample>) -> Limits>(
    pre: Blockchain,
    mid: Blockchain,
    post: Blockchain,
    block: Block,
    envelope: Seq<u8>,
    measures: Measures,
    retarget: F,
)
    requires
        consistent(pre, retarget),
        retarget_deterministic(retarget),
        appended(pre, mid, block, envelope, measures, retarget),
        rolled_back(mid, post, retarget),
        pre.info.height >= 2,
    ensures
        post.info@ == pre.info@,
        post.store@ == pre.store@,
{
    lemma_fresh_records(pre, mid, block, envelope, measures, retarget);
    lemma_store_restored(pre, mid, post, block, envelope, measures, retarget);
    let h = pre.info.height as int;
    let big_h = h + 1;
    let l = RANDOMX_VM_KEY_LIFETIME as int;
    let w1 = choose|w: Vec<WindowSample>, x: Limits|
        #![trigger call_ensures(retarget, (w,), x)]
        {
            &&& w@ == window(pre.store@, h)
            &&& call_ensures(retarget, (w,), x)
            &&& pre.info.difficulty == x.difficulty
            &&& pre.info.entry_difficulty_multiplier == x.entry_difficulty_multiplier
            &&& pre.info.max_allowed_entry_difficulty == x.max_allowed_entry_difficulty
        };
    let w2 = choose|w: Vec<WindowSample>, x: Limits|
        #![trigger call_ensures(retarget, (w,), x)]
        {
            &&& w@ == window(post.store@, h)
            &&& call_ensures(retarget, (w,), x)
            &&& post.info.difficulty == x.difficulty
            &&& post.info.entry_difficulty_multiplier == x.entry_difficulty_multiplier
            &&& post.info.max_allowed_entry_difficulty == x.max_allowed_entry_difficulty
        };
    assert(w1.1 == w2.1);
    if big_h % l == 0 {
        if big_h > l {
            assert((h / l) * l == big_h - l) by (nonlinear_arith)
                requires
                    big_h % l == 0,
                    h == big_h - 1,
                    l == 10000,
                    big_h > l,
            ;
        } else {
            assert(h < l);
        }
    }
    assert(post.info@ =~= pre.info@);
}

/// The proof-of-work key rotates with the epochs: appending the block at a
/// multiple of the epoch length makes its hash the key, and rolling that
/// block back restores the key of the previous epoch (the zero key for the
/// first); on a consistent chain the key is always the one the store gives.
pub proof fn lemma_epoch_rotation<F: Fn(Vec<WindowSample>) -> Limits>(
    pre: Blockchain,
    mid: Blockchain,
    post: Blockchain,
    block: Block,
    envelope: Seq<u8>,
    measures: Measures,
    retarget: F,
)
    requires
        consistent(pre, retarget),
        appended(pre, mid, block, envelope, measures, retarget),
        rolled_back(mid, post, retarget),
    ensures
        mid.info.height % RANDOMX_VM_KEY_LIFETIME == 0 ==> mid.info.randomx_vm_key == block.hash,
        mid.info.randomx_vm_key@ == epoch_key(mid.store@, mid.info.height as int),
        post.info.randomx_vm_key@ == pre.info.randomx_vm_key@,
{
    lemma_fresh_records(pre, mid, block, envelope, measures, retarget);
    lemma_store_restored(pre, mid, post, block, envelope, measures, retarget);
    let h = pre.info.height as int;
    let big_h = h + 1;
    let l = RANDOMX_VM_KEY_LIFETIME as int;
    lemma_appended_lookups(pre.store@, block, envelope, big_h);
    if big_h % l == 0 {
        assert((big_h / l) * l == big_h) by (nonlinear_arith)
            requires
                big_h % l == 0,
                l == 10000,
        ;
        if big_h > l {
            assert((h / l) * l == big_h - l) by (nonlinear_arith)
                requires
                    big_h % l == 0,
                    h == big_h - 1,
                    l == 10000,
                    big_h > l,
            ;
        } else {
            assert(h < l);
        }
    } else {
        assert((h / l) * l == (big_h / l) * l) by (nonlinear_arith)
            requires
                big_h % l != 0,
                h == big_h - 1,
                l == 10000,
                h >= 0,
        ;
        if h >= l {
            let k = (h / l) * l;
            assert(0 < k <= h) by (nonlinear_arith)
                requires
                    k == (h / l) * l,
                    h >= l,
                    l == 10000,
            ;
            let a = spec_u64_to_le_bytes(k as u64);
            let b = spec_u64_to_le_bytes(big_h as u64);
            vstd::bytes::lemma_auto_spec_u64_to_from_le_bytes();
            assert(a != b) by {
                if a == b {
                    assert(vstd::bytes::spec_u64_from_le_bytes(a) == vstd::bytes::spec_u64_from_le_bytes(b));
                }
            }
            lemma_keys_distinct(KeyType::BlockHeight, a, KeyType::BlockHeight, b);
            lemma_keys_distinct(KeyType::BlockHeight, a, KeyType::BlockHeader, block.hash@);
            lemma_keys_distinct(KeyType::BlockHeight, a, KeyType::Block, block.hash@);
        } else {
            assert(big_h < l);
        }
    }
}


/// The sum, over consecutive samples of a newest-first window, of the newer
/// timestamp minus the older one.
pub open spec fn block_time_sum(w: Seq<WindowSample>) -> int
    decreases w.len(),
{
    if w.len() < 2 {
        0
    } else {
        block_time_sum(w.drop_last()) + (w[w.len() - 2].timestamp - w[w.len() - 1].timestamp)
    }
}

/// The consecutive differences of a window add up to its newest timestamp
/// minus its oldest.
pub proof fn lemma_block_time_telescopes(w: Seq<WindowSample>)
    requires
        w.len() >= 1,
    ensures
        block_time_sum(w) == w[0].timestamp - w[w.len() - 1].timestamp,
    decreases w.len(),
{
    if w.len() >= 2 {
        let init = w.drop_last();
        lemma_block_time_telescopes(init);
        assert(init[0] == w[0]);
        assert(init[init.len() - 1] == w[w.len() - 2]);
    }
}

/// The summed block time of a window (see `block_time_sum`), the numerator
/// of the average block time.
pub fn total_block_time(w: &Vec<WindowSample>) -> (r: i128)
    ensures
        r == block_time_sum(w@),
{
    let n = w.len();
    if n < 2 {
        return 0;
    }
    let mut total: i128 = 0;
    let mut i: usize = 1;
    while i < n
        invariant
            n == w@.len(),
            1 <= i <= n,
            total == block_time_sum(w@.subrange(0, i as int)),
            total == w@[0].timestamp - w@[i - 1].timestamp,
        decreases n - i,
    {
        proof {
            let s = w@.subrange(0, i + 1);
            assert(s.drop_last() =~= w@.subrange(0, i as int));
            lemma_block_time_telescopes(s);
        }
        total = total + (w[i - 1].timestamp as i128 - w[i].timestamp as i128);
        i = i + 1;
    }
    assert(w@.subrange(0, n as int) =~= w@);
    total
}


proof fn lemma_height_keys_distinct(a: int, b: int)
    requires
        0 <= a <= u64::MAX,
        0 <= b <= u64::MAX,
        a != b,
    ensures
        height_key(a) != height_key(b),
{
    let x = spec_u64_to_le_bytes(a as u64);
    let y = spec_u64_to_le_bytes(b as u64);
    vstd::bytes::lemma_auto_spec_u64_to_from_le_bytes();
    assert(x != y) by {
        if x == y {
            assert(vstd::bytes::spec_u64_from_le_bytes(x) == vstd::bytes::spec_u64_from_le_bytes(y));
        }
    }
    lemma_keys_distinct(KeyType::BlockHeight, x, KeyType::BlockHeight, y);
}

proof fn lemma_kinds_distinct(h: int, x: Seq<u8>)
    ensures
        height_key(h) != header_key(x),
        height_key(h) != block_key(x),
        header_key(x) != block_key(x),
{
    lemma_keys_distinct(KeyType::BlockHeight, spec_u64_to_le_bytes(h as u64), KeyType::BlockHeader, x);
    lemma_keys_distinct(KeyType::BlockHeight, spec_u64_to_le_bytes(h as u64), KeyType::Block, x);
    lemma_keys_distinct(KeyType::BlockHeader, x, KeyType::Block, x);
}

/// The header of every height from one to `h` can be read.
pub open spec fn headers_readable(kv: Map<Seq<u8>, Seq<u8>>, h: int) -> bool {
    forall|k: int| 1 <= k <= h ==> (#[trigger] header_at(kv, k)).is_some()
}

/// Heights from one to `h` hold distinct 32-byte hashes.
pub open spec fn hashes_distinct(kv: Map<Seq<u8>, Seq<u8>>, h: int) -> bool {
    &&& forall|j: int, k: int| 1 <= j < k <= h ==> #[trigger] kv[height_key(j)] != #[trigger] kv[height_key(k)]
    &&& forall|k: int| 1 <= k <= h ==> (#[trigger] kv[height_key(k)]).len() == 32
}

proof fn lemma_append_headers(kv: Map<Seq<u8>, Seq<u8>>, block: Block, envelope: Seq<u8>, h: int)
    requires
        0 <= h,
        h + 1 <= u64::MAX,
        forall|k: int| 1 <= k <= h ==> #[trigger] kv.contains_key(height_key(k)),
        forall|x: Seq<u8>| #[trigger] kv.contains_key(header_key(x)) ==> kv.contains_key(block_key(x)),
        headers_readable(kv, h),
        hashes_distinct(kv, h),
        !kv.contains_key(block_key(block.hash@)),
        block.header.height == h + 1,
        block.header.signature@.len() == 96,
    ensures
        headers_readable(appended_store(kv, block, envelope, h + 1), h + 1),
        hashes_distinct(appended_store(kv, block, envelope, h + 1), h + 1),
{
    let kv2 = appended_store(kv, block, envelope, h + 1);
    let y = block.hash@;
    lemma_appended_lookups(kv, block, envelope, h + 1);
    assert forall|k: int| 1 <= k <= h implies kv2[height_key(k)] == kv[height_key(k)] && kv[height_key(k)] != y by {
        lemma_height_keys_distinct(k, h + 1);
        lemma_kinds_distinct(k, y);
        let x = kv[height_key(k)];
        assert(header_at(kv, k).is_some());
        assert(kv.contains_key(header_key(x)));
    }
    assert forall|k: int| 1 <= k <= h + 1 implies (#[trigger] header_at(kv2, k)).is_some() by {
        if k <= h {
            let x = kv[height_key(k)];
            assert(header_at(kv, k).is_some());
            lemma_keys_distinct(KeyType::BlockHeader, x, KeyType::BlockHeader, y);
            lemma_kinds_distinct(h + 1, x);
            lemma_keys_distinct(KeyType::BlockHeader, x, KeyType::Block, y);
            lemma_height_keys_distinct(k, h + 1);
            lemma_kinds_distinct(k, y);
        }
    }
    assert forall|j: int, k: int| 1 <= j < k <= h + 1 implies #[trigger] kv2[height_key(j)] != #[trigger] kv2[height_key(k)] by {
        if k <= h {
            assert(kv[height_key(j)] != kv[height_key(k)]);
        }
    }
    assert forall|k: int| 1 <= k <= h + 1 implies (#[trigger] kv2[height_key(k)]).len() == 32 by {
        if k <= h {
            assert(kv[height_key(k)].len() == 32);
        }
    }
}

proof fn lemma_rollback_headers(kv: Map<Seq<u8>, Seq<u8>>, big_h: int)
    requires
        1 <= big_h <= u64::MAX,
        forall|k: int| 1 <= k <= big_h ==> #[trigger] kv.contains_key(height_key(k)),
        headers_readable(kv, big_h),
        hashes_distinct(kv, big_h),
    ensures
        headers_readable(truncated_store(kv, kv[height_key(big_h)], big_h), big_h - 1),
        hashes_distinct(truncated_store(kv, kv[height_key(big_h)], big_h), big_h - 1),
{
    let x = kv[height_key(big_h)];
    let kv2 = truncated_store(kv, x, big_h);
    assert forall|k: int| 1 <= k < big_h implies kv2[height_key(k)] == kv[height_key(k)] && kv[height_key(k)] != x by {
        lemma_height_keys_distinct(k, big_h);
        lemma_kinds_distinct(k, x);
        assert(kv[height_key(k)] != kv[height_key(big_h)]);
    }
    assert forall|k: int| 1 <= k <= big_h - 1 implies (#[trigger] header_at(kv2, k)).is_some() by {
        let y = kv[height_key(k)];
        assert(header_at(kv, k).is_some());
        lemma_keys_distinct(KeyType::BlockHeader, y, KeyType::BlockHeader, x);
        lemma_kinds_distinct(big_h, y);
        lemma_keys_distinct(KeyType::BlockHeader, y, KeyType::Block, x);
        lemma_height_keys_distinct(k, big_h);
        lemma_kinds_distinct(k, x);
    }
    assert forall|j: int, k: int| 1 <= j < k <= big_h - 1 implies #[trigger] kv2[height_key(j)] != #[trigger] kv2[height_key(k)] by {
        assert(kv[height_key(j)] != kv[height_key(k)]);
    }
    assert forall|k: int| 1 <= k <= big_h - 1 implies (#[trigger] kv2[height_key(k)]).len() == 32 by {
        assert(kv[height_key(k)].len() == 32);
    }
}

/// The state that appends and rollbacks keep, given one difficulty rule: the
/// height index covers exactly the heights up to the top, with a readable
/// header and a distinct hash at each, every stored header has its stored
/// block, a chain with blocks is not marked empty, and the
/// proof-of-work key, the timestamp floor and the difficulty limits are those
/// that the store gives at the top height.
pub open spec fn consistent<F: Fn(Vec<WindowSample>) -> Limits>(c: Blockchain, retarget: F) -> bool {
    &&& c.store.wf()
    &&& c.info.height > 0 ==> !c.info.is_empty
    &&& forall|k: int| 1 <= k <= c.info.height ==> #[trigger] c.store@.contains_key(height_key(k))
    &&& forall|k: int| c.info.height < k <= u64::MAX ==> !#[trigger] c.store@.contains_key(height_key(k))
    &&& forall|x: Seq<u8>| #[trigger] c.store@.contains_key(header_key(x)) ==> c.store@.contains_key(block_key(x))
    &&& headers_readable(c.store@, c.info.height as int)
    &&& hashes_distinct(c.store@, c.info.height as int)
    &&& c.info.randomx_vm_key@ == epoch_key(c.store@, c.info.height as int)
    &&& median_follows(c.info, c.info, c.store@, c.info.height as int)
    &&& limits_follow(retarget, c.info, c.info, c.store@, c.info.height as int)
}

proof fn lemma_fresh_records<F: Fn(Vec<WindowSample>) -> Limits>(
    pre: Blockchain,
    post: Blockchain,
    block: Block,
    envelope: Seq<u8>,
    measures: Measures,
    retarget: F,
)
    requires
        consistent(pre, retarget),
        appended(pre, post, block, envelope, measures, retarget),
    ensures
        !pre.store@.contains_key(height_key(pre.info.height + 1)),
        !pre.store@.contains_key(header_key(block.hash@)),
{
    assert(!pre.store@.contains_key(block_key(block.hash@)));
}

/// A new chain is consistent.
pub proof fn lemma_new_chain_consistent<F: Fn(Vec<WindowSample>) -> Limits>(c: Blockchain, retarget: F, t: u64)
    requires
        c.store.wf(),
        c.store@ == Map::<Seq<u8>, Seq<u8>>::empty(),
        c.info@ == default_info(t),
    ensures
        consistent(c, retarget),
{
}

/// A successful append keeps the chain consistent.
pub proof fn lemma_append_keeps_consistency<F: Fn(Vec<WindowSample>) -> Limits>(
    pre: Blockchain,
    post: Blockchain,
    block: Block,
    envelope: Seq<u8>,
    measures: Measures,
    retarget: F,
)
    requires
        consistent(pre, retarget),
        appended(pre, post, block, envelope, measures, retarget),
        post.store.wf(),
    ensures
        consistent(post, retarget),
{
    let h = pre.info.height as int;
    let big_h = h + 1;
    let l = RANDOMX_VM_KEY_LIFETIME as int;
    let kv = pre.store@;
    let kv2 = post.store@;
    let x = block.hash@;
    lemma_kinds_distinct(big_h, x);
    lemma_append_headers(kv, block, envelope, h);
    assert forall|k: int| 1 <= k <= post.info.height implies #[trigger] kv2.contains_key(height_key(k)) by {
        if k < big_h {
            lemma_height_keys_distinct(k, big_h);
            lemma_kinds_distinct(k, x);
        }
    }
    assert forall|k: int| post.info.height < k <= u64::MAX implies !#[trigger] kv2.contains_key(height_key(k)) by {
        lemma_height_keys_distinct(k, big_h);
        lemma_kinds_distinct(k, x);
    }
    assert forall|y: Seq<u8>| #[trigger] kv2.contains_key(header_key(y)) implies kv2.contains_key(block_key(y)) by {
        if y != x {
            lemma_keys_distinct(KeyType::BlockHeader, y, KeyType::BlockHeader, x);
            lemma_kinds_distinct(big_h, y);
            lemma_keys_distinct(KeyType::BlockHeader, y, KeyType::Block, x);
            assert(kv.contains_key(header_key(y)));
            lemma_keys_distinct(KeyType::Block, y, KeyType::Block, x);
        }
    }
    if big_h % l == 0 {
        assert((big_h / l) * l == big_h) by (nonlinear_arith)
            requires
                big_h % l == 0,
                l == 10000,
        ;
    } else {
        assert((h / l) * l == (big_h / l) * l) by (nonlinear_arith)
            requires
                big_h % l != 0,
                h == big_h - 1,
                l == 10000,
                h >= 0,
        ;
        if h >= l {
            let k = (h / l) * l;
            assert(0 < k <= h) by (nonlinear_arith)
                requires
                    k == (h / l) * l,
                    h >= l,
                    l == 10000,
            ;
            lemma_height_keys_distinct(k, big_h);
            lemma_kinds_distinct(k, x);
        } else {
            assert(big_h < l);
        }
    }
}

/// A successful rollback keeps the chain consistent.
pub proof fn lemma_rollback_keeps_consistency<F: Fn(Vec<WindowSample>) -> Limits>(
    pre: Blockchain,
    post: Blockchain,
    retarget: F,
)
    requires
        consistent(pre, retarget),
        rolled_back(pre, post, retarget),
        post.store.wf(),
    ensures
        consistent(post, retarget),
{
    let big_h = pre.info.height as int;
    let h = big_h - 1;
    let l = RANDOMX_VM_KEY_LIFETIME as int;
    let kv = pre.store@;
    let kv2 = post.store@;
    let x = kv[height_key(big_h)];
    lemma_kinds_distinct(big_h, x);
    lemma_rollback_headers(kv, big_h);
    assert forall|k: int| 1 <= k <= post.info.height implies #[trigger] kv2.contains_key(height_key(k)) by {
        lemma_height_keys_distinct(k, big_h);
        lemma_kinds_distinct(k, x);
        assert(kv.contains_key(height_key(k)));
    }
    assert forall|k: int| post.info.height < k <= u64::MAX implies !#[trigger] kv2.contains_key(height_key(k)) by {
        if k > big_h {
            assert(!kv.contains_key(height_key(k)));
        }
    }
    assert forall|y: Seq<u8>| #[trigger] kv2.contains_key(header_key(y)) implies kv2.contains_key(block_key(y)) by {
        lemma_keys_distinct(KeyType::BlockHeader, y, KeyType::BlockHeader, x);
        assert(y != x);
        assert(kv.contains_key(header_key(y)));
        lemma_keys_distinct(KeyType::Block, y, KeyType::Block, x);
        lemma_kinds_distinct(big_h, y);
        lemma_keys_distinct(KeyType::Block, y, KeyType::BlockHeader, x);
    }
    if big_h % l == 0 {
        if big_h > l {
            assert((h / l) * l == big_h - l) by (nonlinear_arith)
                requires
                    big_h % l == 0,
                    h == big_h - 1,
                    l == 10000,
                    big_h > l,
            ;
        } else {
            assert(h < l);
        }
    } else {
        assert((h / l) * l == (big_h / l) * l) by (nonlinear_arith)
            requires
                big_h % l != 0,
                h == big_h - 1,
                l == 10000,
                h >= 0,
        ;
        if h >= l {
            let k = (h / l) * l;
            assert(0 < k <= h) by (nonlinear_arith)
                requires
                    k == (h / l) * l,
                    h >= l,
                    l == 10000,
            ;
            lemma_height_keys_distinct(k, big_h);
            lemma_kinds_distinct(k, x);
            assert(kv.contains_key(height_key(k)));
        } else {
            assert(big_h <= l);
        }
    }
}

} // verus!
