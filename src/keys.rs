//! Typed key prefixes: the first byte of every store key names the kind of record.
use vstd::prelude::*;

verus! {

/// The kinds of records that live in the chain store.
#[derive(Clone, Copy, Debug, PartialEq, Eq, Structural)]
pub enum KeyType {
    Block,
    BlockHeader,
    BlockHeight,
    PublicKey,
}

/// The tag byte of each kind of record.
pub open spec fn tag_of(kind: KeyType) -> u8 {
    match kind {
        KeyType::Block => 0x01,
        KeyType::BlockHeader => 0x02,
        KeyType::BlockHeight => 0x03,
        KeyType::PublicKey => 0x04,
    }
}

/// The full store key of a record: its tag followed by its natural key.
pub open spec fn key_of(kind: KeyType, natural: Seq<u8>) -> Seq<u8> {
    seq![tag_of(kind)] + natural
}

impl KeyType {
    /// The tag byte of this kind of record.
    pub fn value(&self) -> (r: u8)
        ensures
            r == tag_of(*self),
    {
        match self {
            KeyType::Block => 0x01,
            KeyType::BlockHeader => 0x02,
            KeyType::BlockHeight => 0x03,
            KeyType::PublicKey => 0x04,
        }
    }

    /// Prefixes `key` with the tag byte of `key_type`.
    pub fn make_key(key_type: KeyType, key: &[u8]) -> (r: Vec<u8>)
        ensures
            r@ == key_of(key_type, key@),
    {
        let mut out: Vec<u8> = Vec::new();
        out.push(key_type.value());
        let mut i: usize = 0;
        while i < key.len()
            invariant
                i <= key@.len(),
                out@ == seq![tag_of(key_type)] + key@.subrange(0, i as int),
            decreases key@.len() - i,
        {
            out.push(key[i]);
            i = i + 1;
            assert(key@.subrange(0, i as int) == key@.subrange(0, i - 1) + seq![key@[i - 1]]);
        }
        assert(key@.subrange(0, key@.len() as int) == key@);
        out
    }
}

/// Distinct kinds, or distinct natural keys, give distinct store keys.
pub proof fn lemma_keys_distinct(a: KeyType, x: Seq<u8>, b: KeyType, y: Seq<u8>)
    requires
        a != b || x != y,
    ensures
        key_of(a, x) != key_of(b, y),
{
    if key_of(a, x) == key_of(b, y) {
        assert(key_of(a, x)[0] == key_of(b, y)[0]);
        assert(x == key_of(a, x).subrange(1, key_of(a, x).len() as int));
        assert(y == key_of(b, y).subrange(1, key_of(b, y).len() as int));
    }
}

} // verus!
