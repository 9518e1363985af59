//! Key-to-slot mapping: CRC16/XMODEM over the key, or over its hash tag.
use vstd::prelude::*;

verus! {

/// Number of hash slots in a cluster.
pub const REDIS_CLUSTER_SLOTS: u16 = 16384;

/// One shift-and-reduce step of CRC16/XMODEM (polynomial 0x1021).
pub open spec fn crc16_bit_step(crc: u16) -> u16 {
    if crc & 0x8000u16 != 0 {
        (crc << 1u16) ^ 0x1021u16
    } else {
        crc << 1u16
    }
}

/// `n` consecutive bit steps applied to `crc`.
pub open spec fn crc16_bit_steps(crc: u16, n: nat) -> u16
    decreases n,
{
    if n == 0 {
        crc
    } else {
        crc16_bit_step(crc16_bit_steps(crc, (n - 1) as nat))
    }
}

/// Feed one byte into the CRC register.
pub open spec fn crc16_feed(crc: u16, byte: u8) -> u16 {
    crc16_bit_steps(crc ^ ((byte as u16) << 8u16), 8)
}

/// CRC16/XMODEM of a byte sequence: the register starts at zero and
/// every byte is fed in order.
pub open spec fn crc16_spec(data: Seq<u8>) -> u16
    decreases data.len(),
{
    if data.len() == 0 {
        0
    } else {
        crc16_feed(crc16_spec(data.drop_last()), data.last())
    }
}

/// The smallest index `i >= from` with `s[i] == b`, if any.
pub open spec fn index_of_from(s: Seq<u8>, b: u8, from: int) -> Option<int>
    decreases s.len() - from,
{
    if from < 0 || from >= s.len() {
        None
    } else if s[from] == b {
        Some(from)
    } else {
        index_of_from(s, b, from + 1)
    }
}

/// The part of a key that is hashed: the bytes between the first `{` and the
/// first `}` after it, when that part is non-empty; otherwise the whole key.
pub open spec fn hash_tag_spec(key: Seq<u8>) -> Seq<u8> {
    match index_of_from(key, 123u8, 0) {
        Some(start) => match index_of_from(key, 125u8, start + 1) {
            Some(end) => if end > start + 1 {
                key.subrange(start + 1, end)
            } else {
                key
            },
            None => key,
        },
        None => key,
    }
}

/// The slot of a key.
pub open spec fn key_slot_spec(key: Seq<u8>) -> u16 {
    (crc16_spec(hash_tag_spec(key)) % 16384) as u16
}

proof fn lemma_index_of_from_found(s: Seq<u8>, b: u8, from: int, i: int)
    requires
        0 <= from <= i < s.len(),
        s[i] == b,
        forall|j: int| from <= j < i ==> s[j] != b,
    ensures
        index_of_from(s, b, from) == Some(i),
    decreases i - from,
{
    if from < i {
        lemma_index_of_from_found(s, b, from + 1, i);
    }
}

proof fn lemma_index_of_from_absent(s: Seq<u8>, b: u8, from: int)
    requires
        0 <= from,
        forall|j: int| from <= j < s.len() ==> s[j] != b,
    ensures
        index_of_from(s, b, from) is None,
    decreases s.len() - from,
{
    if from < s.len() {
        lemma_index_of_from_absent(s, b, from + 1);
    }
}

/// Finds the first occurrence of `b` in `key` at or after `from`.
fn find_byte_from(key: &[u8], b: u8, from: usize) -> (r: Option<usize>)
    requires
        from <= key@.len(),
    ensures
        match r {
            Some(i) => index_of_from(key@, b, from as int) == Some(i as int) && i < key@.len(),
            None => index_of_from(key@, b, from as int) is None,
        },
{
    let mut i = from;
    while i < key.len()
        invariant
            from <= i <= key@.len(),
            forall|j: int| from <= j < i ==> key@[j] != b,
        decreases key@.len() - i,
    {
        if key[i] == b {
            proof {
                lemma_index_of_from_found(key@, b, from as int, i as int);
            }
            return Some(i);
        }
        i = i + 1;
    }
    proof {
        lemma_index_of_from_absent(key@, b, from as int);
    }
    None
}

/// Computes CRC16/XMODEM of `data`.
pub fn crc16_xmodem(data: &[u8]) -> (crc: u16)
    ensures
        crc == crc16_spec(data@),
{
    let mut crc: u16 = 0;
    let mut i: usize = 0;
    proof {
        assert(data@.subrange(0, 0) =~= Seq::<u8>::empty());
    }
    while i < data.len()
        invariant
            i <= data@.len(),
            crc == crc16_spec(data@.subrange(0, i as int)),
        decreases data@.len() - i,
    {
        let byte = data[i];
        let start: u16 = crc ^ ((byte as u16) << 8u16);
        let mut c: u16 = start;
        let mut j: u32 = 0;
        while j < 8
            invariant
                j <= 8,
                c == crc16_bit_steps(start, j as nat),
            decreases 8 - j,
        {
            if c & 0x8000u16 != 0 {
                c = (c << 1u16) ^ 0x1021u16;
            } else {
                c = c << 1u16;
            }
            j = j + 1;
        }
        proof {
            assert(data@.subrange(0, i + 1).drop_last() =~= data@.subrange(0, i as int));
        }
        crc = c;
        i = i + 1;
    }
    proof {
        assert(data@.subrange(0, data@.len() as int) =~= data@);
    }
    crc
}

/// Returns the part of `key` that decides its slot (see `hash_tag_spec`).
pub fn get_hash_slot_key(key: &[u8]) -> (r: &[u8])
    ensures
        r@ == hash_tag_spec(key@),
{
    let len = key.len();
    match find_byte_from(key, 123u8, 0) {
        Some(start) => match find_byte_from(key, 125u8, start + 1) {
            Some(end) => {
                if end > start + 1 {
                    vstd::slice::slice_subrange(key, start + 1, end)
                } else {
                    key
                }
            },
            None => key,
        },
        None => key,
    }
}

/// Computes the slot (0..16384) of a key.
pub fn key_to_slot(key: &[u8]) -> (slot: u16)
    ensures
        slot == key_slot_spec(key@),
        slot < 16384,
{
    let crc = crc16_xmodem(get_hash_slot_key(key));
    crc % REDIS_CLUSTER_SLOTS
}

/// Slot router: maps keys to cluster slots.
pub struct SlotRouter {}

impl SlotRouter {
    /// Creates a router.
    pub fn new() -> (r: Self) {
        SlotRouter {  }
    }

    /// Computes the slot of a key, honouring hash tags.
    pub fn key_to_slot(&self, key: &[u8]) -> (slot: u16)
        ensures
            slot == key_slot_spec(key@),
            slot < 16384,
    {
        key_to_slot(key)
    }
}

impl Default for SlotRouter {
    fn default() -> (r: Self) {
        SlotRouter::new()
    }
}

/// Every key maps to a slot below 16384.
pub proof fn law_slot_in_range(key: Seq<u8>)
    ensures
        key_slot_spec(key) < 16384,
{
}

/// A key of the form `{tag}rest`, where `tag` is non-empty and holds no `}`,
/// hashes exactly its tag: so all keys sharing a tag share a slot.
pub proof fn law_hash_tag_decides_slot(tag: Seq<u8>, rest: Seq<u8>)
    requires
        tag.len() > 0,
        !tag.contains(125u8),
    ensures
        key_slot_spec(seq![123u8] + tag + seq![125u8] + rest) == (crc16_spec(tag) % 16384) as u16,
{
    let key = seq![123u8] + tag + seq![125u8] + rest;
    lemma_index_of_from_found(key, 123u8, 0, 0);
    let end: int = tag.len() as int + 1;
    assert(key[end] == 125u8);
    assert forall|j: int| 1 <= j < end implies key[j] != 125u8 by {
        assert(key[j] == tag[j - 1]);
        if key[j] == 125u8 {
            assert(tag.contains(125u8));
        }
    }
    lemma_index_of_from_found(key, 125u8, 1, end);
    assert(key.subrange(1, end) =~= tag);
}

/// Two keys with the same non-empty, `}`-free hash tag land in the same slot.
pub proof fn law_same_hash_tag_same_slot(tag: Seq<u8>, rest1: Seq<u8>, rest2: Seq<u8>)
    requires
        tag.len() > 0,
        !tag.contains(125u8),
    ensures
        key_slot_spec(seq![123u8] + tag + seq![125u8] + rest1) == key_slot_spec(
            seq![123u8] + tag + seq![125u8] + rest2,
        ),
{
    law_hash_tag_decides_slot(tag, rest1);
    law_hash_tag_decides_slot(tag, rest2);
}

/// A key without `{` is hashed whole.
pub proof fn law_untagged_key_hashes_whole(key: Seq<u8>)
    requires
        !key.contains(123u8),
    ensures
        key_slot_spec(key) == (crc16_spec(key) % 16384) as u16,
{
    assert forall|j: int| 0 <= j < key.len() implies key[j] != 123u8 by {
        if key[j] == 123u8 {
            assert(key.contains(123u8));
        }
    }
    lemma_index_of_from_absent(key, 123u8, 0);
}

} // verus!
