//! The key-value store behind the chain state, held in memory: heads,
//! headers by hash, the input positions of each block, and the index from
//! commitments to MMR positions. A batch is a working copy of all of it
//! that is committed as a whole or dropped.

use crate::bitmap::{bitmap_clone, bitmap_values};
use crate::error::StoreError;
use crate::hash;
use crate::types::{BlockHeader, Commitment, OutputFeaturePosHeight, Tip};
use croaring::Bitmap;
use vstd::prelude::*;

verus! {

/// A key of a table: a value that can be compared for equality.
pub trait Key: Copy {
    fn key_eq(&self, other: &Self) -> (r: bool)
        ensures
            r == (*self == *other),
    ;
}

impl Key for hash::Hash {
    fn key_eq(&self, other: &Self) -> (r: bool) {
        self.same(other)
    }
}

impl Key for Commitment {
    fn key_eq(&self, other: &Self) -> (r: bool) {
        self.same(other)
    }
}

/// The value that a list of entries holds for a key: that of the last
/// entry with the key.
pub open spec fn lookup<K, V>(entries: Seq<(K, V)>, key: K) -> Option<V>
    decreases entries.len(),
{
    if entries.len() == 0 {
        None
    } else if entries.last().0 == key {
        Some(entries.last().1)
    } else {
        lookup(entries.drop_last(), key)
    }
}

/// The map that a list of entries stands for.
pub open spec fn table_map<K, V>(entries: Seq<(K, V)>) -> Map<K, V> {
    Map::new(|k: K| lookup(entries, k) is Some, |k: K| lookup(entries, k)->Some_0)
}

/// The index of the last entry with the key.
fn find_last<K: Key, V>(entries: &Vec<(K, V)>, key: &K) -> (r: Option<usize>)
    ensures
        r is Some <==> lookup(entries@, *key) is Some,
        r is Some ==> r->Some_0 < entries@.len() && lookup(entries@, *key) == Some(
            entries@[r->Some_0 as int].1,
        ),
{
    let mut i: usize = entries.len();
    assert(entries@.subrange(0, i as int) =~= entries@);
    while i > 0
        invariant
            i <= entries@.len(),
            lookup(entries@, *key) == lookup(entries@.subrange(0, i as int), *key),
        decreases i,
    {
        let ghost prefix = entries@.subrange(0, i as int);
        i -= 1;
        assert(prefix.drop_last() =~= entries@.subrange(0, i as int));
        assert(prefix.last() == entries@[i as int]);
        if entries[i].0.key_eq(key) {
            return Some(i);
        }
    }
    None
}

/// A table of plain values.
#[derive(Debug)]
pub struct Table<K, V> {
    entries: Vec<(K, V)>,
}

impl<K: Key, V: Copy> Table<K, V> {
    /// The map from keys to values.
    pub closed spec fn view(&self) -> Map<K, V> {
        table_map(self.entries@)
    }

    /// A table without entries.
    pub fn new() -> (t: Self)
        ensures
            t@ == Map::<K, V>::empty(),
    {
        let t = Table { entries: Vec::new() };
        assert(t@ =~= Map::<K, V>::empty());
        t
    }

    /// The value stored under the key.
    pub fn get(&self, key: &K) -> (r: Option<V>)
        ensures
            r == if self@.contains_key(*key) {
                Some(self@[*key])
            } else {
                None
            },
    {
        match find_last(&self.entries, key) {
            Some(i) => Some(self.entries[i].1),
            None => None,
        }
    }

    /// Stores the value under the key, in place of what was there.
    pub fn put(&mut self, key: K, value: V)
        ensures
            final(self)@ == old(self)@.insert(key, value),
    {
        self.entries.push((key, value));
        assert(self.entries@.drop_last() =~= old(self).entries@);
        assert(self@ =~= old(self)@.insert(key, value));
    }

    /// Removes every entry.
    pub fn clear(&mut self)
        ensures
            final(self)@ == Map::<K, V>::empty(),
    {
        self.entries.clear();
        assert(self@ =~= Map::<K, V>::empty());
    }

    /// A copy of the table.
    pub fn copy(&self) -> (r: Self)
        ensures
            r@ == self@,
    {
        let mut entries: Vec<(K, V)> = Vec::new();
        let mut i: usize = 0;
        while i < self.entries.len()
            invariant
                i <= self.entries@.len(),
                entries@ == self.entries@.subrange(0, i as int),
            decreases self.entries@.len() - i,
        {
            entries.push(self.entries[i]);
            i += 1;
            assert(entries@ =~= self.entries@.subrange(0, i as int));
        }
        assert(entries@ =~= self.entries@);
        Table { entries }
    }
}

/// What the bitmaps of a list of entries hold, by key.
pub open spec fn bitmap_map(entries: Seq<(hash::Hash, Bitmap)>) -> Map<hash::Hash, Set<u32>> {
    Map::new(
        |k: hash::Hash| lookup(entries, k) is Some,
        |k: hash::Hash| bitmap_values(lookup(entries, k)->Some_0),
    )
}

/// Two lists with the same keys and the same integers in their bitmaps
/// hold the same for every key.
proof fn lemma_same_lookup(a: Seq<(hash::Hash, Bitmap)>, b: Seq<(hash::Hash, Bitmap)>, k: hash::Hash)
    requires
        a.len() == b.len(),
        forall|i: int|
            0 <= i < a.len() ==> (#[trigger] a[i]).0 == b[i].0 && bitmap_values(a[i].1)
                == bitmap_values(b[i].1),
    ensures
        lookup(a, k) is Some <==> lookup(b, k) is Some,
        lookup(a, k) is Some ==> bitmap_values(lookup(a, k)->Some_0) == bitmap_values(
            lookup(b, k)->Some_0,
        ),
    decreases a.len(),
{
    if a.len() > 0 {
        assert(a[a.len() - 1].0 == b[a.len() - 1].0);
        assert forall|i: int| 0 <= i < a.drop_last().len() implies (#[trigger] a.drop_last()[i]).0
            == b.drop_last()[i].0 && bitmap_values(a.drop_last()[i].1) == bitmap_values(
            b.drop_last()[i].1,
        ) by {
            assert(a[i].0 == b[i].0);
        }
        lemma_same_lookup(a.drop_last(), b.drop_last(), k);
    }
}

proof fn lemma_bitmap_map_same(a: Seq<(hash::Hash, Bitmap)>, b: Seq<(hash::Hash, Bitmap)>)
    requires
        a.len() == b.len(),
        forall|i: int|
            0 <= i < a.len() ==> (#[trigger] a[i]).0 == b[i].0 && bitmap_values(a[i].1)
                == bitmap_values(b[i].1),
    ensures
        bitmap_map(a) == bitmap_map(b),
{
    assert forall|k: hash::Hash|
        (lookup(a, k) is Some <==> lookup(b, k) is Some) && (lookup(a, k) is Some
            ==> bitmap_values(lookup(a, k)->Some_0) == bitmap_values(lookup(b, k)->Some_0)) by {
        lemma_same_lookup(a, b, k);
    }
    assert(bitmap_map(a) =~= bitmap_map(b));
}

/// A table of bitmaps by block hash.
pub struct BitmapTable {
    entries: Vec<(hash::Hash, Bitmap)>,
}

impl BitmapTable {
    /// The integers of each bitmap, by block hash.
    pub closed spec fn view(&self) -> Map<hash::Hash, Set<u32>> {
        bitmap_map(self.entries@)
    }

    /// A table without entries.
    pub fn new() -> (t: Self)
        ensures
            t@ == Map::<hash::Hash, Set<u32>>::empty(),
    {
        let t = BitmapTable { entries: Vec::new() };
        assert(t@ =~= Map::<hash::Hash, Set<u32>>::empty());
        t
    }

    /// A copy of the bitmap stored under the key.
    pub fn get(&self, key: &hash::Hash) -> (r: Option<Bitmap>)
        ensures
            r is Some <==> self@.contains_key(*key),
            r is Some ==> bitmap_values(r->Some_0) == self@[*key],
    {
        match find_last(&self.entries, key) {
            Some(i) => Some(bitmap_clone(&self.entries[i].1)),
            None => None,
        }
    }

    /// Stores a copy of the bitmap under the key, in place of what was
    /// there.
    pub fn put(&mut self, key: hash::Hash, value: &Bitmap)
        ensures
            final(self)@ == old(self)@.insert(key, bitmap_values(*value)),
    {
        let copy = bitmap_clone(value);
        self.entries.push((key, copy));
        assert(self.entries@.drop_last() =~= old(self).entries@);
        assert(self@ =~= old(self)@.insert(key, bitmap_values(*value)));
    }

    /// A copy of the table.
    pub fn copy(&self) -> (r: Self)
        ensures
            r@ == self@,
    {
        let mut entries: Vec<(hash::Hash, Bitmap)> = Vec::new();
        let mut i: usize = 0;
        while i < self.entries.len()
            invariant
                i <= self.entries@.len(),
                entries@.len() == i,
                forall|j: int|
                    0 <= j < i ==> (#[trigger] entries@[j]).0 == self.entries@[j].0
                        && bitmap_values(entries@[j].1) == bitmap_values(self.entries@[j].1),
            decreases self.entries@.len() - i,
        {
            let copy = bitmap_clone(&self.entries[i].1);
            entries.push((self.entries[i].0, copy));
            i += 1;
        }
        proof {
            lemma_bitmap_map_same(entries@, self.entries@);
        }
        BitmapTable { entries }
    }
}

/// What a store or a batch holds.
pub struct StoreView {
    /// The head of the chain of full blocks.
    pub head: Option<Tip>,
    /// The head of the chain of headers.
    pub header_head: Option<Tip>,
    /// The headers, by their hash.
    pub headers: Map<hash::Hash, BlockHeader>,
    /// The positions that the inputs of each block spent, by block hash.
    pub input_bitmaps: Map<hash::Hash, Set<u32>>,
    /// The index from output commitments to their kind, position and
    /// height.
    pub outputs: Map<Commitment, OutputFeaturePosHeight>,
    /// The index from kernel excesses to their position and height.
    pub kernels: Map<Commitment, (u64, u64)>,
}

impl StoreView {
    /// The store that holds nothing.
    pub open spec fn empty() -> StoreView {
        StoreView {
            head: None,
            header_head: None,
            headers: Map::empty(),
            input_bitmaps: Map::empty(),
            outputs: Map::empty(),
            kernels: Map::empty(),
        }
    }

    /// The header stored under `hash`.
    pub open spec fn header(self, hash: hash::Hash) -> Option<BlockHeader> {
        if self.headers.contains_key(hash) {
            Some(self.headers[hash])
        } else {
            None
        }
    }

    /// The header of the block at the head.
    pub open spec fn head_header(self) -> Option<BlockHeader> {
        match self.head {
            Some(tip) => self.header(tip.last_block_h),
            None => None,
        }
    }

    /// The index entry of a commitment.
    pub open spec fn output(self, commit: Commitment) -> Option<OutputFeaturePosHeight> {
        if self.outputs.contains_key(commit) {
            Some(self.outputs[commit])
        } else {
            None
        }
    }

    /// The input positions stored for the block `hash`.
    pub open spec fn input_bitmap(self, hash: hash::Hash) -> Option<Set<u32>> {
        if self.input_bitmaps.contains_key(hash) {
            Some(self.input_bitmaps[hash])
        } else {
            None
        }
    }
}

/// A working copy of the store. What is saved in it is seen by later reads
/// of the same batch, and by nobody else until the batch is committed.
pub struct Batch {
    head: Option<Tip>,
    header_head: Option<Tip>,
    headers: Table<hash::Hash, BlockHeader>,
    input_bitmaps: BitmapTable,
    outputs: Table<Commitment, OutputFeaturePosHeight>,
    kernels: Table<Commitment, (u64, u64)>,
}

impl Batch {
    /// What the batch holds.
    pub closed spec fn view(&self) -> StoreView {
        StoreView {
            head: self.head,
            header_head: self.header_head,
            headers: self.headers@,
            input_bitmaps: self.input_bitmaps@,
            outputs: self.outputs@,
            kernels: self.kernels@,
        }
    }

    /// A batch that holds nothing.
    pub fn new() -> (b: Batch)
        ensures
            b@ == StoreView::empty(),
    {
        Batch {
            head: None,
            header_head: None,
            headers: Table::new(),
            input_bitmaps: BitmapTable::new(),
            outputs: Table::new(),
            kernels: Table::new(),
        }
    }

    /// A batch of its own that starts from what this one holds.
    pub fn child(&self) -> (b: Batch)
        ensures
            b@ == self@,
    {
        Batch {
            head: self.head,
            header_head: self.header_head,
            headers: self.headers.copy(),
            input_bitmaps: self.input_bitmaps.copy(),
            outputs: self.outputs.copy(),
            kernels: self.kernels.copy(),
        }
    }

    /// Takes over what the child batch holds.
    pub fn commit_child(&mut self, child: Batch)
        ensures
            final(self)@ == child@,
    {
        *self = child;
    }

    /// The head of the chain of full blocks.
    pub fn head(&self) -> (r: Result<Tip, StoreError>)
        ensures
            r is Ok <==> self@.head is Some,
            r is Ok ==> Some(r->Ok_0) == self@.head,
    {
        match self.head {
            Some(tip) => Ok(tip),
            None => Err(StoreError::NotFoundErr("BODY_HEAD".to_string())),
        }
    }

    /// The head of the chain of headers.
    pub fn header_head(&self) -> (r: Result<Tip, StoreError>)
        ensures
            r is Ok <==> self@.header_head is Some,
            r is Ok ==> Some(r->Ok_0) == self@.header_head,
    {
        match self.header_head {
            Some(tip) => Ok(tip),
            None => Err(StoreError::NotFoundErr("HEADER_HEAD".to_string())),
        }
    }

    /// The header stored under `hash`.
    pub fn get_block_header(&self, hash: &hash::Hash) -> (r: Result<BlockHeader, StoreError>)
        ensures
            r is Ok <==> self@.header(*hash) is Some,
            r is Ok ==> Some(r->Ok_0) == self@.header(*hash),
    {
        match self.headers.get(hash) {
            Some(header) => Ok(header),
            None => Err(StoreError::NotFoundErr("BLOCK HEADER".to_string())),
        }
    }

    /// The header of the block at the head.
    pub fn head_header(&self) -> (r: Result<BlockHeader, StoreError>)
        ensures
            r is Ok <==> self@.head_header() is Some,
            r is Ok ==> Some(r->Ok_0) == self@.head_header(),
    {
        match self.head {
            Some(tip) => self.get_block_header(&tip.last_block_h),
            None => Err(StoreError::NotFoundErr("BODY_HEAD".to_string())),
        }
    }

    /// The header before `header`.
    pub fn get_previous_header(&self, header: &BlockHeader) -> (r: Result<BlockHeader, StoreError>)
        ensures
            r is Ok <==> self@.header(header.prev_hash) is Some,
            r is Ok ==> Some(r->Ok_0) == self@.header(header.prev_hash),
    {
        self.get_block_header(&header.prev_hash)
    }

    /// The positions that the inputs of the block `hash` spent.
    pub fn get_block_input_bitmap(&self, hash: &hash::Hash) -> (r: Result<Bitmap, StoreError>)
        ensures
            r is Ok <==> self@.input_bitmap(*hash) is Some,
            r is Ok ==> Some(bitmap_values(r->Ok_0)) == self@.input_bitmap(*hash),
    {
        match self.input_bitmaps.get(hash) {
            Some(bitmap) => Ok(bitmap),
            None => Err(StoreError::NotFoundErr("BLOCK INPUT BITMAP".to_string())),
        }
    }

    /// The index entry of a commitment.
    pub fn get_output_pos_height(&self, commit: &Commitment) -> (r: Result<
        OutputFeaturePosHeight,
        StoreError,
    >)
        ensures
            r is Ok <==> self@.output(*commit) is Some,
            r is Ok ==> Some(r->Ok_0) == self@.output(*commit),
    {
        match self.outputs.get(commit) {
            Some(entry) => Ok(entry),
            None => Err(StoreError::NotFoundErr("Output position".to_string())),
        }
    }

    /// The position that the index has for a commitment.
    pub fn get_output_pos(&self, commit: &Commitment) -> (r: Result<u64, StoreError>)
        ensures
            r is Ok <==> self@.output(*commit) is Some,
            r is Ok ==> r->Ok_0 == self@.output(*commit)->Some_0.position,
    {
        match self.outputs.get(commit) {
            Some(entry) => Ok(entry.position),
            None => Err(StoreError::NotFoundErr("Output position".to_string())),
        }
    }

    /// Sets the head of the chain of full blocks.
    pub fn save_body_head(&mut self, tip: &Tip)
        ensures
            final(self)@ == (StoreView { head: Some(*tip), ..old(self)@ }),
    {
        self.head = Some(*tip);
    }

    /// Sets the head of the chain of headers.
    pub fn save_header_head(&mut self, tip: &Tip)
        ensures
            final(self)@ == (StoreView { header_head: Some(*tip), ..old(self)@ }),
    {
        self.header_head = Some(*tip);
    }

    /// Stores a header under its hash.
    pub fn save_block_header(&mut self, header: &BlockHeader)
        ensures
            final(self)@ == (StoreView {
                headers: old(self)@.headers.insert(header.hash, *header),
                ..old(self)@
            }),
    {
        self.headers.put(header.hash, *header);
    }

    /// Stores the positions that the inputs of the block `hash` spent.
    pub fn save_block_input_bitmap(&mut self, hash: &hash::Hash, bitmap: &Bitmap)
        ensures
            final(self)@ == (StoreView {
                input_bitmaps: old(self)@.input_bitmaps.insert(*hash, bitmap_values(*bitmap)),
                ..old(self)@
            }),
    {
        self.input_bitmaps.put(*hash, bitmap);
    }

    /// Stores the index entry of a commitment.
    pub fn save_output_pos_height(&mut self, commit: &Commitment, entry: OutputFeaturePosHeight)
        ensures
            final(self)@ == (StoreView {
                outputs: old(self)@.outputs.insert(*commit, entry),
                ..old(self)@
            }),
    {
        self.outputs.put(*commit, entry);
    }

    /// Removes every entry of the output index.
    pub fn clear_output_pos_height(&mut self)
        ensures
            final(self)@ == (StoreView { outputs: Map::empty(), ..old(self)@ }),
    {
        self.outputs.clear();
    }

    /// Stores the position and height of a kernel under its excess.
    pub fn save_txkernel_pos_height(&mut self, excess: &Commitment, pos: u64, height: u64)
        ensures
            final(self)@ == (StoreView {
                kernels: old(self)@.kernels.insert(*excess, (pos, height)),
                ..old(self)@
            }),
    {
        self.kernels.put(*excess, (pos, height));
    }
}

/// The store: what the last committed batch held.
pub struct ChainStore {
    db: Batch,
}

impl ChainStore {
    /// What the store holds.
    pub closed spec fn view(&self) -> StoreView {
        self.db@
    }

    /// A store that holds nothing.
    pub fn new() -> (s: ChainStore)
        ensures
            s@ == StoreView::empty(),
    {
        ChainStore { db: Batch::new() }
    }

    /// The store that holds what the batch holds.
    pub fn from_batch(batch: Batch) -> (s: ChainStore)
        ensures
            s@ == batch@,
    {
        ChainStore { db: batch }
    }

    /// A batch that starts from what the store holds.
    pub fn batch(&self) -> (b: Batch)
        ensures
            b@ == self@,
    {
        self.db.child()
    }

    /// Makes what the batch holds the content of the store.
    pub fn commit(&mut self, batch: Batch)
        ensures
            final(self)@ == batch@,
    {
        self.db = batch;
    }

    /// The header stored under `hash`.
    pub fn get_block_header(&self, hash: &hash::Hash) -> (r: Result<BlockHeader, StoreError>)
        ensures
            r is Ok <==> self@.header(*hash) is Some,
            r is Ok ==> Some(r->Ok_0) == self@.header(*hash),
    {
        self.db.get_block_header(hash)
    }

    /// The index entry of a commitment.
    pub fn get_output_pos_height(&self, commit: &Commitment) -> (r: Result<
        OutputFeaturePosHeight,
        StoreError,
    >)
        ensures
            r is Ok <==> self@.output(*commit) is Some,
            r is Ok ==> Some(r->Ok_0) == self@.output(*commit),
    {
        self.db.get_output_pos_height(commit)
    }

    /// The position that the index has for a commitment.
    pub fn get_output_pos(&self, commit: &Commitment) -> (r: Result<u64, StoreError>)
        ensures
            r is Ok <==> self@.output(*commit) is Some,
            r is Ok ==> r->Ok_0 == self@.output(*commit)->Some_0.position,
    {
        self.db.get_output_pos(commit)
    }
}

} // verus!
