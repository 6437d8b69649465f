//! The writer of a vector database: which ids it hands out, what each of its transactions
//! writes, and how it grows the memory map.
use crate::chunks::{
    stored, ChunkMetadata, EmbeddedChunk, MetadataView,
};
use crate::metadata::{number_member, read_number, stored_str, SchemaCheck};
use crate::state::{get_stamp, new_stamps, put_stamp, stamp_entries};
use crate::text::{contains_text, decimal, decimal_text, occurs_in, opt_str, parse_u64, parsed_u64};
use dashmap::DashMap;
use vstd::prelude::*;

verus! {

/// What one committed transaction after another has left in a database.
#[verifier::ext_equal]
pub struct Snapshot {
    pub chunks: Map<u32, MetadataView>,
    pub vectors: Map<u32, Seq<u32>>,
    /// The persisted high-water mark: the highest chunk id ever handed out.
    pub mark: Option<u32>,
    /// Whether the graph is built over the vectors as they stand.
    pub built: bool,
}

/// One operation of a write transaction.
pub enum StoreOp {
    /// Removes the vector and the chunk under an id.
    Delete(u32),
    /// Adds a vector and a chunk under an id.
    Put(u32, Vec<u32>, ChunkMetadata),
    /// Persists the high-water mark.
    SetMark(u32),
    /// Drops the high-water mark.
    DropMark,
    /// Removes every vector and every chunk.
    Clear,
    /// Builds the graph.
    Build,
}

/// One operation of a write transaction.
pub enum OpView {
    Delete(u32),
    Put(u32, Seq<u32>, MetadataView),
    SetMark(u32),
    DropMark,
    Clear,
    Build,
}

impl View for StoreOp {
    type V = OpView;

    open spec fn view(&self) -> OpView {
        match *self {
            StoreOp::Delete(id) => OpView::Delete(id),
            StoreOp::Put(id, v, m) => OpView::Put(id, v@, m@),
            StoreOp::SetMark(id) => OpView::SetMark(id),
            StoreOp::DropMark => OpView::DropMark,
            StoreOp::Clear => OpView::Clear,
            StoreOp::Build => OpView::Build,
        }
    }
}

/// What a list of operations does.
pub open spec fn op_views(ops: Seq<StoreOp>) -> Seq<OpView> {
    ops.map_values(|op: StoreOp| op@)
}

impl Snapshot {
    /// The snapshot after an operation.
    pub open spec fn after(self, op: OpView) -> Snapshot {
        match op {
            OpView::Delete(id) => Snapshot {
                chunks: self.chunks.remove(id),
                vectors: self.vectors.remove(id),
                built: false,
                ..self
            },
            OpView::Put(id, v, m) => Snapshot {
                chunks: self.chunks.insert(id, m),
                vectors: self.vectors.insert(id, v),
                built: false,
                ..self
            },
            OpView::SetMark(id) => Snapshot { mark: Some(id), ..self },
            OpView::DropMark => Snapshot { mark: None, ..self },
            OpView::Clear => Snapshot {
                chunks: Map::empty(),
                vectors: Map::empty(),
                built: false,
                ..self
            },
            OpView::Build => Snapshot { built: true, ..self },
        }
    }

    /// The snapshot after a transaction.
    pub open spec fn committed(self, ops: Seq<OpView>) -> Snapshot
        decreases ops.len(),
    {
        if ops.len() == 0 {
            self
        } else {
            self.committed(ops.drop_last()).after(ops.last())
        }
    }

    /// Whether `last` is the highest id of a chunk.
    pub open spec fn is_last(self, last: Option<u32>) -> bool {
        match last {
            Some(k) => self.chunks.contains_key(k) && forall|i: u32| #[trigger]
                self.chunks.contains_key(i) ==> i <= k,
            None => forall|i: u32| !(#[trigger] self.chunks.contains_key(i)),
        }
    }

    /// Whether `found` is what is found in the snapshot: a reader of the graph opens only when
    /// it is built.
    pub open spec fn shows(self, found: StoreFacts) -> bool {
        &&& self.is_last(found.last_key)
        &&& found.mark == self.mark
        &&& found.graph_opens ==> self.built
    }
}

/// The next id, from the highest id of a chunk and the high-water mark.
pub open spec fn next_id_of(last: Option<u32>, mark: Option<u32>) -> int {
    let from_live = match last {
        Some(k) => k + 1,
        None => 0int,
    };
    let from_mark = match mark {
        Some(m) => if m == u32::MAX {
            m as int
        } else {
            m + 1
        },
        None => 0int,
    };
    if from_live >= from_mark {
        from_live
    } else {
        from_mark
    }
}

/// Derive the next id so ids are NEVER reused across reopens: the highest live id alone
/// regresses when chunks at the top of the range are deleted, and the mark alone is absent on
/// legacy stores.
pub fn next_id_from(last: Option<u32>, mark: Option<u32>) -> (r: u32)
    requires
        last != Some(u32::MAX),
    ensures
        r == next_id_of(last, mark),
{
    let from_live: u32 = match last {
        Some(k) => k + 1,
        None => 0,
    };
    let from_mark: u32 = match mark {
        Some(m) => if m == u32::MAX {
            m
        } else {
            m + 1
        },
        None => 0,
    };
    if from_live >= from_mark {
        from_live
    } else {
        from_mark
    }
}

/// What is found in a database when it is opened.
#[derive(Debug, Clone, Copy, PartialEq, Eq, Structural)]
pub struct StoreFacts {
    /// The highest id of a chunk.
    pub last_key: Option<u32>,
    /// The persisted high-water mark.
    pub mark: Option<u32>,
    /// Whether a reader of the graph opens.
    pub graph_opens: bool,
}

/// The writer of a vector database.
#[derive(Debug, Clone, Copy, PartialEq, Eq, Structural)]
pub struct VectorStore {
    pub dimensions: usize,
    /// Whether the committed snapshot has a built graph. Once true, every mutation builds
    /// inside its own write transaction, so readers never see one that is not built.
    pub indexed: bool,
    /// Current size of the memory map in MB.
    pub map_size_mb: u64,
    /// Whether there is a place for the high-water mark; only a read-only store made before
    /// the mark existed has none.
    pub marked: bool,
    /// The next chunk id that the writer will hand out.
    pub next_id: u32,
}

/// A write transaction, and what the writer remembers once it is committed.
pub struct Transaction {
    pub ops: Vec<StoreOp>,
    /// The ids that the transaction assigns, in the order of the chunks.
    pub ids: Vec<u32>,
    pub next_id: u32,
    pub indexed: bool,
}

/// Whether every chunk has an embedding of `dimensions` numbers.
pub open spec fn fits(chunks: Seq<EmbeddedChunk>, dimensions: usize) -> bool {
    forall|i: int| 0 <= i < chunks.len() ==> (#[trigger] chunks[i]).embedding@.len() == dimensions
}

/// The error for an embedding of the wrong length.
pub open spec fn mismatch_text(expected: usize, got: nat) -> Seq<char> {
    "Embedding dimension mismatch: expected "@ + decimal(expected as nat) + ", got "@ + decimal(got)
}

/// Whether `e` is the error for the first embedding that does not fit.
pub open spec fn first_mismatch(chunks: Seq<EmbeddedChunk>, dimensions: usize, e: Seq<char>) -> bool {
    exists|i: int|
        0 <= i < chunks.len() && (#[trigger] chunks[i]).embedding@.len() != dimensions && fits(
            chunks.take(i),
            dimensions,
        ) && e == mismatch_text(dimensions, chunks[i].embedding@.len())
}

/// The operation that adds the `i`-th chunk.
pub open spec fn put_of(chunks: Seq<EmbeddedChunk>, next_id: u32, i: int) -> OpView {
    OpView::Put((next_id + i) as u32, chunks[i].embedding@, stored(chunks[i].chunk))
}

/// The operations that add `chunks`, under the ids from `next_id` on.
pub open spec fn puts(chunks: Seq<EmbeddedChunk>, next_id: u32) -> Seq<OpView> {
    Seq::new(chunks.len(), |i: int| put_of(chunks, next_id, i))
}

/// The operations that remove `stale`.
pub open spec fn deletes(stale: Seq<u32>) -> Seq<OpView> {
    Seq::new(stale.len(), |i: int| OpView::Delete(stale[i]))
}

impl VectorStore {
    /// One write transaction: delete, insert, persist the mark with the data, then publish
    /// (build) if the store is serving reads.
    pub open spec fn applied(self, stale: Seq<u32>, chunks: Seq<EmbeddedChunk>) -> Seq<OpView> {
        deletes(stale) + puts(chunks, self.next_id) + (if chunks.len() > 0 && self.marked {
            seq![OpView::SetMark((self.next_id + chunks.len() - 1) as u32)]
        } else {
            Seq::empty()
        }) + (if self.indexed {
            seq![OpView::Build]
        } else {
            Seq::empty()
        })
    }

    /// Whether `t` is the transaction that deletes `stale` and inserts `chunks`.
    pub open spec fn replaces(self, stale: Seq<u32>, chunks: Seq<EmbeddedChunk>, t: Transaction) -> bool {
        &&& op_views(t.ops@) == self.applied(stale, chunks)
        &&& t.ids@ == Seq::new(chunks.len(), |i: int| (self.next_id + i) as u32)
        &&& t.next_id == self.next_id + chunks.len()
        &&& t.indexed == self.indexed
    }

    /// The writer of a store that was created or opened for writing.
    pub fn new(dimensions: usize, found: StoreFacts, map_size_mb: u64) -> (r: VectorStore)
        requires
            found.last_key != Some(u32::MAX),
        ensures
            r.dimensions == dimensions,
            r.map_size_mb == map_size_mb,
            r.marked,
            r.next_id == next_id_of(found.last_key, found.mark),
            r.indexed == (r.next_id > 0 && found.graph_opens),
    {
        let next_id: u32 = next_id_from(found.last_key, found.mark);
        VectorStore {
            dimensions,
            indexed: next_id > 0 && found.graph_opens,
            map_size_mb,
            marked: true,
            next_id,
        }
    }

    /// The store of an existing database, opened read-only (for searches while another process
    /// writes). `vectors`, `chunks` and `marks` tell which of its tables exist.
    pub fn open_readonly(
        dimensions: usize,
        vectors: bool,
        chunks: bool,
        marks: bool,
        found: StoreFacts,
        map_size_mb: u64,
    ) -> (r: Result<VectorStore, String>)
        requires
            found.last_key != Some(u32::MAX),
        ensures
            match r {
                Ok(v) => {
                    &&& vectors && chunks
                    &&& v.dimensions == dimensions
                    &&& v.map_size_mb == map_size_mb
                    &&& v.marked == marks
                    &&& v.next_id == next_id_of(
                        found.last_key,
                        if marks {
                            found.mark
                        } else {
                            None
                        },
                    )
                    &&& v.indexed == (v.next_id > 0 && found.graph_opens)
                },
                Err(e) => e@ == (if !vectors {
                    "vectors database not found"@
                } else {
                    "chunks database not found"@
                }) && !(vectors && chunks),
            },
    {
        if !vectors {
            return Err("vectors database not found".to_owned());
        }
        if !chunks {
            return Err("chunks database not found".to_owned());
        }
        let next_id: u32 = next_id_from(
            found.last_key,
            if marks {
                found.mark
            } else {
                None
            },
        );
        Ok(
            VectorStore {
                dimensions,
                indexed: next_id > 0 && found.graph_opens,
                map_size_mb,
                marked: marks,
                next_id,
            },
        )
    }

    fn first_misfit(&self, chunks: &Vec<EmbeddedChunk>) -> (r: Option<String>)
        ensures
            match r {
                Some(e) => first_mismatch(chunks@, self.dimensions, e@),
                None => fits(chunks@, self.dimensions),
            },
    {
        let mut i: usize = 0;
        while i < chunks.len()
            invariant
                i <= chunks@.len(),
                forall|j: int|
                    0 <= j < i ==> (#[trigger] chunks@[j]).embedding@.len() == self.dimensions,
            decreases chunks.len() - i,
        {
            let got: usize = chunks[i].embedding.len();
            if got != self.dimensions {
                let mut e: String = "Embedding dimension mismatch: expected ".to_owned();
                let expected: String = decimal_text(self.dimensions as u64);
                let found: String = decimal_text(got as u64);
                e.push_str(expected.as_str());
                e.push_str(", got ");
                e.push_str(found.as_str());
                assert(fits(chunks@.take(i as int), self.dimensions));
                return Some(e);
            }
            i += 1;
        }
        None
    }

    /// The transaction that deletes `stale_ids` and inserts `chunks`. It cannot be made when an
    /// embedding has the wrong length.
    fn apply(&self, stale_ids: &Vec<u32>, chunks: &Vec<EmbeddedChunk>) -> (r: Result<
        Transaction,
        String,
    >)
        requires
            self.next_id + chunks@.len() <= u32::MAX,
        ensures
            match r {
                Ok(t) => fits(chunks@, self.dimensions) && self.replaces(stale_ids@, chunks@, t),
                Err(e) => first_mismatch(chunks@, self.dimensions, e@),
            },
    {
        if let Some(e) = self.first_misfit(chunks) {
            return Err(e);
        }
        let mut ops: Vec<StoreOp> = Vec::new();
        let mut n: usize = 0;
        while n < stale_ids.len()
            invariant
                n <= stale_ids@.len(),
                op_views(ops@) == deletes(stale_ids@).take(n as int),
            decreases stale_ids.len() - n,
        {
            let ghost before = ops@;
            ops.push(StoreOp::Delete(stale_ids[n]));
            assert(op_views(ops@) =~= op_views(before).push(OpView::Delete(stale_ids@[n as int])));
            assert(deletes(stale_ids@).take(n + 1) =~= deletes(stale_ids@).take(n as int).push(
                OpView::Delete(stale_ids@[n as int]),
            ));
            n += 1;
        }
        let ghost removed = deletes(stale_ids@);
        assert(removed.take(stale_ids@.len() as int) =~= removed);
        let ghost added = puts(chunks@, self.next_id);
        let mut ids: Vec<u32> = Vec::new();
        let mut i: usize = 0;
        assert(removed + added.take(0) =~= removed);
        while i < chunks.len()
            invariant
                i <= chunks@.len(),
                self.next_id + chunks@.len() <= u32::MAX,
                added == puts(chunks@, self.next_id),
                op_views(ops@) == removed + added.take(i as int),
                ids@ == Seq::new(i as nat, |k: int| (self.next_id + k) as u32),
            decreases chunks.len() - i,
        {
            let ghost before = ops@;
            let id: u32 = self.next_id + i as u32;
            let chunk: &EmbeddedChunk = &chunks[i];
            let vector: Vec<u32> = copy_numbers(&chunk.embedding);
            ops.push(StoreOp::Put(id, vector, ChunkMetadata::from_embedded_chunk(chunk)));
            ids.push(id);
            proof {
                assert(op_views(ops@) =~= op_views(before).push(added[i as int]));
                assert(added.take(i + 1) =~= added.take(i as int).push(added[i as int]));
                assert(ids@ =~= Seq::new((i + 1) as nat, |k: int| (self.next_id + k) as u32));
            }
            i += 1;
        }
        assert(added.take(chunks@.len() as int) =~= added);
        let next_id: u32 = self.next_id + chunks.len() as u32;
        let ghost written = op_views(ops@);
        if chunks.len() > 0 && self.marked {
            ops.push(StoreOp::SetMark(next_id - 1));
        }
        let ghost marked = op_views(ops@);
        assert(marked =~= written + (if chunks@.len() > 0 && self.marked {
            seq![OpView::SetMark((self.next_id + chunks@.len() - 1) as u32)]
        } else {
            Seq::empty()
        }));
        if self.indexed {
            ops.push(StoreOp::Build);
        }
        assert(op_views(ops@) =~= marked + (if self.indexed {
            seq![OpView::Build]
        } else {
            Seq::empty()
        }));
        Ok(Transaction { ops, ids, next_id, indexed: self.indexed })
    }

    /// Insert embedded chunks into the database; nothing is written where there are none. The
    /// number of chunks inserted is that of the ids assigned.
    pub fn insert_chunks(&self, chunks: &Vec<EmbeddedChunk>) -> (r: Result<
        Option<Transaction>,
        String,
    >)
        requires
            self.next_id + chunks@.len() <= u32::MAX,
        ensures
            match r {
                Ok(Some(t)) => chunks@.len() > 0 && fits(chunks@, self.dimensions) && self.replaces(
                    Seq::empty(),
                    chunks@,
                    t,
                ),
                Ok(None) => chunks@.len() == 0,
                Err(e) => first_mismatch(chunks@, self.dimensions, e@),
            },
    {
        self.insert_chunks_with_ids(chunks)
    }

    /// Insert chunks and return their assigned ids.
    pub fn insert_chunks_with_ids(&self, chunks: &Vec<EmbeddedChunk>) -> (r: Result<
        Option<Transaction>,
        String,
    >)
        requires
            self.next_id + chunks@.len() <= u32::MAX,
        ensures
            match r {
                Ok(Some(t)) => chunks@.len() > 0 && fits(chunks@, self.dimensions) && self.replaces(
                    Seq::empty(),
                    chunks@,
                    t,
                ),
                Ok(None) => chunks@.len() == 0,
                Err(e) => first_mismatch(chunks@, self.dimensions, e@),
            },
    {
        if chunks.len() == 0 {
            return Ok(None);
        }
        let none: Vec<u32> = Vec::new();
        match self.apply(&none, chunks) {
            Ok(t) => Ok(Some(t)),
            Err(e) => Err(e),
        }
    }

    /// Delete chunks by their ids; nothing is written where there are none.
    pub fn delete_chunks(&self, chunk_ids: &Vec<u32>) -> (r: Option<Transaction>)
        ensures
            match r {
                Some(t) => chunk_ids@.len() > 0 && self.replaces(chunk_ids@, Seq::empty(), t),
                None => chunk_ids@.len() == 0,
            },
    {
        if chunk_ids.len() == 0 {
            return None;
        }
        let none: Vec<EmbeddedChunk> = Vec::new();
        match self.apply(chunk_ids, &none) {
            Ok(t) => Some(t),
            Err(_) => {
                assert(false);
                None
            },
        }
    }

    /// Delete `stale_ids` and insert `chunks` in ONE write transaction, so readers see either
    /// the old chunks or the new ones, never a gap.
    pub fn replace_chunks(&self, stale_ids: &Vec<u32>, chunks: &Vec<EmbeddedChunk>) -> (r: Result<
        Option<Transaction>,
        String,
    >)
        requires
            self.next_id + chunks@.len() <= u32::MAX,
        ensures
            match r {
                Ok(Some(t)) => {
                    &&& stale_ids@.len() > 0 || chunks@.len() > 0
                    &&& fits(chunks@, self.dimensions)
                    &&& self.replaces(stale_ids@, chunks@, t)
                },
                Ok(None) => stale_ids@.len() == 0 && chunks@.len() == 0,
                Err(e) => first_mismatch(chunks@, self.dimensions, e@),
            },
    {
        if stale_ids.len() == 0 && chunks.len() == 0 {
            return Ok(None);
        }
        match self.apply(stale_ids, chunks) {
            Ok(t) => Ok(Some(t)),
            Err(e) => Err(e),
        }
    }

    /// The operations that wipe the database.
    pub open spec fn cleared(self) -> Seq<OpView> {
        if self.marked {
            seq![OpView::Clear, OpView::DropMark]
        } else {
            seq![OpView::Clear]
        }
    }

    /// Clear all data from the database. A deliberate wipe starts a new id generation: the
    /// high-water mark is dropped with the data, and the counter restarts at 0.
    pub fn clear(&self) -> (r: Transaction)
        ensures
            op_views(r.ops@) == self.cleared(),
            r.ids@.len() == 0,
            r.next_id == 0,
            !r.indexed,
    {
        let mut ops: Vec<StoreOp> = Vec::new();
        ops.push(StoreOp::Clear);
        if self.marked {
            ops.push(StoreOp::DropMark);
        }
        assert(op_views(ops@) =~= self.cleared());
        Transaction { ops, ids: Vec::new(), next_id: 0, indexed: false }
    }

    /// Build the vector index. A store that is indexed and whose graph needs no build is left
    /// as it is.
    pub fn build_index(&self, needs_build: bool) -> (r: Option<Transaction>)
        ensures
            match r {
                Some(t) => {
                    &&& !self.indexed || needs_build
                    &&& op_views(t.ops@) == seq![OpView::Build]
                    &&& t.ids@.len() == 0
                    &&& t.next_id == self.next_id
                    &&& t.indexed
                },
                None => self.indexed && !needs_build,
            },
    {
        if self.indexed && !needs_build {
            return None;
        }
        let mut ops: Vec<StoreOp> = Vec::new();
        ops.push(StoreOp::Build);
        assert(op_views(ops@) =~= seq![OpView::Build]);
        Some(Transaction { ops, ids: Vec::new(), next_id: self.next_id, indexed: true })
    }

    /// A transaction was committed: the ids that it assigned are handed out.
    pub fn commit(&mut self, t: &Transaction)
        ensures
            *final(self) == (VectorStore { next_id: t.next_id, indexed: t.indexed, ..*old(self) }),
    {
        self.next_id = t.next_id;
        self.indexed = t.indexed;
    }

    /// Current size of the memory map in MB (grows when the map is full).
    pub fn map_size_mb(&self) -> (r: u64)
        ensures
            r == self.map_size_mb,
    {
        self.map_size_mb
    }

    /// Check if the index is built.
    pub fn is_indexed(&self) -> (r: bool)
        ensures
            r == self.indexed,
    {
        self.indexed
    }

    /// Whether a query of `query_len` numbers can be searched for.
    pub fn search_ready(&self, query_len: usize) -> (r: Result<(), String>)
        ensures
            match r {
                Ok(_) => query_len == self.dimensions && self.indexed,
                Err(e) => if query_len != self.dimensions {
                    e@ == "Query embedding dimension mismatch: expected "@ + decimal(
                        self.dimensions as nat,
                    ) + ", got "@ + decimal(query_len as nat)
                } else {
                    !self.indexed && e@
                        == "Index not built. Call build_index() after inserting chunks."@
                },
            },
    {
        if query_len != self.dimensions {
            let mut e: String = "Query embedding dimension mismatch: expected ".to_owned();
            let expected: String = decimal_text(self.dimensions as u64);
            let found: String = decimal_text(query_len as u64);
            e.push_str(expected.as_str());
            e.push_str(", got ");
            e.push_str(found.as_str());
            return Err(e);
        }
        if !self.indexed {
            return Err("Index not built. Call build_index() after inserting chunks.".to_owned());
        }
        Ok(())
    }
}

fn copy_numbers(v: &Vec<u32>) -> (r: Vec<u32>)
    ensures
        r@ == v@,
{
    let mut r: Vec<u32> = Vec::new();
    let mut i: usize = 0;
    while i < v.len()
        invariant
            i <= v@.len(),
            r@ == v@.take(i as int),
        decreases v.len() - i,
    {
        r.push(v[i]);
        assert(v@.take(i + 1) =~= v@.take(i as int).push(v@[i as int]));
        i += 1;
    }
    assert(v@.take(v@.len() as int) =~= v@);
    r
}

/// How a write transaction ended.
pub enum WriteOutcome {
    /// It was committed; for each id that it deleted, whether there was such an item.
    Committed(Vec<bool>),
    /// It was aborted, with this error: nothing of it was written.
    Aborted(String),
}

/// What follows an attempt to write.
#[derive(Debug, Clone, Copy, PartialEq, Eq, Structural)]
pub enum WriteStep {
    /// The transaction is committed; it deleted this many chunks.
    Done(usize),
    /// The map is to be resized to this many MB, and the transaction tried again.
    Resize(u64),
    /// The error is handed to the caller.
    GiveUp,
}

/// How often a write is tried.
pub const MAX_ATTEMPTS: u32 = 3;

/// Whether an error tells that the memory map is full.
pub open spec fn is_map_full(e: Seq<char>) -> bool {
    occurs_in("MDB_MAP_FULL"@, e) || occurs_in("map full"@, e)
}

/// Whether an error tells that the memory map is full.
pub fn is_map_full_error(e: &str) -> (r: bool)
    ensures
        r == is_map_full(e@),
{
    contains_text(e, "MDB_MAP_FULL") || contains_text(e, "map full")
}

/// Whether an answer is yes.
pub open spec fn is_yes() -> spec_fn(bool) -> bool {
    |b: bool| b
}

fn count_yes(answers: &Vec<bool>) -> (r: usize)
    ensures
        r == answers@.filter(is_yes()).len(),
{
    let mut r: usize = 0;
    let mut i: usize = 0;
    proof {
        reveal(Seq::filter);
    }
    while i < answers.len()
        invariant
            i <= answers.len(),
            r <= i,
            r == answers@.take(i as int).filter(is_yes()).len(),
        decreases answers.len() - i,
    {
        proof {
            reveal(Seq::filter);
            assert(answers@.take(i + 1).drop_last() =~= answers@.take(i as int));
        }
        if answers[i] {
            r += 1;
        }
        i += 1;
    }
    assert(answers@.take(answers@.len() as int) =~= answers@);
    r
}

/// The error for a map that would be larger than allowed.
pub open spec fn too_large_text(new_mb: u64, max_mb: u64) -> Seq<char> {
    "Requested map size "@ + decimal(new_mb as nat) + "MB exceeds MAX_LMDB_MAP_SIZE_MB "@ + decimal(
        max_mb as nat,
    ) + "MB (set CODESEARCH_MAX_LMDB_MAP_SIZE_MB to raise this cap)"@
}

impl VectorStore {
    /// What follows the `attempts`-th attempt to write `t`. An aborted attempt committed
    /// nothing, so the ids it consumed were never assigned: the counter stays where it was.
    /// A full map is doubled, up to `max_mb`, before the next attempt.
    pub fn write_finished(
        &mut self,
        t: &Transaction,
        outcome: &WriteOutcome,
        attempts: u32,
        max_mb: u64,
    ) -> (r: WriteStep)
        ensures
            match *outcome {
                WriteOutcome::Committed(found) => {
                    &&& r == WriteStep::Done(found@.filter(is_yes()).len() as usize)
                    &&& *final(self) == (VectorStore {
                        next_id: t.next_id,
                        indexed: t.indexed,
                        ..*old(self)
                    })
                },
                WriteOutcome::Aborted(e) => {
                    &&& *final(self) == *old(self)
                    &&& r == (if is_map_full(e@) && attempts < MAX_ATTEMPTS && 2
                        * old(self).map_size_mb <= max_mb {
                        WriteStep::Resize((2 * old(self).map_size_mb) as u64)
                    } else {
                        WriteStep::GiveUp
                    })
                },
            },
    {
        match outcome {
            WriteOutcome::Committed(found) => {
                self.commit(t);
                WriteStep::Done(count_yes(found))
            },
            WriteOutcome::Aborted(e) => {
                if is_map_full_error(e.as_str()) && attempts < MAX_ATTEMPTS && self.map_size_mb
                    <= max_mb / 2 {
                    WriteStep::Resize(self.map_size_mb * 2)
                } else {
                    WriteStep::GiveUp
                }
            },
        }
    }

    /// Whether the map may be resized to `new_mb`.
    pub fn resize_allowed(new_mb: u64, max_mb: u64) -> (r: Result<(), String>)
        ensures
            match r {
                Ok(_) => new_mb <= max_mb,
                Err(e) => new_mb > max_mb && e@ == too_large_text(new_mb, max_mb),
            },
    {
        if new_mb > max_mb {
            let mut e: String = "Requested map size ".to_owned();
            let wanted: String = decimal_text(new_mb);
            let most: String = decimal_text(max_mb);
            e.push_str(wanted.as_str());
            e.push_str("MB exceeds MAX_LMDB_MAP_SIZE_MB ");
            e.push_str(most.as_str());
            e.push_str("MB (set CODESEARCH_MAX_LMDB_MAP_SIZE_MB to raise this cap)");
            return Err(e);
        }
        Ok(())
    }

    /// The map was resized to `new_mb`: the pin of its path is raised with it, so that any
    /// later reopen of the path resolves to the grown size.
    pub fn resized(&mut self, pins: &mut MapSizePins, path: &str, new_mb: u64, max_mb: u64)
        ensures
            *final(self) == (VectorStore { map_size_mb: new_mb, ..*old(self) }),
            final(pins)@ == old(pins)@.insert(path@, pinned(old(pins)@, path@, new_mb, max_mb)),
    {
        self.map_size_mb = new_mb;
        pins.pin_map_size(path, new_mb, max_mb);
    }
}

/// The map size that was chosen for each database of the process, by its canonical path.
///
/// Opening an environment with another map size than a still-live one of the same path is an
/// error, so every open of a path uses the size that is pinned for it.
pub struct MapSizePins {
    pins: DashMap<String, u64>,
}

impl View for MapSizePins {
    type V = Map<Seq<char>, u64>;

    closed spec fn view(&self) -> Map<Seq<char>, u64> {
        stamp_entries(self.pins)
    }
}

/// The size that is pinned for a path once `candidate` was asked for: never lower than before,
/// and raised no further than `max_mb`.
pub open spec fn pinned(pins: Map<Seq<char>, u64>, path: Seq<char>, candidate: u64, max_mb: u64) -> u64 {
    let asked = if candidate <= max_mb {
        candidate
    } else {
        max_mb
    };
    if pins.contains_key(path) && pins[path] > asked {
        pins[path]
    } else {
        asked
    }
}

/// The size that an open asks for: the largest of the persisted one, the configured one and
/// the default.
pub open spec fn wanted_map_size(metadata: Option<&str>, setting: Option<Seq<char>>, default_mb: u64) -> u64 {
    let persisted = match number_member(stored_str(metadata), "lmdb_map_size_mb"@) {
        Some(n) => n,
        None => default_mb,
    };
    let configured = match setting {
        Some(t) => match parsed_u64(t) {
            Some(n) => n,
            None => persisted,
        },
        None => persisted,
    };
    let both = if configured >= persisted {
        configured
    } else {
        persisted
    };
    if both >= default_mb {
        both
    } else {
        default_mb
    }
}

impl MapSizePins {
    /// No size is pinned yet.
    pub fn new() -> (r: MapSizePins)
        ensures
            r@.is_empty(),
    {
        MapSizePins { pins: new_stamps() }
    }

    /// Pin (or raise) the map size for `path` and return the effective value. Monotonically
    /// non-decreasing, and capped at `max_mb`.
    pub fn pin_map_size(&mut self, path: &str, candidate: u64, max_mb: u64) -> (r: u64)
        ensures
            r == pinned(old(self)@, path@, candidate, max_mb),
            final(self)@ == old(self)@.insert(path@, r),
    {
        let asked: u64 = if candidate <= max_mb {
            candidate
        } else {
            max_mb
        };
        let size: u64 = match get_stamp(&self.pins, path) {
            Some(held) => if held > asked {
                held
            } else {
                asked
            },
            None => asked,
        };
        put_stamp(&mut self.pins, path.to_owned(), size);
        size
    }

    /// Resolve the effective map size of a database from the text of its `metadata.json`, the
    /// configured size and the default, and pin it.
    pub fn resolve_map_size(
        &mut self,
        path: &str,
        metadata: Option<&str>,
        setting: Option<&str>,
        default_mb: u64,
        max_mb: u64,
    ) -> (r: u64)
        ensures
            r == pinned(
                old(self)@,
                path@,
                wanted_map_size(metadata, opt_str(setting), default_mb),
                max_mb,
            ),
            final(self)@ == old(self)@.insert(path@, r),
    {
        let persisted: u64 = read_persisted_map_size(metadata, default_mb);
        let configured: u64 = match setting {
            Some(t) => match parse_u64(t) {
                Some(n) => n,
                None => persisted,
            },
            None => persisted,
        };
        let both: u64 = if configured >= persisted {
            configured
        } else {
            persisted
        };
        let candidate: u64 = if both >= default_mb {
            both
        } else {
            default_mb
        };
        self.pin_map_size(path, candidate, max_mb)
    }
}

/// Read the persisted map size from the text of a `metadata.json`; the default without one.
pub fn read_persisted_map_size(metadata: Option<&str>, default_mb: u64) -> (r: u64)
    ensures
        r == match number_member(stored_str(metadata), "lmdb_map_size_mb"@) {
            Some(n) => n,
            None => default_mb,
        },
{
    match read_number(metadata, "lmdb_map_size_mb") {
        Some(n) => n,
        None => default_mb,
    }
}

/// The error for a database that is not there.
pub open spec fn missing_text(path: Seq<char>) -> Seq<char> {
    "Database does not exist at: "@ + path
}

/// Whether an existing database at `path` may be opened read-only, by what its format version
/// asks for: `Ok` tells whether the current version is to be recorded.
pub fn readonly_open_check(path: &str, exists: bool, schema: SchemaCheck) -> (r: Result<bool, String>)
    ensures
        match r {
            Ok(record) => exists && !(schema is Refuse) && record == (schema is Record),
            Err(e) => if !exists {
                e@ == missing_text(path@)
            } else {
                schema matches SchemaCheck::Refuse(why) && e@ == why@
            },
        },
{
    if !exists {
        let mut e: String = "Database does not exist at: ".to_owned();
        e.push_str(path);
        return Err(e);
    }
    match schema {
        SchemaCheck::Current => Ok(false),
        SchemaCheck::Record => Ok(true),
        SchemaCheck::Refuse(why) => Err(why),
    }
}

/// How many candidates a search explores: 15 for each neighbour asked for and each tree.
pub fn search_k(limit: usize, n_trees: usize) -> (r: Option<usize>)
    requires
        limit * n_trees * 15 <= usize::MAX,
    ensures
        r == (if limit * n_trees == 0 {
            None
        } else {
            Some((limit * n_trees * 15) as usize)
        }),
{
    if limit == 0 || n_trees == 0 {
        assert(limit * n_trees == 0) by (nonlinear_arith)
            requires
                limit == 0 || n_trees == 0,
        ;
        return None;
    }
    assert(0 < limit * n_trees) by (nonlinear_arith)
        requires
            limit > 0,
            n_trees > 0,
    ;
    assert(limit * n_trees <= limit * n_trees * 15);
    Some(limit * n_trees * 15)
}

/// Whether a file of a database is a leftover of a crashed run, by its name: its extension is
/// `del`.
pub open spec fn is_leftover(name: Seq<char>) -> bool {
    &&& name.len() > 4
    &&& name.skip(name.len() - 4) == ".del"@
}

/// Whether a file of a database is to be removed before the database is opened.
pub fn is_stale_del_file(name: &str) -> (r: bool)
    ensures
        r == is_leftover(name@),
{
    let n: usize = name.unicode_len();
    if n <= 4 {
        return false;
    }
    proof {
        reveal_strlit(".del");
    }
    let r: bool = name.get_char(n - 4) == '.' && name.get_char(n - 3) == 'd' && name.get_char(n - 2)
        == 'e' && name.get_char(n - 1) == 'l';
    proof {
        let tail = name@.skip(n - 4);
        if r {
            assert(tail =~= ".del"@);
        } else if tail == ".del"@ {
            assert(tail[0] == '.' && tail[1] == 'd' && tail[2] == 'e' && tail[3] == 'l');
        }
    }
    r
}

/// Whether the writer is in step with the database: every chunk has a vector and an id that
/// was handed out, the mark lies below the next id, and what is said to be indexed is built.
pub open spec fn in_step(v: VectorStore, s: Snapshot) -> bool {
    &&& forall|k: u32| #[trigger] s.chunks.contains_key(k) ==> k < v.next_id
    &&& forall|k: u32| #[trigger] s.chunks.contains_key(k) <==> s.vectors.contains_key(k)
    &&& s.mark matches Some(m) ==> m < v.next_id
    &&& v.indexed ==> s.built
}

/// Whether the mark alone tells the next id.
pub open spec fn mark_holds(v: VectorStore, s: Snapshot) -> bool {
    s.mark matches Some(m) && m + 1 == v.next_id
}

/// The writer once a transaction is committed.
pub open spec fn advanced(v: VectorStore, t: Transaction) -> VectorStore {
    VectorStore { next_id: t.next_id, indexed: t.indexed, ..v }
}

proof fn lemma_committed_in_parts(s: Snapshot, a: Seq<OpView>, b: Seq<OpView>)
    ensures
        s.committed(a + b) == s.committed(a).committed(b),
    decreases b.len(),
{
    if b.len() == 0 {
        assert(a + b =~= a);
    } else {
        lemma_committed_in_parts(s, a, b.drop_last());
        assert((a + b).drop_last() =~= a + b.drop_last());
        assert((a + b).last() == b.last());
    }
}

proof fn lemma_deletes(s: Snapshot, stale: Seq<u32>)
    ensures
        s.committed(deletes(stale)).mark == s.mark,
        stale.len() == 0 ==> s.committed(deletes(stale)) == s,
        forall|k: u32| #[trigger]
            s.committed(deletes(stale)).chunks.contains_key(k) <==> s.chunks.contains_key(k)
                && !stale.contains(k),
        forall|k: u32| #[trigger]
            s.committed(deletes(stale)).vectors.contains_key(k) <==> s.vectors.contains_key(k)
                && !stale.contains(k),
        forall|k: u32|
            s.chunks.contains_key(k) && !stale.contains(k) ==> #[trigger] s.committed(
                deletes(stale),
            ).chunks[k] == s.chunks[k],
        forall|k: u32|
            s.vectors.contains_key(k) && !stale.contains(k) ==> #[trigger] s.committed(
                deletes(stale),
            ).vectors[k] == s.vectors[k],
    decreases stale.len(),
{
    if stale.len() > 0 {
        let rest = stale.drop_last();
        lemma_deletes(s, rest);
        assert(deletes(stale).drop_last() =~= deletes(rest));
        assert forall|k: u32| stale.contains(k) <==> rest.contains(k) || k == stale.last() by {
            if rest.contains(k) {
                let i = choose|i: int| 0 <= i < rest.len() && rest[i] == k;
                assert(stale[i] == k);
            }
            if k == stale.last() {
                assert(stale[stale.len() - 1] == k);
            }
            if stale.contains(k) && k != stale.last() {
                let i = choose|i: int| 0 <= i < stale.len() && stale[i] == k;
                assert(rest[i] == k);
            }
        }
    }
}

proof fn lemma_puts(s: Snapshot, chunks: Seq<EmbeddedChunk>, next_id: u32)
    requires
        next_id + chunks.len() <= u32::MAX,
    ensures
        s.committed(puts(chunks, next_id)).mark == s.mark,
        chunks.len() == 0 ==> s.committed(puts(chunks, next_id)) == s,
        forall|k: u32| #[trigger]
            s.committed(puts(chunks, next_id)).chunks.contains_key(k) <==> s.chunks.contains_key(k)
                || next_id <= k < next_id + chunks.len(),
        forall|k: u32| #[trigger]
            s.committed(puts(chunks, next_id)).vectors.contains_key(k) <==> s.vectors.contains_key(
                k,
            ) || next_id <= k < next_id + chunks.len(),
        forall|k: u32| #[trigger]
            s.committed(puts(chunks, next_id)).chunks[k] == (if next_id <= k < next_id
                + chunks.len() {
                stored(chunks[k - next_id].chunk)
            } else {
                s.chunks[k]
            }),
        forall|k: u32| #[trigger]
            s.committed(puts(chunks, next_id)).vectors[k] == (if next_id <= k < next_id
                + chunks.len() {
                chunks[k - next_id].embedding@
            } else {
                s.vectors[k]
            }),
    decreases chunks.len(),
{
    if chunks.len() > 0 {
        let rest = chunks.drop_last();
        lemma_puts(s, rest, next_id);
        assert(puts(chunks, next_id).drop_last() =~= puts(rest, next_id));
    }
}

proof fn lemma_replaced(v: VectorStore, s: Snapshot, stale: Seq<u32>, chunks: Seq<EmbeddedChunk>)
    requires
        v.next_id + chunks.len() <= u32::MAX,
    ensures
        ({
            let e = s.committed(v.applied(stale, chunks));
            &&& forall|k: u32| #[trigger]
                e.chunks.contains_key(k) <==> (s.chunks.contains_key(k) && !stale.contains(k)) || (
                v.next_id <= k < v.next_id + chunks.len())
            &&& forall|k: u32| #[trigger]
                e.vectors.contains_key(k) <==> (s.vectors.contains_key(k) && !stale.contains(k))
                    || (v.next_id <= k < v.next_id + chunks.len())
            &&& forall|k: u32|
                v.next_id <= k < v.next_id + chunks.len() ==> #[trigger] e.chunks[k] == stored(
                    chunks[k - v.next_id].chunk,
                )
            &&& forall|k: u32|
                v.next_id <= k < v.next_id + chunks.len() ==> #[trigger] e.vectors[k]
                    == chunks[k - v.next_id].embedding@
            &&& forall|k: u32|
                s.chunks.contains_key(k) && !stale.contains(k) && !(v.next_id <= k < v.next_id
                    + chunks.len()) ==> #[trigger] e.chunks[k] == s.chunks[k]
            &&& e.mark == (if chunks.len() > 0 && v.marked {
                Some((v.next_id + chunks.len() - 1) as u32)
            } else {
                s.mark
            })
            &&& v.indexed ==> e.built
            &&& stale.len() == 0 && chunks.len() == 0 && !v.indexed ==> e == s
        }),
{
    let a = deletes(stale);
    let b = puts(chunks, v.next_id);
    let c = if chunks.len() > 0 && v.marked {
        seq![OpView::SetMark((v.next_id + chunks.len() - 1) as u32)]
    } else {
        Seq::empty()
    };
    let d = if v.indexed {
        seq![OpView::Build]
    } else {
        Seq::empty()
    };
    lemma_committed_in_parts(s, a + b + c, d);
    lemma_committed_in_parts(s, a + b, c);
    lemma_committed_in_parts(s, a, b);
    let s1 = s.committed(a);
    let s2 = s1.committed(b);
    let s3 = s2.committed(c);
    lemma_deletes(s, stale);
    lemma_puts(s1, chunks, v.next_id);
    reveal_with_fuel(Snapshot::committed, 3);
    assert(s3.chunks == s2.chunks && s3.vectors == s2.vectors);
}

/// Every transaction that replaces chunks keeps the writer in step with the database: what it
/// says to be indexed is published with its graph built, and no chunk has an id that was not
/// handed out.
pub proof fn law_replacing_keeps_in_step(
    v: VectorStore,
    s: Snapshot,
    stale: Seq<u32>,
    chunks: Seq<EmbeddedChunk>,
    t: Transaction,
)
    requires
        in_step(v, s),
        v.next_id + chunks.len() <= u32::MAX,
        v.replaces(stale, chunks, t),
    ensures
        in_step(advanced(v, t), s.committed(op_views(t.ops@))),
{
    lemma_replaced(v, s, stale, chunks);
}

/// A read gives back what was written: under each id that a transaction assigned, the database
/// holds the chunk and the embedding; the stale ids are gone, in the same transaction; and
/// every other chunk is as it was. No other id appears: what was deleted stays so.
pub proof fn law_replaced_chunks_read_back(
    v: VectorStore,
    s: Snapshot,
    stale: Seq<u32>,
    chunks: Seq<EmbeddedChunk>,
    t: Transaction,
)
    requires
        in_step(v, s),
        v.next_id + chunks.len() <= u32::MAX,
        v.replaces(stale, chunks, t),
    ensures
        ({
            let e = s.committed(op_views(t.ops@));
            &&& t.ids@.len() == chunks.len()
            &&& forall|i: int|
                0 <= i < chunks.len() ==> e.chunks.contains_key(#[trigger] t.ids@[i])
                    && e.chunks[t.ids@[i]] == stored(chunks[i].chunk) && e.vectors.contains_key(
                    t.ids@[i],
                ) && e.vectors[t.ids@[i]] == chunks[i].embedding@
            &&& forall|k: u32| #[trigger]
                stale.contains(k) && k < v.next_id ==> !e.chunks.contains_key(k)
            &&& forall|k: u32| #[trigger]
                s.chunks.contains_key(k) && !stale.contains(k) ==> e.chunks.contains_key(k)
                    && e.chunks[k] == s.chunks[k]
            &&& forall|k: u32| #[trigger]
                e.chunks.contains_key(k) ==> s.chunks.contains_key(k) || t.ids@.contains(k)
            &&& forall|k: u32| #[trigger]
                e.vectors.contains_key(k) ==> s.vectors.contains_key(k) || t.ids@.contains(k)
        }),
{
    lemma_replaced(v, s, stale, chunks);
    let e = s.committed(op_views(t.ops@));
    assert forall|i: int| 0 <= i < chunks.len() implies e.chunks.contains_key(#[trigger] t.ids@[i])
        && e.chunks[t.ids@[i]] == stored(chunks[i].chunk) && e.vectors.contains_key(t.ids@[i])
        && e.vectors[t.ids@[i]] == chunks[i].embedding@ by {
        let k = t.ids@[i];
        assert(k == v.next_id + i);
        assert(k - v.next_id == i);
    }
    assert forall|k: u32| v.next_id <= k < v.next_id + chunks.len() implies #[trigger]
        t.ids@.contains(k) by {
        assert(t.ids@[k - v.next_id] == k);
    }
}

/// A store that is opened from what is found in a database, chunks and vectors under the same
/// ids, is in step with it.
pub proof fn law_opening_is_in_step(v: VectorStore, s: Snapshot, found: StoreFacts)
    requires
        forall|k: u32| #[trigger] s.chunks.contains_key(k) <==> s.vectors.contains_key(k),
        s.mark != Some(u32::MAX),
        s.shows(found),
        v.next_id == next_id_of(found.last_key, found.mark),
        v.indexed == (v.next_id > 0 && found.graph_opens),
    ensures
        in_step(v, s),
{
}

/// Opening a database again gives a writer that hands out no id of a live chunk, and, once the
/// mark holds, goes on with the ids where the last writer stopped.
pub proof fn law_reopening_goes_on(
    before: VectorStore,
    v: VectorStore,
    s: Snapshot,
    found: StoreFacts,
)
    requires
        in_step(before, s),
        s.shows(found),
        v.next_id == next_id_of(found.last_key, found.mark),
        v.indexed == (v.next_id > 0 && found.graph_opens),
    ensures
        in_step(v, s),
        v.next_id <= before.next_id,
        mark_holds(before, s) ==> v.next_id == before.next_id,
{
}

/// Building the graph keeps the writer in step with the database, and changes no chunk, no
/// vector and no mark.
pub proof fn law_building_keeps_in_step(v: VectorStore, s: Snapshot, t: Transaction)
    requires
        in_step(v, s),
        op_views(t.ops@) == seq![OpView::Build],
        t.next_id == v.next_id,
    ensures
        in_step(advanced(v, t), s.committed(op_views(t.ops@))),
        s.committed(op_views(t.ops@)) == (Snapshot { built: true, ..s }),
{
    reveal_with_fuel(Snapshot::committed, 2);
    assert(op_views(t.ops@).drop_last() =~= Seq::empty());
}

/// The ids that a transaction assigns are new: no chunk of the database has one of them, and
/// no two of them are the same.
pub proof fn law_assigned_ids_are_new(
    v: VectorStore,
    s: Snapshot,
    stale: Seq<u32>,
    chunks: Seq<EmbeddedChunk>,
    t: Transaction,
)
    requires
        in_step(v, s),
        v.next_id + chunks.len() <= u32::MAX,
        v.replaces(stale, chunks, t),
    ensures
        t.ids@.no_duplicates(),
        forall|i: int|
            0 <= i < t.ids@.len() ==> v.next_id <= #[trigger] t.ids@[i] < t.next_id
                && !s.chunks.contains_key(t.ids@[i]),
{
    assert forall|i: int| 0 <= i < t.ids@.len() implies v.next_id <= #[trigger] t.ids@[i]
        < t.next_id && !s.chunks.contains_key(t.ids@[i]) by {
        assert(t.ids@[i] == v.next_id + i);
    }
}

/// An insert leaves the mark at the highest id handed out.
pub proof fn law_insert_sets_the_mark(
    v: VectorStore,
    s: Snapshot,
    stale: Seq<u32>,
    chunks: Seq<EmbeddedChunk>,
    t: Transaction,
)
    requires
        v.marked,
        chunks.len() > 0,
        v.next_id + chunks.len() <= u32::MAX,
        v.replaces(stale, chunks, t),
    ensures
        mark_holds(advanced(v, t), s.committed(op_views(t.ops@))),
{
    lemma_replaced(v, s, stale, chunks);
}

/// Once the mark holds, no transaction lowers it, whatever it deletes: reopening the database
/// gives the same next id, so a deleted id is never handed to other content.
pub proof fn law_ids_are_never_reused(
    v: VectorStore,
    s: Snapshot,
    stale: Seq<u32>,
    chunks: Seq<EmbeddedChunk>,
    t: Transaction,
    last: Option<u32>,
)
    requires
        v.marked,
        in_step(v, s),
        mark_holds(v, s),
        v.next_id + chunks.len() <= u32::MAX,
        v.replaces(stale, chunks, t),
        s.committed(op_views(t.ops@)).is_last(last),
    ensures
        mark_holds(advanced(v, t), s.committed(op_views(t.ops@))),
        next_id_of(last, s.committed(op_views(t.ops@)).mark) == t.next_id,
        t.next_id >= v.next_id,
{
    lemma_replaced(v, s, stale, chunks);
    law_replacing_keeps_in_step(v, s, stale, chunks, t);
}

/// A wipe starts a new generation: nothing is left, no mark either, and a reopen hands out ids
/// from 0 on.
pub proof fn law_clear_starts_a_new_generation(v: VectorStore, s: Snapshot, t: Transaction)
    requires
        in_step(v, s),
        v.marked || s.mark is None,
        op_views(t.ops@) == v.cleared(),
        t.next_id == 0,
        !t.indexed,
    ensures
        ({
            let e = s.committed(op_views(t.ops@));
            &&& e.chunks.is_empty()
            &&& e.vectors.is_empty()
            &&& e.mark is None
            &&& e.is_last(None)
            &&& next_id_of(None, e.mark) == 0
            &&& in_step(advanced(v, t), e)
        }),
{
    reveal_with_fuel(Snapshot::committed, 3);
    if v.marked {
        let ops = v.cleared();
        assert(ops.drop_last() =~= seq![OpView::Clear]);
        assert(ops.drop_last().drop_last() =~= Seq::empty());
    } else {
        assert(v.cleared().drop_last() =~= Seq::empty());
    }
}

/// A pinned map size never shrinks, whatever is asked for, and stays within the cap that it
/// was within before.
pub proof fn law_pins_only_grow(
    pins: Map<Seq<char>, u64>,
    path: Seq<char>,
    candidate: u64,
    max_mb: u64,
)
    ensures
        pins.contains_key(path) ==> pinned(pins, path, candidate, max_mb) >= pins[path],
        (pins.contains_key(path) ==> pins[path] <= max_mb) ==> pinned(pins, path, candidate, max_mb)
            <= max_mb,
        candidate <= max_mb ==> pinned(pins, path, candidate, max_mb) >= candidate,
{
}

} // verus!
