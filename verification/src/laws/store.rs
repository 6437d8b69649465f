//! What a database is given to hold, and what is read of it.
use crate::chunks::{
    entry_key, file_keys, has_key_of, law_each_chunk_stands_in_its_group,
    law_groups_hold_chunks_of_their_path, law_outline_has_an_entry_for_each_chunk,
    law_outline_has_an_entry_for_each_key, law_outline_has_no_key_twice,
    law_outline_shows_stored_chunks, law_results_are_the_neighbours, law_stored_chunk_agrees,
    by_id, chunk_as_result, paths_of, stored, Chunk, ChunkMeta, ChunkMetadata, EmbeddedChunk,
    FileChunks, MetadataView, Neighbour, SearchResult, StoreStats, StoredChunk,
};
use crate::store::{
    deletes, first_mismatch, fits, in_step, is_map_full_error, is_stale_del_file, is_yes,
    law_replaced_chunks_read_back, next_id_from, op_views, put_of, puts, read_persisted_map_size,
    readonly_open_check,
    search_k, MapSizePins, OpView, Snapshot, StoreFacts, StoreOp, Transaction, VectorStore,
    WriteOutcome, WriteStep,
};
use crate::metadata::{read_number, SchemaCheck};
use crate::text::{decimal, law_decimal_round_trip, occurs_in, opt_text, texts};
use vstd::prelude::*;

verus! {

/// Whether what is stored agrees with a chunk, field by field.
pub open spec fn holds_chunk(m: ChunkMetadata, c: Chunk) -> bool {
    &&& m.content@ == c.content@
    &&& m.path@ == c.path@
    &&& m.start_line == c.start_line
    &&& m.end_line == c.end_line
    &&& m.kind@ == c.kind@
    &&& opt_text(m.signature) == opt_text(c.signature)
    &&& opt_text(m.docstring) == opt_text(c.docstring)
    &&& m.hash@ == c.hash@
    &&& opt_text(m.context_prev) == opt_text(c.context_prev)
    &&& opt_text(m.context_next) == opt_text(c.context_next)
    &&& m.context is None <==> c.context@.len() == 0
    &&& forall|i: int|
        0 <= i < c.context@.len() ==> occurs_in((#[trigger] c.context@[i])@, opt_text(m.context)->0)
    &&& occurs_in(c.content@, m.searchable_text@)
    &&& occurs_in(c.kind@, m.searchable_text@)
    &&& c.signature matches Some(t) ==> occurs_in(t@, m.searchable_text@)
    &&& c.docstring matches Some(t) ==> occurs_in(t@, m.searchable_text@)
}

/// What is stored of a chunk agrees with it in every field, and the text that it is found by
/// holds its content, its kind, its signature and its docstring.
pub proof fn law_stored_metadata_is_of_the_chunk(chunk: EmbeddedChunk, r: ChunkMetadata)
    requires
        call_ensures(ChunkMetadata::from_embedded_chunk, (&chunk,), r),
    ensures
        holds_chunk(r, chunk.chunk),
        chunk.chunk.context@.len() == 1 ==> r.context is Some && r.context->0@
            == chunk.chunk.context@[0]@,
        chunk.chunk.context@.len() == 2 ==> r.context is Some && r.context->0@
            == chunk.chunk.context@[0]@ + " > "@ + chunk.chunk.context@[1]@,
{
    law_stored_chunk_agrees(chunk.chunk);
    let m = stored(chunk.chunk);
    assert(r@ == m);
    assert(r@.context == opt_text(r.context));
}

/// Whether an operation adds a chunk with its embedding under an id.
pub open spec fn adds(op: StoreOp, id: int, c: EmbeddedChunk) -> bool {
    match op {
        StoreOp::Put(k, v, m) => k == id && v@ == c.embedding@ && holds_chunk(m, c.chunk),
        _ => false,
    }
}

proof fn lemma_adds(op: StoreOp, chunks: Seq<EmbeddedChunk>, next_id: u32, i: int)
    requires
        0 <= i < chunks.len(),
        next_id + chunks.len() <= u32::MAX,
        op@ == put_of(chunks, next_id, i),
    ensures
        adds(op, next_id + i, chunks[i]),
{
    law_stored_chunk_agrees(chunks[i].chunk);
    match op {
        StoreOp::Put(k, v, m) => {
            assert(m@ == stored(chunks[i].chunk));
            assert(m@.context == opt_text(m.context));
        },
        _ => {},
    }
}

/// Whether a transaction removes `stale`, then adds `chunks` under the next ids, then persists
/// the highest id handed out where there is a place for it, then builds where the store
/// serves reads; and nothing else.
pub open spec fn is_replacement(
    v: VectorStore,
    stale: Seq<u32>,
    chunks: Seq<EmbeddedChunk>,
    t: Transaction,
) -> bool {
    let n = stale.len() as int;
    let k = chunks.len() as int;
    let mark = if k > 0 && v.marked {
        1int
    } else {
        0
    };
    let build = if v.indexed {
        1int
    } else {
        0
    };
    &&& t.ops@.len() == n + k + mark + build
    &&& forall|i: int| 0 <= i < n ==> #[trigger] t.ops@[i] == StoreOp::Delete(stale[i])
    &&& forall|i: int| n <= i < n + k ==> adds(#[trigger] t.ops@[i], v.next_id + i - n, chunks[i - n])
    &&& mark == 1 ==> t.ops@[n + k] == StoreOp::SetMark((v.next_id + k - 1) as u32)
    &&& build == 1 ==> t.ops@[n + k + mark] == StoreOp::Build
    &&& t.ids@.len() == k
    &&& forall|i: int| 0 <= i < k ==> #[trigger] t.ids@[i] == v.next_id + i
    &&& t.next_id == v.next_id + k
    &&& t.indexed == v.indexed
}

proof fn lemma_is_replacement(
    v: VectorStore,
    stale: Seq<u32>,
    chunks: Seq<EmbeddedChunk>,
    t: Transaction,
)
    requires
        v.next_id + chunks.len() <= u32::MAX,
        v.replaces(stale, chunks, t),
    ensures
        is_replacement(v, stale, chunks, t),
{
    let n = stale.len() as int;
    let k = chunks.len() as int;
    let ops = op_views(t.ops@);
    assert(ops == v.applied(stale, chunks));
    assert(ops.len() == t.ops@.len());
    assert forall|i: int| 0 <= i < n implies #[trigger] t.ops@[i] == StoreOp::Delete(stale[i]) by {
        assert(ops[i] == OpView::Delete(stale[i]));
        assert(ops[i] == t.ops@[i]@);
    }
    assert forall|i: int| n <= i < n + k implies adds(
        #[trigger] t.ops@[i],
        v.next_id + i - n,
        chunks[i - n],
    ) by {
        assert(ops[i] == put_of(chunks, v.next_id, i - n));
        assert(ops[i] == t.ops@[i]@);
        lemma_adds(t.ops@[i], chunks, v.next_id, i - n);
    }
    if k > 0 && v.marked {
        assert(ops[n + k] == t.ops@[n + k]@);
        if v.indexed {
            assert(ops[n + k + 1] == t.ops@[n + k + 1]@);
        }
    } else if v.indexed {
        assert(ops[n + k] == t.ops@[n + k]@);
    }
}

/// A replacement is refused when an embedding has the wrong length, and only then; nothing is
/// written where nothing is to be removed or added; else the stale chunks are removed and the
/// new ones added in one transaction.
pub proof fn law_replacing(
    v: VectorStore,
    stale: Vec<u32>,
    chunks: Vec<EmbeddedChunk>,
    r: Result<Option<Transaction>, String>,
)
    requires
        v.next_id + chunks@.len() <= u32::MAX,
        call_ensures(VectorStore::replace_chunks, (&v, &stale, &chunks), r),
    ensures
        r is Err <==> exists|i: int|
            0 <= i < chunks@.len() && (#[trigger] chunks@[i]).embedding@.len() != v.dimensions,
        r matches Ok(None) ==> stale@.len() == 0 && chunks@.len() == 0,
        stale@.len() == 0 && chunks@.len() == 0 ==> r == Ok::<Option<Transaction>, String>(None),
        r matches Ok(Some(t)) ==> is_replacement(v, stale@, chunks@, t),
{
    if let Ok(Some(t)) = r {
        lemma_is_replacement(v, stale@, chunks@, t);
    }
}

/// An insert adds every chunk under the next ids, and removes nothing.
pub proof fn law_inserting(
    v: VectorStore,
    chunks: Vec<EmbeddedChunk>,
    r: Result<Option<Transaction>, String>,
)
    requires
        v.next_id + chunks@.len() <= u32::MAX,
        call_ensures(VectorStore::insert_chunks, (&v, &chunks), r) || call_ensures(
            VectorStore::insert_chunks_with_ids,
            (&v, &chunks),
            r,
        ),
    ensures
        r is Err <==> exists|i: int|
            0 <= i < chunks@.len() && (#[trigger] chunks@[i]).embedding@.len() != v.dimensions,
        r matches Ok(None) ==> chunks@.len() == 0,
        chunks@.len() == 0 ==> r == Ok::<Option<Transaction>, String>(None),
        r matches Ok(Some(t)) ==> is_replacement(v, Seq::empty(), chunks@, t),
{
    if let Ok(Some(t)) = r {
        lemma_is_replacement(v, Seq::empty(), chunks@, t);
    }
}

/// A deletion removes every id that is named, and adds nothing.
pub proof fn law_deleting(v: VectorStore, ids: Vec<u32>, r: Option<Transaction>)
    requires
        call_ensures(VectorStore::delete_chunks, (&v, &ids), r),
    ensures
        r is None <==> ids@.len() == 0,
        r matches Some(t) ==> is_replacement(v, ids@, Seq::empty(), t),
{
    if let Some(t) = r {
        lemma_is_replacement(v, ids@, Seq::empty(), t);
    }
}

/// What a database holds under the id of an added chunk, once the transaction is committed,
/// agrees with the chunk field by field, its embedding too.
pub proof fn law_a_committed_chunk_reads_back(
    v: VectorStore,
    s: Snapshot,
    stale: Vec<u32>,
    chunks: Vec<EmbeddedChunk>,
    t: Transaction,
    i: int,
)
    requires
        in_step(v, s),
        v.next_id + chunks@.len() <= u32::MAX,
        call_ensures(
            VectorStore::replace_chunks,
            (&v, &stale, &chunks),
            Ok::<Option<Transaction>, String>(Some(t)),
        ),
        0 <= i < chunks@.len(),
    ensures
        ({
            let e = s.committed(op_views(t.ops@));
            let id = t.ids@[i];
            let c = chunks@[i].chunk;
            &&& t.ids@.len() == chunks@.len()
            &&& e.chunks.contains_key(id)
            &&& e.chunks[id].content == c.content@
            &&& e.chunks[id].path == c.path@
            &&& e.chunks[id].start_line == c.start_line
            &&& e.chunks[id].end_line == c.end_line
            &&& e.chunks[id].kind == c.kind@
            &&& e.chunks[id].signature == opt_text(c.signature)
            &&& e.chunks[id].docstring == opt_text(c.docstring)
            &&& e.chunks[id].hash == c.hash@
            &&& e.chunks[id].context_prev == opt_text(c.context_prev)
            &&& e.chunks[id].context_next == opt_text(c.context_next)
            &&& e.vectors.contains_key(id)
            &&& e.vectors[id] == chunks@[i].embedding@
        }),
{
    law_replaced_chunks_read_back(v, s, stale@, chunks@, t);
    law_stored_chunk_agrees(chunks@[i].chunk);
    assert(s.committed(op_views(t.ops@)).chunks.contains_key(t.ids@[i]));
}

/// A wipe clears, and drops the mark where there is a place for it; ids start at 0 again, and
/// nothing is indexed.
pub proof fn law_clearing(v: VectorStore, t: Transaction)
    requires
        call_ensures(VectorStore::clear, (&v,), t),
    ensures
        t.ops@.len() == (if v.marked {
            2int
        } else {
            1
        }),
        t.ops@[0] == StoreOp::Clear,
        v.marked ==> t.ops@[1] == StoreOp::DropMark,
        t.ids@.len() == 0,
        t.next_id == 0,
        !t.indexed,
{
    let ops = op_views(t.ops@);
    assert(ops == v.cleared());
    assert(ops.len() == t.ops@.len());
    assert(ops[0] == t.ops@[0]@);
    if v.marked {
        assert(ops[1] == t.ops@[1]@);
    }
}

/// A build builds, unless the store is indexed and needs none; ids stay where they were.
pub proof fn law_building(v: VectorStore, needs_build: bool, r: Option<Transaction>)
    requires
        call_ensures(VectorStore::build_index, (&v, needs_build), r),
    ensures
        r is None <==> v.indexed && !needs_build,
        r matches Some(t) ==> t.ops@.len() == 1 && t.ops@[0] == StoreOp::Build && t.ids@.len() == 0
            && t.next_id == v.next_id && t.indexed,
{
    if let Some(t) = r {
        let ops = op_views(t.ops@);
        assert(ops == seq![OpView::Build]);
        assert(ops.len() == t.ops@.len());
        assert(ops[0] == t.ops@[0]@);
    }
}

/// A committed transaction moves the ids on, and says whether the store is indexed; nothing
/// else of the writer changes.
pub proof fn law_committing(v: &mut VectorStore, t: Transaction, r: ())
    requires
        call_ensures(VectorStore::commit, (v, &t), r),
    ensures
        final(v).next_id == t.next_id,
        final(v).indexed == t.indexed,
        final(v).dimensions == old(v).dimensions,
        final(v).map_size_mb == old(v).map_size_mb,
        final(v).marked == old(v).marked,
{
}

/// A commit tells how many of the deleted ids were there, and moves the ids on. An aborted
/// write leaves the writer as it was; it is tried again with a map of twice the size when the
/// map is full, fewer than three attempts were made, and that size is allowed.
pub proof fn law_finishing_a_write(
    v: &mut VectorStore,
    t: Transaction,
    outcome: WriteOutcome,
    attempts: u32,
    max_mb: u64,
    r: WriteStep,
)
    requires
        call_ensures(VectorStore::write_finished, (v, &t, &outcome, attempts, max_mb), r),
    ensures
        final(v).dimensions == old(v).dimensions,
        final(v).map_size_mb == old(v).map_size_mb,
        final(v).marked == old(v).marked,
        outcome matches WriteOutcome::Committed(found) ==> final(v).next_id == t.next_id && final(v).indexed == t.indexed && r is Done && ((forall|i: int|
            0 <= i < found@.len() ==> #[trigger] found@[i]) ==> r == WriteStep::Done(
            found@.len() as usize,
        )) && ((forall|i: int| 0 <= i < found@.len() ==> !(#[trigger] found@[i])) ==> r
            == WriteStep::Done(0)),
        outcome matches WriteOutcome::Aborted(e) ==> final(v).next_id == old(v).next_id && final(v).indexed == old(v).indexed && !(r is Done) && (r is Resize <==> (occurs_in(
            "MDB_MAP_FULL"@,
            e@,
        ) || occurs_in("map full"@, e@)) && attempts < 3 && old(v).map_size_mb + old(v).map_size_mb
            <= max_mb) && (r matches WriteStep::Resize(mb) ==> mb == old(v).map_size_mb + old(v).map_size_mb),
{
    if let WriteOutcome::Committed(found) = outcome {
        if forall|i: int| 0 <= i < found@.len() ==> #[trigger] found@[i] {
            lemma_all_yes(found@);
        }
        if forall|i: int| 0 <= i < found@.len() ==> !(#[trigger] found@[i]) {
            lemma_all_no(found@);
        }
    }
}

proof fn lemma_all_yes(s: Seq<bool>)
    requires
        forall|i: int| 0 <= i < s.len() ==> #[trigger] s[i],
    ensures
        s.filter(is_yes()).len() == s.len(),
    decreases s.len(),
{
    reveal(Seq::filter);
    if s.len() > 0 {
        let rest = s.drop_last();
        assert forall|i: int| 0 <= i < rest.len() implies #[trigger] rest[i] by {
            assert(rest[i] == s[i]);
        }
        lemma_all_yes(rest);
        assert(s[s.len() - 1]);
    }
}

proof fn lemma_all_no(s: Seq<bool>)
    requires
        forall|i: int| 0 <= i < s.len() ==> !(#[trigger] s[i]),
    ensures
        s.filter(is_yes()).len() == 0,
    decreases s.len(),
{
    reveal(Seq::filter);
    if s.len() > 0 {
        let rest = s.drop_last();
        assert forall|i: int| 0 <= i < rest.len() implies !(#[trigger] rest[i]) by {
            assert(rest[i] == s[i]);
        }
        lemma_all_no(rest);
        assert(!s[s.len() - 1]);
    }
}

/// A map may be made as large as allowed, and no larger.
pub proof fn law_resizing(new_mb: u64, max_mb: u64, r: Result<(), String>)
    requires
        call_ensures(VectorStore::resize_allowed, (new_mb, max_mb), r),
    ensures
        r is Ok <==> new_mb <= max_mb,
{
}

/// A resized map has its new size, and any later open of the path gets no smaller one, as far
/// as it is allowed.
pub proof fn law_resized(
    v: &mut VectorStore,
    pins: &mut MapSizePins,
    path: &str,
    new_mb: u64,
    max_mb: u64,
    r: (),
    other: Seq<char>,
)
    requires
        call_ensures(VectorStore::resized, (v, pins, path, new_mb, max_mb), r),
    ensures
        final(v).map_size_mb == new_mb,
        final(v).next_id == old(v).next_id,
        final(v).indexed == old(v).indexed,
        final(v).dimensions == old(v).dimensions,
        final(v).marked == old(v).marked,
        final(pins)@.contains_key(path@),
        new_mb <= max_mb ==> final(pins)@[path@] >= new_mb,
        old(pins)@.contains_key(path@) ==> final(pins)@[path@] >= old(pins)@[path@],
        other != path@ ==> (final(pins)@.contains_key(other) <==> old(pins)@.contains_key(other)),
        other != path@ && old(pins)@.contains_key(other) ==> final(pins)@[other] == old(pins)@[other],
{
}

/// The size that is pinned for a path never falls; a new one is taken as far as it is allowed;
/// and the pins of other paths stay.
pub proof fn law_pinning(
    pins: &mut MapSizePins,
    path: &str,
    candidate: u64,
    max_mb: u64,
    r: u64,
    other: Seq<char>,
)
    requires
        call_ensures(MapSizePins::pin_map_size, (pins, path, candidate, max_mb), r),
    ensures
        final(pins)@.contains_key(path@),
        final(pins)@[path@] == r,
        old(pins)@.contains_key(path@) ==> r >= old(pins)@[path@],
        candidate <= max_mb ==> r >= candidate,
        candidate > max_mb ==> r >= max_mb,
        r == candidate || r == max_mb || (old(pins)@.contains_key(path@) && r == old(pins)@[path@]),
        !old(pins)@.contains_key(path@) ==> r <= max_mb && r <= candidate,
        other != path@ ==> (final(pins)@.contains_key(other) <==> old(pins)@.contains_key(other)),
        other != path@ && old(pins)@.contains_key(other) ==> final(pins)@[other] == old(pins)@[other],
{
}

/// A database is opened with no less than the default, than the persisted and the configured
/// size and than what is pinned, as far as each is allowed. Where no size is configured, it is
/// one of these.
pub proof fn law_resolving_a_size(
    pins: &mut MapSizePins,
    path: &str,
    metadata: Option<&str>,
    setting: Option<&str>,
    default_mb: u64,
    max_mb: u64,
    r: u64,
    n: u64,
    persisted: Option<u64>,
)
    requires
        call_ensures(read_number, (metadata, "lmdb_map_size_mb"), persisted),
        call_ensures(
            MapSizePins::resolve_map_size,
            (pins, path, metadata, setting, default_mb, max_mb),
            r,
        ),
    ensures
        final(pins)@.contains_key(path@),
        final(pins)@[path@] == r,
        old(pins)@.contains_key(path@) ==> r >= old(pins)@[path@],
        default_mb <= max_mb ==> r >= default_mb,
        setting matches Some(t) ==> t@ == decimal(n as nat) && n <= max_mb ==> r >= n,
        persisted matches Some(p) ==> p <= max_mb ==> r >= p,
        !old(pins)@.contains_key(path@) ==> r <= max_mb,
        setting is None ==> r == default_mb || persisted == Some(r) || r == max_mb || (old(
            pins,
        )@.contains_key(path@) && r == old(pins)@[path@]),
{
    law_decimal_round_trip(n);
}

/// The next id lies above every id of a live chunk and above the mark, and no higher than it
/// must.
pub proof fn law_the_next_id(last: Option<u32>, mark: Option<u32>, r: u32)
    requires
        last != Some(u32::MAX),
        call_ensures(next_id_from, (last, mark), r),
    ensures
        last matches Some(k) ==> r > k,
        mark matches Some(m) ==> m < u32::MAX ==> r > m,
        mark == Some(u32::MAX) ==> r == u32::MAX,
        last is None && mark is None ==> r == 0,
        r > 0 ==> last == Some((r - 1) as u32) || mark == Some((r - 1) as u32) || mark == Some(
            u32::MAX,
        ),
{
}

/// A writer that is opened hands out ids above those of the live chunks and the mark, and is
/// indexed when the graph opens and there was a chunk once.
pub proof fn law_opening_a_writer(dimensions: usize, found: StoreFacts, mb: u64, r: VectorStore)
    requires
        found.last_key != Some(u32::MAX),
        call_ensures(VectorStore::new, (dimensions, found, mb), r),
    ensures
        r.dimensions == dimensions,
        r.map_size_mb == mb,
        r.marked,
        found.last_key matches Some(k) ==> r.next_id > k,
        found.mark matches Some(m) ==> m < u32::MAX ==> r.next_id > m,
        found.last_key is None && found.mark is None ==> r.next_id == 0 && !r.indexed,
        found.last_key is Some || found.mark is Some ==> r.indexed == found.graph_opens,
{
}

/// A store opens for reading when it has its vectors and its chunks; without a place for the
/// mark its ids follow those of the live chunks alone.
pub proof fn law_opening_a_reader(
    dimensions: usize,
    vectors: bool,
    chunks: bool,
    marks: bool,
    found: StoreFacts,
    mb: u64,
    r: Result<VectorStore, String>,
)
    requires
        found.last_key != Some(u32::MAX),
        call_ensures(
            VectorStore::open_readonly,
            (dimensions, vectors, chunks, marks, found, mb),
            r,
        ),
    ensures
        r is Ok <==> vectors && chunks,
        r matches Ok(v) ==> {
            &&& v.dimensions == dimensions
            &&& v.map_size_mb == mb
            &&& v.marked == marks
            &&& found.last_key matches Some(k) ==> v.next_id > k
            &&& !marks && found.last_key is None ==> v.next_id == 0
            &&& !marks ==> (found.last_key matches Some(k) ==> v.next_id == k + 1)
            &&& marks ==> (found.mark matches Some(m) ==> m < u32::MAX ==> v.next_id > m)
            &&& v.indexed ==> found.graph_opens
            &&& found.graph_opens && found.last_key is Some ==> v.indexed
        },
{
}

/// A query can be searched for when it has the dimensions of the store and the store is
/// indexed.
pub proof fn law_searching(v: VectorStore, query_len: usize, r: Result<(), String>)
    requires
        call_ensures(VectorStore::search_ready, (&v, query_len), r),
    ensures
        r is Ok <==> query_len == v.dimensions && v.indexed,
{
}

/// An existing database is opened for reading unless its format refuses, and the current
/// version is recorded where none was.
pub proof fn law_checking_a_format(
    path: &str,
    exists_: bool,
    schema: SchemaCheck,
    r: Result<bool, String>,
)
    requires
        call_ensures(readonly_open_check, (path, exists_, schema), r),
    ensures
        r is Ok <==> exists_ && !(schema is Refuse),
        exists_ && schema is Current ==> r == Ok::<bool, String>(false),
        exists_ && schema is Record ==> r == Ok::<bool, String>(true),
        exists_ ==> (schema matches SchemaCheck::Refuse(why) ==> r is Err && r->Err_0@ == why@),
        !exists_ ==> r is Err && occurs_in(path@, r->Err_0@),
{
    if !exists_ {
        let e = r->Err_0@;
        let head = "Database does not exist at: "@;
        assert(e == head + path@);
        assert(e.subrange(head.len() as int, e.len() as int) =~= path@);
        assert(crate::text::occurs_at(e, path@, head.len() as int));
    }
}

/// A search explores fifteen candidates for each neighbour and tree.
pub proof fn law_search_effort(limit: usize, n_trees: usize, r: Option<usize>)
    requires
        limit * n_trees * 15 <= usize::MAX,
        call_ensures(search_k, (limit, n_trees), r),
    ensures
        limit == 0 || n_trees == 0 ==> r is None,
        limit > 0 && n_trees > 0 ==> r is Some && r->0 == 15 * (limit * n_trees),
{
    assert(limit * n_trees == 0 <==> limit == 0 || n_trees == 0) by (nonlinear_arith);
}

/// An error tells that the map is full when it says so, in either way.
pub proof fn law_full_maps(e: &str, r: bool)
    requires
        call_ensures(is_map_full_error, (e,), r),
    ensures
        r <==> occurs_in("MDB_MAP_FULL"@, e@) || occurs_in("map full"@, e@),
{
}

/// A file is a leftover when something stands before its `.del`, and nothing behind.
pub proof fn law_leftovers(name: &str, r: bool, stem: Seq<char>)
    requires
        call_ensures(is_stale_del_file, (name,), r),
    ensures
        stem.len() > 0 && name@ == stem + ".del"@ ==> r,
        r ==> exists|s: Seq<char>| s.len() > 0 && name@ == #[trigger] (s + ".del"@),
{
    reveal_strlit(".del");
    if r {
        let s = name@.take(name@.len() - 4);
        assert(name@ =~= s + ".del"@);
    }
    if stem.len() > 0 && name@ == stem + ".del"@ {
        assert(name@.skip(name@.len() - 4) =~= ".del"@);
    }
}

/// Whether a result shows the chunk that is stored under an id.
pub open spec fn shows(r: SearchResult, id: u32, m: ChunkMetadata, distance: u32) -> bool {
    &&& r.id == id
    &&& r.distance == distance
    &&& r.content@ == m.content@
    &&& r.path@ == m.path@
    &&& r.start_line == m.start_line
    &&& r.end_line == m.end_line
    &&& r.kind@ == m.kind@
    &&& r.hash@ == m.hash@
    &&& opt_text(r.signature) == opt_text(m.signature)
    &&& opt_text(r.docstring) == opt_text(m.docstring)
    &&& opt_text(r.context) == opt_text(m.context)
    &&& opt_text(r.context_prev) == opt_text(m.context_prev)
    &&& opt_text(r.context_next) == opt_text(m.context_next)
}

/// A chunk is shown as it is stored, with the distance it was found at; one that is fetched by
/// its id, at no distance.
pub proof fn law_a_chunk_is_shown_as_stored(
    v: VectorStore,
    id: u32,
    m: ChunkMetadata,
    distance: u32,
    a: SearchResult,
    b: Option<SearchResult>,
    c: Option<SearchResult>,
)
    requires
        call_ensures(chunk_as_result, (id, &m, distance), a),
        call_ensures(VectorStore::get_chunk_as_result, (&v, id, Some(&m)), b),
        call_ensures(VectorStore::get_chunk_as_result, (&v, id, None::<&ChunkMetadata>), c),
    ensures
        shows(a, id, m, distance),
        b is Some && shows(b->0, id, m, 0),
        c is None,
{
}

/// The results of a search are the neighbours with a stored chunk, in the order in which they
/// were found.
pub proof fn law_results_show_the_neighbours(
    v: VectorStore,
    found: Vec<Neighbour>,
    r: Vec<SearchResult>,
    k: int,
)
    requires
        call_ensures(VectorStore::search, (&v, &found), r),
    ensures
        r@.len() <= found@.len(),
        (forall|k: int| 0 <= k < found@.len() ==> (#[trigger] found@[k]).metadata is Some)
            ==> r@.len() == found@.len() && (0 <= k < r@.len() ==> r@[k].id == found@[k].id
            && r@[k].distance == found@[k].distance && r@[k].content@
            == found@[k].metadata->0.content@ && r@[k].start_line
            == found@[k].metadata->0.start_line && r@[k].end_line
            == found@[k].metadata->0.end_line && r@[k].path@ == found@[k].metadata->0.path@),
        0 <= k < r@.len() ==> exists|j: int|
            0 <= j < found@.len() && (#[trigger] found@[j]).metadata is Some && found@[j].id
                == r@[k].id && found@[j].distance == r@[k].distance
                && found@[j].metadata->0.path@ == r@[k].path@,
        0 <= k < found@.len() && found@[k].metadata is Some ==> exists|i: int|
            0 <= i < r@.len() && (#[trigger] r@[i]).id == found@[k].id && r@[i].distance
                == found@[k].distance && r@[i].path@ == found@[k].metadata->0.path@,
{
    law_results_are_the_neighbours(found@, r@);
    if 0 <= k < r@.len() {
        assert(r@[k].id == r@[k].id);
    }
    if 0 <= k < found@.len() {
        assert(found@[k].id == found@[k].id);
    }
}

/// The outline of a file shows its chunks as they are stored, one for each kind with a
/// signature and for each kind on some lines without one, the most recent of each, by their
/// lines.
pub proof fn law_outlines(
    v: VectorStore,
    rows: Vec<StoredChunk>,
    path: &str,
    r: Vec<ChunkMeta>,
    i: int,
    k: int,
    j: int,
)
    requires
        call_ensures(VectorStore::chunks_for_file, (&v, &rows, path), r),
    ensures
        file_keys(rows@, path@).finite(),
        r@.len() == file_keys(rows@, path@).len(),
        0 <= i < r@.len() ==> exists|j: int|
            0 <= j < rows@.len() && (#[trigger] rows@[j]).metadata.path@ == path@ && rows@[j].id
                == r@[i].id && rows@[j].metadata.kind@ == r@[i].kind@ && opt_text(
                rows@[j].metadata.signature,
            ) == opt_text(r@[i].signature) && rows@[j].metadata.start_line == r@[i].start_line
                && rows@[j].metadata.end_line == r@[i].end_line,
        0 <= j < rows@.len() && rows@[j].metadata.path@ == path@ ==> exists|i: int|
            0 <= i < r@.len() && has_key_of(#[trigger] r@[i], rows@[j]) && rows@[j].id <= r@[i].id,
        0 <= i < k < r@.len() ==> r@[i].start_line <= r@[k].start_line && (r@[i].kind@
            != r@[k].kind@ || opt_text(r@[i].signature) != opt_text(r@[k].signature) || (
        r@[i].signature is None && (r@[i].start_line != r@[k].start_line || r@[i].end_line
            != r@[k].end_line))),
{
    law_outline_has_an_entry_for_each_key(rows@, path@, r@);
    if 0 <= i < r@.len() {
        law_outline_shows_stored_chunks(rows@, path@, r@, i);
    }
    if 0 <= j < rows@.len() && rows@[j].metadata.path@ == path@ {
        law_outline_has_an_entry_for_each_chunk(rows@, path@, r@, j);
    }
    if 0 <= i < k < r@.len() {
        law_outline_has_no_key_twice(rows@, path@, r@, i, k);
    }
}

/// Chunks are grouped by their paths: each stands in the group of its path, there is one group
/// for a path, and a group holds chunks of its path only.
pub proof fn law_files_are_grouped(
    v: VectorStore,
    rows: Vec<StoredChunk>,
    r: Vec<FileChunks>,
    i: int,
    k: int,
    n: int,
    j: int,
)
    requires
        call_ensures(VectorStore::get_chunks_by_file, (&v, &rows), r),
    ensures
        0 <= j < rows@.len() ==> exists|i: int|
            0 <= i < r@.len() && (#[trigger] r@[i]).path@ == rows@[j].metadata.path@
                && r@[i].ids@.contains(rows@[j].id),
        0 <= j < rows@.len() && 0 <= i < k < r@.len() ==> r@[i].path@ != r@[k].path@,
        0 <= i < r@.len() && 0 <= n < r@[i].ids@.len() ==> exists|j: int|
            0 <= j < rows@.len() && (#[trigger] rows@[j]).metadata.path@ == r@[i].path@
                && rows@[j].id == r@[i].ids@[n],
{
    if 0 <= j < rows@.len() {
        law_each_chunk_stands_in_its_group(rows@, r@, j);
    }
    if 0 <= i < r@.len() && 0 <= n < r@[i].ids@.len() {
        law_groups_hold_chunks_of_their_path(rows@, r@, i, n);
    }
}

/// The statistics of a store count its chunks and its files, and tell its highest id.
pub proof fn law_store_statistics(v: VectorStore, rows: Vec<StoredChunk>, r: StoreStats, i: int)
    requires
        by_id(rows@),
        call_ensures(VectorStore::stats, (&v, &rows), r),
    ensures
        r.total_chunks == rows@.len(),
        r.total_files == rows@.map_values(|c: StoredChunk| c.metadata.path@).to_set().len(),
        r.indexed == v.indexed,
        r.dimensions == v.dimensions,
        0 <= i < rows@.len() ==> rows@[i].id <= r.max_chunk_id,
        rows@.len() == 0 ==> r.max_chunk_id == 0,
        rows@.len() > 0 ==> rows@[rows@.len() - 1].id == r.max_chunk_id,
{
    assert(rows@.map_values(|c: StoredChunk| c.metadata.path@) =~= paths_of(rows@));
}

/// The persisted size of a map is the number that its description holds; without one it is
/// the default.
pub proof fn law_the_persisted_size(
    metadata: Option<&str>,
    default_mb: u64,
    persisted: Option<u64>,
    r: u64,
)
    requires
        call_ensures(read_number, (metadata, "lmdb_map_size_mb"), persisted),
        call_ensures(read_persisted_map_size, (metadata, default_mb), r),
    ensures
        persisted matches Some(n) ==> r == n,
        persisted is None ==> r == default_mb,
{
}

/// A probe tells as many chunks as it was given, and that there is a graph where it was built.
pub proof fn law_the_health_of_an_index(
    v: VectorStore,
    total: usize,
    built: bool,
    r: (usize, bool),
)
    requires
        call_ensures(VectorStore::is_indexed, (&v,), built),
        call_ensures(VectorStore::index_health, (&v, total), r),
    ensures
        r.0 == total,
        r.1 <==> built,
{
}

} // verus!
