use codesearch::chunks::{
    Chunk, ChunkMetadata, EmbeddedChunk, Neighbour, StoredChunk,
};
use codesearch::metadata::{
    ensure_schema_version, merge_metadata_number, read_index_metadata, read_metadata_u32,
    read_number, recorded_schema, SchemaCheck,
};
use codesearch::store::{
    is_map_full_error, is_stale_del_file, next_id_from, read_persisted_map_size,
    readonly_open_check, search_k, MapSizePins, StoreFacts, StoreOp, Transaction, VectorStore,
    WriteOutcome, WriteStep,
};
use std::collections::BTreeMap;

const MAX_MB: u64 = 8_192;

fn copy(m: &ChunkMetadata) -> ChunkMetadata {
    ChunkMetadata {
        content: m.content.clone(),
        path: m.path.clone(),
        start_line: m.start_line,
        end_line: m.end_line,
        kind: m.kind.clone(),
        signature: m.signature.clone(),
        docstring: m.docstring.clone(),
        context: m.context.clone(),
        hash: m.hash.clone(),
        context_prev: m.context_prev.clone(),
        context_next: m.context_next.clone(),
        searchable_text: m.searchable_text.clone(),
    }
}

/// A database in memory that runs the operations of a transaction all or nothing.
#[derive(Default)]
struct Disk {
    chunks: BTreeMap<u32, ChunkMetadata>,
    vectors: BTreeMap<u32, Vec<u32>>,
    mark: Option<u32>,
    built: bool,
}

impl Disk {
    fn facts(&self) -> StoreFacts {
        StoreFacts {
            last_key: self.chunks.keys().next_back().copied(),
            mark: self.mark,
            graph_opens: self.built,
        }
    }

    fn open(&self) -> VectorStore {
        VectorStore::new(4, self.facts(), 512)
    }

    /// Commits a transaction; for each deleted id, whether it was there.
    fn run(&mut self, t: &Transaction) -> Vec<bool> {
        let mut found = Vec::new();
        for op in &t.ops {
            match op {
                StoreOp::Delete(id) => {
                    found.push(self.chunks.remove(id).is_some());
                    self.vectors.remove(id);
                    self.built = false;
                }
                StoreOp::Put(id, vector, metadata) => {
                    self.chunks.insert(*id, copy(metadata));
                    self.vectors.insert(*id, vector.clone());
                    self.built = false;
                }
                StoreOp::SetMark(id) => self.mark = Some(*id),
                StoreOp::DropMark => self.mark = None,
                StoreOp::Clear => {
                    self.chunks.clear();
                    self.vectors.clear();
                    self.built = false;
                }
                StoreOp::Build => self.built = true,
            }
        }
        found
    }

    /// The nearest neighbours of a query by cosine distance, nearest first.
    fn nearest(&self, query: &[f32], limit: usize) -> Vec<Neighbour> {
        let norm = |v: &[f32]| v.iter().map(|x| x * x).sum::<f32>().sqrt();
        let mut found: Vec<(f32, u32)> = self
            .vectors
            .iter()
            .map(|(id, v)| {
                let v: Vec<f32> = v.iter().map(|x| f32::from_bits(*x)).collect();
                let dot: f32 = v.iter().zip(query).map(|(a, b)| a * b).sum();
                ((1.0 - dot / (norm(&v) * norm(query))) / 2.0, *id)
            })
            .collect();
        found.sort_by(|a, b| a.0.total_cmp(&b.0));
        found
            .into_iter()
            .take(limit)
            .map(|(distance, id)| Neighbour {
                id,
                distance: distance.to_bits(),
                metadata: self.chunks.get(&id).map(copy),
            })
            .collect()
    }

    fn rows(&self) -> Vec<StoredChunk> {
        self.chunks
            .iter()
            .map(|(id, m)| StoredChunk {
                id: *id,
                metadata: copy(m),
            })
            .collect()
    }
}

fn commit(store: &mut VectorStore, disk: &mut Disk, t: &Transaction) -> usize {
    let found = disk.run(t);
    match store.write_finished(t, &WriteOutcome::Committed(found), 1, MAX_MB) {
        WriteStep::Done(deleted) => deleted,
        _ => panic!("a committed transaction is done"),
    }
}

fn bits(v: &[f32]) -> Vec<u32> {
    v.iter().map(|x| x.to_bits()).collect()
}

fn chunk_at(path: &str, content: &str, lines: (usize, usize), kind: &str, v: &[f32]) -> EmbeddedChunk {
    EmbeddedChunk {
        chunk: Chunk {
            content: content.to_string(),
            start_line: lines.0,
            end_line: lines.1,
            kind: kind.to_string(),
            path: path.to_string(),
            signature: None,
            docstring: None,
            context: Vec::new(),
            hash: format!("hash-of-{content}"),
            context_prev: None,
            context_next: None,
        },
        embedding: bits(v),
    }
}

fn function(path: &str, content: &str, v: &[f32]) -> EmbeddedChunk {
    chunk_at(path, content, (0, 1), "Function", v)
}

fn insert(store: &mut VectorStore, disk: &mut Disk, chunks: Vec<EmbeddedChunk>) -> Vec<u32> {
    let t = store
        .insert_chunks_with_ids(&chunks)
        .expect("the embeddings fit")
        .expect("there are chunks");
    commit(store, disk, &t);
    t.ids
}

fn insert_one(store: &mut VectorStore, disk: &mut Disk, path: &str) -> u32 {
    let ids = insert(
        store,
        disk,
        vec![function(path, &format!("fn {path}() {{}}"), &[1.0, 0.0, 0.0, 0.0])],
    );
    assert_eq!(ids.len(), 1);
    ids[0]
}

fn delete(store: &mut VectorStore, disk: &mut Disk, ids: &[u32]) -> usize {
    let t = store.delete_chunks(&ids.to_vec()).expect("there are ids");
    commit(store, disk, &t)
}

fn build(store: &mut VectorStore, disk: &mut Disk) {
    if let Some(t) = store.build_index(!disk.built) {
        commit(store, disk, &t);
    }
}

fn indexed_store(disk: &mut Disk) -> VectorStore {
    let mut store = disk.open();
    insert(
        &mut store,
        disk,
        vec![function("auth.rs", "fn authenticate() {}", &[1.0, 0.0, 0.0, 0.0])],
    );
    build(&mut store, disk);
    store
}

fn drift_chunk(path: &str, content: &str, id: usize) -> EmbeddedChunk {
    chunk_at(path, content, (id, id), "Other", &[1.0, 0.0, 0.0, 0.0])
}

#[test]
fn a_failed_insert_hands_back_the_ids_it_consumed() {
    let mut disk = Disk::default();
    let mut store = disk.open();
    insert(&mut store, &mut disk, vec![drift_chunk("src/a.rs", "fn a() {}", 0)]);
    let before = store.next_id;

    let bad = vec![
        drift_chunk("src/b.rs", "fn b() {}", 1),
        // Wrong dimension: fails after the first chunk.
        chunk_at("src/c.rs", "fn c() {}", (2, 2), "Other", &[1.0, 0.0]),
    ];
    let refused = store.insert_chunks_with_ids(&bad);
    assert!(matches!(&refused, Err(e)
        if e == "Embedding dimension mismatch: expected 4, got 2"));
    assert_eq!(store.next_id, before);

    // An aborted transaction hands its ids back too.
    let t = store
        .insert_chunks(&vec![drift_chunk("src/d.rs", "fn d() {}", 3)])
        .unwrap()
        .unwrap();
    let step = store.write_finished(&t, &WriteOutcome::Aborted("disk full".to_string()), 1, MAX_MB);
    assert_eq!(step, WriteStep::GiveUp);
    assert_eq!(store.next_id, before);
}

#[test]
fn test_vector_store_creation() {
    let facts = StoreFacts {
        last_key: None,
        mark: None,
        graph_opens: false,
    };
    let store = VectorStore::new(384, facts, 512);
    assert_eq!(store.dimensions, 384);
    assert!(!store.is_indexed());
}

#[test]
fn pinned_map_size_is_stable_and_monotonic_per_path() {
    let mut pins = MapSizePins::new();
    let default_mb = 512;

    // First resolve pins the default (no metadata yet).
    let first = pins.resolve_map_size("/db", None, None, default_mb, MAX_MB);
    assert_eq!(first, default_mb);

    // A runtime resize raises the pin; subsequent resolves must reflect it.
    let grown = default_mb + 256;
    pins.pin_map_size("/db", grown, MAX_MB);
    assert_eq!(
        pins.resolve_map_size("/db", None, None, default_mb, MAX_MB),
        grown
    );

    // A SMALLER persisted size must NOT shrink the live pin.
    let metadata = merge_metadata_number(None, "lmdb_map_size_mb", default_mb).unwrap();
    assert_eq!(
        pins.resolve_map_size("/db", Some(&metadata), None, default_mb, MAX_MB),
        grown
    );
    // Another path has a pin of its own.
    assert_eq!(
        pins.resolve_map_size("/other", None, Some("600"), default_mb, MAX_MB),
        600
    );
}

#[test]
fn pinned_map_size_is_capped_at_max() {
    let mut pins = MapSizePins::new();
    let pinned = pins.pin_map_size("/db", MAX_MB + 4096, MAX_MB);
    assert_eq!(pinned, MAX_MB);
}

#[test]
fn test_insert_and_search() {
    let mut disk = Disk::default();
    let mut store = disk.open();
    let chunks = vec![
        function("auth.rs", "fn authenticate() {}", &[1.0, 0.0, 0.0, 0.0]),
        chunk_at("math.rs", "fn calculate() {}", (2, 3), "Function", &[0.0, 1.0, 0.0, 0.0]),
    ];
    let t = store.insert_chunks(&chunks).unwrap().unwrap();
    assert_eq!(t.ids.len(), 2);
    commit(&mut store, &mut disk, &t);
    let early = store.search_ready(4);
    assert!(matches!(&early, Err(e)
        if e == "Index not built. Call build_index() after inserting chunks."));
    build(&mut store, &mut disk);
    assert!(store.search_ready(4).is_ok());
    assert!(matches!(&store.search_ready(3), Err(e)
        if e == "Query embedding dimension mismatch: expected 4, got 3"));

    let query = [0.9, 0.1, 0.0, 0.0];
    let found = disk.nearest(&query, 2);
    let results = store.search(&found);
    assert_eq!(results.len(), 2);
    assert!(results[0].content.contains("authenticate"));
    assert_eq!(results[0].path, "auth.rs");
    assert!(results[1].content.contains("calculate"));
    assert_eq!(results[1].path, "math.rs");
    let score = |i: usize| 1.0 - f32::from_bits(results[i].distance);
    assert!(score(0) > score(1));
}

#[test]
fn a_neighbour_without_a_chunk_is_left_out() {
    let mut disk = Disk::default();
    let mut store = disk.open();
    insert_one(&mut store, &mut disk, "a.rs");
    let mut found = disk.nearest(&[1.0, 0.0, 0.0, 0.0], 1);
    found.push(Neighbour {
        id: 9,
        distance: 0.25f32.to_bits(),
        metadata: None,
    });
    let results = store.search(&found);
    assert_eq!(results.len(), 1);
    assert_eq!(results[0].path, "a.rs");
    assert_eq!(results[0].distance, found[0].distance);
}

#[test]
fn a_write_touches_only_the_ids_it_names() {
    let mut disk = Disk::default();
    let mut store = disk.open();
    for path in ["a.rs", "b.rs", "c.rs"] {
        insert_one(&mut store, &mut disk, path);
    }
    let fresh = vec![drift_chunk("d.rs", "D", 0)];
    let t = store.replace_chunks(&vec![0, 2], &fresh).unwrap().unwrap();
    commit(&mut store, &mut disk, &t);
    assert_eq!(t.ids, vec![3]);
    let live: Vec<u32> = disk.chunks.keys().copied().collect();
    assert_eq!(live, vec![1, 3]);
    assert_eq!(disk.vectors.keys().copied().collect::<Vec<u32>>(), live);
}

#[test]
fn opening_and_building_keep_the_store_in_step() {
    let mut disk = Disk::default();
    let mut store = disk.open();
    insert_one(&mut store, &mut disk, "a.rs");
    insert_one(&mut store, &mut disk, "b.rs");
    assert!(!disk.open().is_indexed());
    let t = store.build_index(true).unwrap();
    commit(&mut store, &mut disk, &t);
    assert!(disk.built);
    assert!(store.build_index(false).is_none());
    let again = disk.open();
    assert_eq!(again.next_id, store.next_id);
    assert!(again.is_indexed());
    assert!(disk.chunks.keys().all(|k| *k < again.next_id));
}

#[test]
fn test_stats() {
    let mut disk = Disk::default();
    let mut store = disk.open();
    insert(
        &mut store,
        &mut disk,
        vec![
            function("file1.rs", "fn test1() {}", &[1.0, 0.0, 0.0, 0.0]),
            function("file2.rs", "fn test2() {}", &[0.0, 1.0, 0.0, 0.0]),
        ],
    );
    build(&mut store, &mut disk);

    let stats = store.stats(&disk.rows());
    assert_eq!(stats.total_chunks, 2);
    assert_eq!(stats.total_files, 2);
    assert!(stats.indexed);
    assert_eq!(stats.dimensions, 4);
    assert_eq!(stats.max_chunk_id, 1);
    assert_eq!(store.index_health(disk.chunks.len()), (2, true));
}

#[test]
fn test_clear() {
    let mut disk = Disk::default();
    let mut store = indexed_store(&mut disk);
    assert_eq!(store.stats(&disk.rows()).total_chunks, 1);

    let t = store.clear();
    commit(&mut store, &mut disk, &t);

    let stats = store.stats(&disk.rows());
    assert_eq!(stats.total_chunks, 0);
    assert_eq!(stats.max_chunk_id, 0);
    assert!(!stats.indexed);
}

#[test]
fn test_get_chunk() {
    let mut disk = Disk::default();
    let mut store = disk.open();
    insert(
        &mut store,
        &mut disk,
        vec![function("test.rs", "fn test() {}", &[1.0, 0.0, 0.0, 0.0])],
    );
    let metadata = disk.chunks.get(&0).unwrap();
    assert_eq!(metadata.content, "fn test() {}");
    assert_eq!(metadata.path, "test.rs");
    let result = store.get_chunk_as_result(0, Some(metadata)).unwrap();
    assert_eq!(result.content, "fn test() {}");
    assert_eq!(result.distance, 0.0f32.to_bits());
    assert!(store.get_chunk_as_result(1, None).is_none());
}

#[test]
fn test_persistence() {
    let mut disk = Disk::default();
    let first = indexed_store(&mut disk);
    let reopened = disk.open();
    assert_eq!(reopened, first);
    assert_eq!(reopened.stats(&disk.rows()).total_chunks, 1);
    assert!(disk.chunks.contains_key(&0));
}

#[test]
fn test_chunks_for_file_returns_sorted_candidates_by_filter() {
    let mut disk = Disk::default();
    let mut store = disk.open();
    insert(
        &mut store,
        &mut disk,
        vec![
            chunk_at("src/a.rs", "fn a() {}", (0, 1), "Function", &[1.0, 0.0, 0.0, 0.0]),
            chunk_at("src/a.rs", "fn b() {}", (2, 3), "Function", &[0.9, 0.1, 0.0, 0.0]),
            chunk_at("src/other.rs", "fn c() {}", (0, 1), "Function", &[0.0, 1.0, 0.0, 0.0]),
        ],
    );
    let metas = store.chunks_for_file(&disk.rows(), "src/a.rs");
    assert_eq!(metas.len(), 2);
    assert!(metas.iter().all(|m| m.kind == "Function"));
    assert_eq!((metas[0].start_line, metas[1].start_line), (0, 2));
}

#[test]
fn the_outline_of_a_file_is_sorted_by_line() {
    let mut disk = Disk::default();
    let mut store = disk.open();
    insert(
        &mut store,
        &mut disk,
        vec![
            chunk_at("src/a.rs", "fn b() {}", (2, 3), "Function", &[0.9, 0.1, 0.0, 0.0]),
            chunk_at("src/a.rs", "fn a() {}", (0, 1), "Function", &[1.0, 0.0, 0.0, 0.0]),
        ],
    );
    let metas = store.chunks_for_file(&disk.rows(), "src/a.rs");
    let lines: Vec<usize> = metas.iter().map(|m| m.start_line).collect();
    assert_eq!(lines, vec![0, 2]);
}

#[test]
fn the_outline_of_a_file_keeps_the_most_recent_chunk() {
    let mut disk = Disk::default();
    let mut store = disk.open();
    let mut old = function("a.rs", "fn f() { 1 }", &[1.0, 0.0, 0.0, 0.0]);
    old.chunk.signature = Some("fn f()".to_string());
    let mut new = chunk_at("a.rs", "fn f() { 2 }", (7, 9), "Function", &[1.0, 0.0, 0.0, 0.0]);
    new.chunk.signature = Some("fn f()".to_string());
    let unnamed = chunk_at("a.rs", "// x", (3, 4), "Block", &[1.0, 0.0, 0.0, 0.0]);
    let same_lines = chunk_at("a.rs", "// y", (3, 4), "Block", &[1.0, 0.0, 0.0, 0.0]);
    insert(&mut store, &mut disk, vec![old, unnamed, new, same_lines]);
    let metas = store.chunks_for_file(&disk.rows(), "a.rs");
    let shown: Vec<(u32, usize)> = metas.iter().map(|m| (m.id, m.start_line)).collect();
    assert_eq!(shown, vec![(3, 3), (2, 7)]);
}

#[test]
fn chunks_are_grouped_by_file() {
    let mut disk = Disk::default();
    let mut store = disk.open();
    insert(
        &mut store,
        &mut disk,
        vec![
            drift_chunk("a.md", "A0", 0),
            drift_chunk("b.md", "B0", 1),
            drift_chunk("a.md", "A1", 2),
        ],
    );
    let files = store.get_chunks_by_file(&disk.rows());
    assert_eq!(files.len(), 2);
    assert_eq!((files[0].path.as_str(), files[0].ids.clone()), ("a.md", vec![0, 2]));
    assert_eq!((files[1].path.as_str(), files[1].ids.clone()), ("b.md", vec![1]));
}

#[test]
fn test_get_embedding_returns_vector_after_build() {
    let mut disk = Disk::default();
    let mut store = disk.open();
    insert(
        &mut store,
        &mut disk,
        vec![function("src/emb.rs", "fn emb() {}", &[1.0, 0.0, 0.0, 0.0])],
    );
    build(&mut store, &mut disk);
    let emb = disk.vectors.get(&0);
    assert!(emb.is_some());
    assert_eq!(emb.unwrap().len(), 4);
    assert_eq!(emb.unwrap(), &bits(&[1.0, 0.0, 0.0, 0.0]));
}

#[test]
fn reopen_after_top_of_range_delete_does_not_reuse_ids() {
    let mut disk = Disk::default();
    let mut store = disk.open();
    assert_eq!(insert_one(&mut store, &mut disk, "gen1/a.rs"), 0);
    assert_eq!(insert_one(&mut store, &mut disk, "gen1/b.rs"), 1);

    // Delete the top-of-range chunk (id 1): lowers the highest key to 0.
    assert_eq!(delete(&mut store, &mut disk, &[1]), 1);

    // Reopen: the next id comes from the persisted high-water mark.
    let mut store = disk.open();
    assert_eq!(insert_one(&mut store, &mut disk, "gen2/c.rs"), 2);

    assert!(!disk.chunks.contains_key(&1), "deleted id 1 must stay dead");
    assert_eq!(disk.chunks.get(&2).unwrap().path, "gen2/c.rs");
}

#[test]
fn reopen_after_full_delete_never_restarts_from_zero() {
    let mut disk = Disk::default();
    let mut store = disk.open();
    assert_eq!(insert_one(&mut store, &mut disk, "gen1/a.rs"), 0);
    assert_eq!(insert_one(&mut store, &mut disk, "gen1/b.rs"), 1);
    assert_eq!(insert_one(&mut store, &mut disk, "gen1/c.rs"), 2);

    assert_eq!(delete(&mut store, &mut disk, &[0, 1, 2]), 3);

    let mut store = disk.open();
    assert_eq!(insert_one(&mut store, &mut disk, "gen2/d.rs"), 3);
    for dead in 0..3 {
        assert!(!disk.chunks.contains_key(&dead), "deleted id {dead} must stay dead");
    }
}

#[test]
fn clear_resets_the_id_generation() {
    let mut disk = Disk::default();
    let mut store = disk.open();
    assert_eq!(insert_one(&mut store, &mut disk, "gen1/a.rs"), 0);
    let t = store.clear();
    commit(&mut store, &mut disk, &t);

    let mut store = disk.open();
    assert_eq!(insert_one(&mut store, &mut disk, "gen2/b.rs"), 0);
}

#[test]
fn reopen_without_mark_falls_back_to_live_keys() {
    let mut disk = Disk::default();
    let mut store = disk.open();
    assert_eq!(insert_one(&mut store, &mut disk, "gen1/a.rs"), 0);
    assert_eq!(insert_one(&mut store, &mut disk, "gen1/b.rs"), 1);

    // A legacy store: strip the mark, keep the data.
    disk.mark = None;

    let mut store = disk.open();
    assert_eq!(insert_one(&mut store, &mut disk, "gen2/c.rs"), 2);
}

#[test]
fn reopen_after_low_range_delete_keeps_remaining_ids_stable() {
    let mut disk = Disk::default();
    let mut store = disk.open();
    insert(
        &mut store,
        &mut disk,
        vec![
            drift_chunk("a.md", "content A0", 0),
            drift_chunk("a.md", "content A1", 1),
            drift_chunk("b.md", "content B0", 2),
            drift_chunk("b.md", "content B1", 3),
        ],
    );
    delete(&mut store, &mut disk, &[0, 1]);

    let mut store2 = disk.open();
    assert_eq!(store2.next_id, 4);

    assert_eq!(disk.chunks.get(&2).expect("id 2 must resolve").path, "b.md");

    let c_ids = insert(
        &mut store2,
        &mut disk,
        vec![drift_chunk("c.md", "content C0", 0)],
    );
    assert_eq!(c_ids, vec![4]);
}

#[test]
fn vector_store_is_shareable_across_threads() {
    fn assert_send_sync<T: Send + Sync>() {}
    assert_send_sync::<VectorStore>();
}

#[test]
fn inserts_into_an_indexed_store_publish_a_searchable_snapshot() {
    let mut disk = Disk::default();
    let mut store = indexed_store(&mut disk);
    insert(
        &mut store,
        &mut disk,
        vec![function("fresh.rs", "fn fresh() {}", &[0.0, 0.0, 1.0, 0.0])],
    );
    assert!(store.is_indexed());
    assert!(disk.built, "the commit publishes data and index together");
    assert!(store.search_ready(4).is_ok());
    assert!(disk.chunks.values().any(|m| m.content.contains("fresh")));
}

#[test]
fn deletes_from_an_indexed_store_publish_a_searchable_snapshot() {
    let mut disk = Disk::default();
    let mut store = indexed_store(&mut disk);
    let ids = insert(
        &mut store,
        &mut disk,
        vec![function("gone.rs", "fn gone() {}", &[0.0, 1.0, 0.0, 0.0])],
    );
    delete(&mut store, &mut disk, &ids);
    assert!(store.is_indexed());
    assert!(disk.built);
    assert!(disk.chunks.values().all(|m| !m.content.contains("gone")));
    assert!(disk.chunks.values().any(|m| m.content.contains("authenticate")));
}

#[test]
fn inserts_into_an_unbuilt_store_defer_the_build() {
    let mut disk = Disk::default();
    let mut store = disk.open();
    insert(
        &mut store,
        &mut disk,
        vec![function("a.rs", "fn a() {}", &[1.0, 0.0, 0.0, 0.0])],
    );
    assert!(!store.is_indexed());
    assert!(!disk.built);
    build(&mut store, &mut disk);
    assert!(store.is_indexed());
    assert!(store.build_index(false).is_none());
}

#[test]
fn replace_chunks_swaps_a_files_chunks_in_one_snapshot() {
    let mut disk = Disk::default();
    let mut store = indexed_store(&mut disk);
    let old = insert(
        &mut store,
        &mut disk,
        vec![function("lib.rs", "fn old_version() {}", &[0.0, 1.0, 0.0, 0.0])],
    );

    let t = store
        .replace_chunks(
            &old,
            &vec![function("lib.rs", "fn new_version() {}", &[0.0, 1.0, 0.0, 0.0])],
        )
        .unwrap()
        .unwrap();
    assert_eq!(commit(&mut store, &mut disk, &t), 1);

    assert_eq!(t.ids.len(), 1);
    assert!(store.is_indexed());
    assert!(disk.chunks.values().any(|m| m.content.contains("new_version")));
    assert!(disk.chunks.values().all(|m| !m.content.contains("old_version")));
    assert!(!disk.chunks.contains_key(&old[0]));
}

#[test]
fn nothing_to_do_writes_nothing() {
    let disk = Disk::default();
    let store = disk.open();
    assert!(store.delete_chunks(&vec![]).is_none());
    assert!(matches!(store.insert_chunks(&vec![]), Ok(None)));
    assert!(matches!(store.insert_chunks_with_ids(&vec![]), Ok(None)));
    assert!(matches!(store.replace_chunks(&vec![], &vec![]), Ok(None)));
}

#[test]
fn only_chunks_that_were_there_count_as_deleted() {
    let mut disk = Disk::default();
    let mut store = disk.open();
    insert_one(&mut store, &mut disk, "a.rs");
    assert_eq!(delete(&mut store, &mut disk, &[0, 0, 7]), 1);
}

#[test]
fn a_full_map_is_doubled_up_to_its_cap_and_three_attempts() {
    let disk = Disk::default();
    let mut store = disk.open();
    let mut pins = MapSizePins::new();
    let t = store
        .insert_chunks(&vec![drift_chunk("a.md", "A", 0)])
        .unwrap()
        .unwrap();
    let full = WriteOutcome::Aborted("MDB_MAP_FULL: map full".to_string());
    assert_eq!(store.write_finished(&t, &full, 1, 2_048), WriteStep::Resize(1_024));
    assert!(VectorStore::resize_allowed(1_024, 2_048).is_ok());
    store.resized(&mut pins, "/db", 1_024, 2_048);
    assert_eq!(store.map_size_mb, 1_024);
    assert_eq!(pins.pin_map_size("/db", 1, 2_048), 1_024);
    assert_eq!(store.write_finished(&t, &full, 2, 2_048), WriteStep::Resize(2_048));
    assert_eq!(store.write_finished(&t, &full, 3, 2_048), WriteStep::GiveUp);
    assert_eq!(store.write_finished(&t, &full, 1, 2_047), WriteStep::GiveUp);
    assert!(matches!(VectorStore::resize_allowed(4_096, 2_048), Err(e)
        if e == "Requested map size 4096MB exceeds MAX_LMDB_MAP_SIZE_MB 2048MB (set CODESEARCH_MAX_LMDB_MAP_SIZE_MB to raise this cap)"));
    assert!(is_map_full_error("the map full condition"));
    assert!(!is_map_full_error("MDB_NOTFOUND"));
}

#[test]
fn a_read_only_store_needs_its_tables() {
    let facts = StoreFacts {
        last_key: Some(4),
        mark: Some(9),
        graph_opens: true,
    };
    let store = VectorStore::open_readonly(4, true, true, true, facts, 512).unwrap();
    assert_eq!((store.next_id, store.indexed, store.marked), (10, true, true));
    let legacy = VectorStore::open_readonly(4, true, true, false, facts, 512).unwrap();
    assert_eq!((legacy.next_id, legacy.marked), (5, false));
    assert_eq!(
        VectorStore::open_readonly(4, false, true, true, facts, 512),
        Err("vectors database not found".to_string())
    );
    assert_eq!(
        VectorStore::open_readonly(4, true, false, true, facts, 512),
        Err("chunks database not found".to_string())
    );
    assert_eq!(next_id_from(None, None), 0);
    assert_eq!(next_id_from(Some(3), Some(u32::MAX)), u32::MAX);
}

#[test]
fn a_database_of_another_format_is_refused() {
    assert!(matches!(
        readonly_open_check("/db", true, ensure_schema_version(Some(1))),
        Ok(false)
    ));
    assert!(matches!(
        readonly_open_check("/db", true, ensure_schema_version(None)),
        Ok(true)
    ));
    assert!(matches!(readonly_open_check("/db", false, SchemaCheck::Current), Err(e)
        if e == "Database does not exist at: /db"));
    assert!(matches!(readonly_open_check("/db", true, ensure_schema_version(Some(0))), Err(e)
        if e.contains("found v0, need v1")));
    assert!(matches!(readonly_open_check("/db", true, ensure_schema_version(Some(2))), Err(e)
        if e.contains("newer than supported v1")));
}

#[test]
fn search_explores_more_candidates_with_more_trees() {
    assert_eq!(search_k(10, 4), Some(600));
    assert_eq!(search_k(10, 0), None);
    assert_eq!(search_k(0, 4), None);
}

#[test]
fn leftovers_of_a_crash_are_known_by_their_extension() {
    assert!(is_stale_del_file("data.del"));
    assert!(!is_stale_del_file(".del"));
    assert!(!is_stale_del_file("data.mdb"));
    assert!(!is_stale_del_file("delx"));
}

#[test]
fn stored_metadata_combines_what_a_chunk_is_found_by() {
    let mut c = function("a.rs", "fn f() {}", &[1.0, 0.0, 0.0, 0.0]);
    c.chunk.signature = Some("fn f()".to_string());
    c.chunk.docstring = Some("Does f.".to_string());
    c.chunk.context = vec!["File: a.rs".to_string(), "Impl: A".to_string()];
    let m = ChunkMetadata::from_embedded_chunk(&c);
    assert_eq!(m.searchable_text, "fn f()\nDoes f.\nFunction\nfn f() {}");
    assert_eq!(m.context.as_deref(), Some("File: a.rs > Impl: A"));
    let plain = function("a.rs", "x", &[1.0, 0.0, 0.0, 0.0]);
    let m = ChunkMetadata::from_embedded_chunk(&plain);
    assert_eq!(m.searchable_text, "Function\nx");
    assert!(m.context.is_none());
}

#[test]
fn a_newer_schema_is_refused_however_large() {
    let newer = r#"{"schema_version": 4294967297}"#;
    assert!(matches!(recorded_schema(Some(newer)), SchemaCheck::Refuse(e)
        if e == "Database schema v4294967297 is newer than supported v1. Upgrade codesearch."));
    assert!(matches!(
        recorded_schema(Some(r#"{"schema_version": 1}"#)),
        SchemaCheck::Current
    ));
    assert!(matches!(recorded_schema(Some(r#"{"schema_version": 0}"#)), SchemaCheck::Refuse(e)
        if e.starts_with("Database schema outdated: found v0, need v1.")));
    assert!(matches!(recorded_schema(Some("{}")), SchemaCheck::Record));
    assert!(matches!(recorded_schema(None), SchemaCheck::Record));
}

#[test]
fn a_number_merged_into_metadata_reads_back() {
    let text = r#"{"model_short_name":"mini","dimensions":384,"total_chunks":7,"x":[1,{"y":2}]}"#;
    let merged = merge_metadata_number(Some(text), "schema_version", 1).unwrap();
    assert_eq!(read_metadata_u32(Some(&merged), "schema_version"), Some(1));
    assert_eq!(read_number(Some(&merged), "dimensions"), Some(384));
    let d = read_index_metadata(Some(&merged)).unwrap();
    assert_eq!(d.model.as_deref(), Some("mini"));
    assert_eq!(d.total_chunks, Some(7));
    assert_eq!(d.total_files, None);
    assert!(d.indexed_at.is_none());
    // What is not JSON starts afresh.
    let fresh = merge_metadata_number(Some("not json"), "lmdb_map_size_mb", 512).unwrap();
    assert_eq!(read_persisted_map_size(Some(&fresh), 1), 512);
    assert_eq!(read_persisted_map_size(None, 1), 1);
    assert!(read_index_metadata(Some("not json")).is_none());
    assert_eq!(read_metadata_u32(Some(r#"{"v":4294967295}"#), "v"), Some(u32::MAX));
    assert_eq!(read_metadata_u32(Some(r#"{"v":4294967297}"#), "v"), Some(u32::MAX));
    assert_eq!(read_number(Some(r#"{"v":-1}"#), "v"), None);
}

const RAW_KEY: &str = "$serde_json::private::RawValue";

#[test]
fn a_number_under_the_reserved_key_does_not_read_back() {
    let written = merge_metadata_number(None, RAW_KEY, 5).unwrap();
    assert_eq!(read_number(Some(&written), RAW_KEY), None);
    assert!(read_index_metadata(Some(&written)).is_none());

    // Behind a smaller key it is read as any other member, and sorting keeps it there.
    let text = format!("{{\"!\": 1, \"{RAW_KEY}\": 2}}");
    assert_eq!(read_number(Some(&text), RAW_KEY), Some(2));
    let written = merge_metadata_number(Some(&text), "schema_version", 1).unwrap();
    assert_eq!(read_number(Some(&written), "schema_version"), Some(1));

    // Behind a larger one, sorting brings it to the front, where it is reserved.
    let text = format!("{{\"a\": 1, \"{RAW_KEY}\": 2}}");
    assert_eq!(read_number(Some(&text), "a"), Some(1));
    let written = merge_metadata_number(Some(&text), "schema_version", 1).unwrap();
    assert_eq!(read_number(Some(&written), "schema_version"), None);
}

#[test]
fn merging_keeps_nested_documents() {
    let nested = format!("{}1{}", "[".repeat(126), "]".repeat(126));
    let text = format!("{{\"deep\": {nested}, \"n\": 7, \"path\": \"C:\\\\x [{{\"}}");
    let written = merge_metadata_number(Some(&text), "schema_version", 1).unwrap();
    assert_eq!(read_number(Some(&written), "n"), Some(7));
    assert_eq!(read_number(Some(&written), "schema_version"), Some(1));

    // One level more is not read at all, so that a new object is begun.
    let text = format!("{{\"deep\": [{nested}], \"n\": 7}}");
    assert_eq!(read_number(Some(&text), "n"), None);
    let written = merge_metadata_number(Some(&text), "schema_version", 1).unwrap();
    assert_eq!(read_number(Some(&written), "n"), None);
    assert_eq!(read_number(Some(&written), "schema_version"), Some(1));

    // A document that is no object stays as it is.
    let written = merge_metadata_number(Some("[1, 2]"), "schema_version", 1).unwrap();
    assert_eq!(read_number(Some(&written), "schema_version"), None);
    assert!(read_index_metadata(Some(&written)).is_some());
}

#[test]
fn strings_survive_a_merge() {
    let odd = "q\" b\\ s/ \u{8}\t\n\u{c}\r\u{0}\u{1f}\u{7f} é 🧠";
    let text = format!("{{\"model_short_name\": {}}}", serde_json::Value::from(odd));
    assert_eq!(
        text,
        "{\"model_short_name\": \"q\\\" b\\\\ s/ \\b\\t\\n\\f\\r\\u0000\\u001f\u{7f} é 🧠\"}"
    );
    let written = merge_metadata_number(Some(&text), "dimensions", 384).unwrap();
    let told = read_index_metadata(Some(&written)).unwrap();
    assert_eq!(told.model.as_deref(), Some(odd));
    assert_eq!(told.dimensions, Some(384));
    assert_eq!(told.indexed_at, None);
}
