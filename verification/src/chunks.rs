//! The pieces of source code that an index holds, and what is read back from them.
use crate::order::{is_number_order, lemma_number_order_is_onto, number_order, number_ordered};
use crate::store::VectorStore;
use crate::text::{
    copy_opt, join_texts, joined, occurs_at, occurs_in, opt_text, same_text, texts,
};
use vstd::prelude::*;

verus! {

/// A piece of a source file. Its kind is the name of the kind, such as `Function`.
pub struct Chunk {
    pub content: String,
    pub start_line: usize,
    pub end_line: usize,
    pub kind: String,
    pub path: String,
    pub signature: Option<String>,
    pub docstring: Option<String>,
    pub context: Vec<String>,
    pub hash: String,
    pub context_prev: Option<String>,
    pub context_next: Option<String>,
}

/// A chunk with its embedding, each number of it by its IEEE 754 bits.
pub struct EmbeddedChunk {
    pub chunk: Chunk,
    pub embedding: Vec<u32>,
}

/// Chunk metadata stored in the database.
pub struct ChunkMetadata {
    pub content: String,
    pub path: String,
    pub start_line: usize,
    pub end_line: usize,
    pub kind: String,
    pub signature: Option<String>,
    pub docstring: Option<String>,
    pub context: Option<String>,
    pub hash: String,
    /// Lines of code immediately before this chunk (for context).
    pub context_prev: Option<String>,
    /// Lines of code immediately after this chunk (for context).
    pub context_next: Option<String>,
    /// Searchable text combining signature, name, and content for better searchability.
    pub searchable_text: String,
}

/// Chunk metadata stored in the database.
pub struct MetadataView {
    pub content: Seq<char>,
    pub path: Seq<char>,
    pub start_line: usize,
    pub end_line: usize,
    pub kind: Seq<char>,
    pub signature: Option<Seq<char>>,
    pub docstring: Option<Seq<char>>,
    pub context: Option<Seq<char>>,
    pub hash: Seq<char>,
    pub context_prev: Option<Seq<char>>,
    pub context_next: Option<Seq<char>>,
    pub searchable_text: Seq<char>,
}

impl View for ChunkMetadata {
    type V = MetadataView;

    open spec fn view(&self) -> MetadataView {
        MetadataView {
            content: self.content@,
            path: self.path@,
            start_line: self.start_line,
            end_line: self.end_line,
            kind: self.kind@,
            signature: opt_text(self.signature),
            docstring: opt_text(self.docstring),
            context: opt_text(self.context),
            hash: self.hash@,
            context_prev: opt_text(self.context_prev),
            context_next: opt_text(self.context_next),
            searchable_text: self.searchable_text@,
        }
    }
}

/// An optional text as a list of none or one.
pub open spec fn listed_text(t: Option<String>) -> Seq<Seq<char>> {
    match t {
        Some(s) => seq![s@],
        None => Seq::empty(),
    }
}

/// The text that a chunk is found by: its signature and its docstring where it has them, its
/// kind and its content, each on lines of its own.
pub open spec fn searchable(c: Chunk) -> Seq<char> {
    joined(
        listed_text(c.signature) + listed_text(c.docstring) + seq![c.kind@, c.content@],
        "\n"@,
    )
}

/// What is stored of a chunk.
pub open spec fn stored(c: Chunk) -> MetadataView {
    MetadataView {
        content: c.content@,
        path: c.path@,
        start_line: c.start_line,
        end_line: c.end_line,
        kind: c.kind@,
        signature: opt_text(c.signature),
        docstring: opt_text(c.docstring),
        context: if c.context@.len() == 0 {
            None
        } else {
            Some(joined(texts(c.context@), " > "@))
        },
        hash: c.hash@,
        context_prev: opt_text(c.context_prev),
        context_next: opt_text(c.context_next),
        searchable_text: searchable(c),
    }
}

impl ChunkMetadata {
    /// What is stored of a chunk.
    pub fn from_embedded_chunk(chunk: &EmbeddedChunk) -> (r: ChunkMetadata)
        ensures
            r@ == stored(chunk.chunk),
    {
        let c: &Chunk = &chunk.chunk;
        let mut parts: Vec<String> = Vec::new();
        if let Some(sig) = &c.signature {
            parts.push(sig.clone());
        }
        if let Some(doc) = &c.docstring {
            parts.push(doc.clone());
        }
        parts.push(c.kind.clone());
        parts.push(c.content.clone());
        assert(texts(parts@) =~= listed_text(c.signature) + listed_text(c.docstring) + seq![
            c.kind@,
            c.content@,
        ]);
        ChunkMetadata {
            content: c.content.clone(),
            path: c.path.clone(),
            start_line: c.start_line,
            end_line: c.end_line,
            kind: c.kind.clone(),
            signature: copy_opt(&c.signature),
            docstring: copy_opt(&c.docstring),
            context: if c.context.len() == 0 {
                None
            } else {
                Some(join_texts(&c.context, " > "))
            },
            hash: c.hash.clone(),
            context_prev: copy_opt(&c.context_prev),
            context_next: copy_opt(&c.context_next),
            searchable_text: join_texts(&parts, "\n"),
        }
    }
}

/// Lightweight chunk metadata used for file-outline style navigation.
pub struct ChunkMeta {
    pub id: u32,
    pub kind: String,
    pub signature: Option<String>,
    pub start_line: usize,
    pub end_line: usize,
}

/// Lightweight chunk metadata used for file-outline style navigation.
pub struct MetaView {
    pub id: u32,
    pub kind: Seq<char>,
    pub signature: Option<Seq<char>>,
    pub start_line: usize,
    pub end_line: usize,
}

impl View for ChunkMeta {
    type V = MetaView;

    open spec fn view(&self) -> MetaView {
        MetaView {
            id: self.id,
            kind: self.kind@,
            signature: opt_text(self.signature),
            start_line: self.start_line,
            end_line: self.end_line,
        }
    }
}

impl ChunkMeta {
    fn copy(&self) -> (r: ChunkMeta)
        ensures
            r@ == self@,
    {
        ChunkMeta {
            id: self.id,
            kind: self.kind.clone(),
            signature: copy_opt(&self.signature),
            start_line: self.start_line,
            end_line: self.end_line,
        }
    }
}

/// A stored chunk: its id and its metadata.
pub struct StoredChunk {
    pub id: u32,
    pub metadata: ChunkMetadata,
}

/// What the outline of a file tells of a stored chunk.
pub open spec fn outline_of(c: StoredChunk) -> MetaView {
    MetaView {
        id: c.id,
        kind: c.metadata.kind@,
        signature: opt_text(c.metadata.signature),
        start_line: c.metadata.start_line,
        end_line: c.metadata.end_line,
    }
}

/// Whether two entries stand for the same logical chunk. A signature identifies it
/// regardless of line drift; for unnamed blocks the lines are the best there is.
pub open spec fn same_chunk(a: MetaView, b: MetaView) -> bool {
    &&& a.kind == b.kind
    &&& match (a.signature, b.signature) {
        (Some(x), Some(y)) => x == y,
        (None, None) => a.start_line == b.start_line && a.end_line == b.end_line,
        _ => false,
    }
}

/// Whether the stored chunk `rows[j]` is one of the file `path`.
pub open spec fn in_file(rows: Seq<StoredChunk>, path: Seq<char>, j: int) -> bool {
    0 <= j < rows.len() && rows[j].metadata.path@ == path
}

/// Whether `m` tells of a chunk of the file.
pub open spec fn tells_of(rows: Seq<StoredChunk>, path: Seq<char>, m: MetaView) -> bool {
    exists|j: int| #[trigger] in_file(rows, path, j) && m == outline_of(rows[j])
}

/// Whether some entry of `out` stands for the same logical chunk as `m`, under an id that is
/// no lower.
pub open spec fn covered(out: Seq<ChunkMeta>, m: MetaView) -> bool {
    exists|i: int|
        0 <= i < out.len() && same_chunk((#[trigger] out[i])@, m) && m.id <= out[i].id
}

fn is_same_chunk(a: &ChunkMeta, b: &ChunkMeta) -> (r: bool)
    ensures
        r == same_chunk(a@, b@),
{
    if !same_text(a.kind.as_str(), b.kind.as_str()) {
        return false;
    }
    match (&a.signature, &b.signature) {
        (Some(x), Some(y)) => same_text(x.as_str(), y.as_str()),
        (None, None) => a.start_line == b.start_line && a.end_line == b.end_line,
        _ => false,
    }
}

/// Whether `out` lists the logical chunks of the file once each, by the chunk with the
/// highest id (the most recent one).
pub open spec fn outlines(rows: Seq<StoredChunk>, path: Seq<char>, out: Seq<ChunkMeta>) -> bool {
    &&& forall|i: int| 0 <= i < out.len() ==> tells_of(rows, path, (#[trigger] out[i])@)
    &&& forall|j: int| #[trigger]
        in_file(rows, path, j) ==> covered(out, outline_of(rows[j]))
    &&& forall|i: int, k: int|
        0 <= i < k < out.len() ==> !same_chunk((#[trigger] out[i])@, (#[trigger] out[k])@)
}

fn find_same(out: &Vec<ChunkMeta>, m: &ChunkMeta) -> (r: Option<usize>)
    ensures
        match r {
            Some(i) => i < out@.len() && same_chunk(out@[i as int]@, m@),
            None => forall|i: int|
                0 <= i < out@.len() ==> !same_chunk((#[trigger] out@[i])@, m@),
        },
{
    let mut i: usize = 0;
    while i < out.len()
        invariant
            i <= out@.len(),
            forall|k: int| 0 <= k < i ==> !same_chunk((#[trigger] out@[k])@, m@),
        decreases out.len() - i,
    {
        if is_same_chunk(&out[i], m) {
            return Some(i);
        }
        i += 1;
    }
    None
}

fn outline(rows: &Vec<StoredChunk>, path: &str) -> (out: Vec<ChunkMeta>)
    ensures
        outlines(rows@, path@, out@),
{
    let mut out: Vec<ChunkMeta> = Vec::new();
    let mut n: usize = 0;
    assert(outlines(rows@.take(0), path@, out@));
    while n < rows.len()
        invariant
            n <= rows@.len(),
            outlines(rows@.take(n as int), path@, out@),
        decreases rows.len() - n,
    {
        let ghost before = out@;
        let ghost seen = rows@.take(n as int);
        let ghost now = rows@.take(n + 1);
        proof {
            assert forall|j: int| #[trigger] in_file(now, path@, j) implies j == n || in_file(
                seen,
                path@,
                j,
            ) by {}
            assert forall|m: MetaView| #[trigger] tells_of(seen, path@, m) implies tells_of(
                now,
                path@,
                m,
            ) by {
                let j = choose|j: int| #[trigger] in_file(seen, path@, j) && m == outline_of(seen[j]);
                assert(in_file(now, path@, j));
            }
        }
        let row: &StoredChunk = &rows[n];
        if same_text(row.metadata.path.as_str(), path) {
            let m: ChunkMeta = ChunkMeta {
                id: row.id,
                kind: row.metadata.kind.clone(),
                signature: copy_opt(&row.metadata.signature),
                start_line: row.metadata.start_line,
                end_line: row.metadata.end_line,
            };
            let ghost mv = m@;
            assert(in_file(now, path@, n as int) && mv == outline_of(now[n as int]));
            match find_same(&out, &m) {
                Some(i) => {
                    if m.id > out[i].id {
                        out.set(i, m);
                        proof {
                            assert(out@[i as int]@ == mv);
                            assert forall|j: int| #[trigger] in_file(now, path@, j) implies covered(
                                out@,
                                outline_of(now[j]),
                            ) by {
                                if j != n {
                                    assert(in_file(seen, path@, j));
                                    assert(covered(before, outline_of(seen[j])));
                                    let k = choose|k: int|
                                        0 <= k < before.len() && same_chunk(
                                            (#[trigger] before[k])@,
                                            outline_of(seen[j]),
                                        ) && outline_of(seen[j]).id <= before[k].id;
                                    assert(same_chunk(out@[k]@, outline_of(now[j])));
                                } else {
                                    assert(same_chunk(out@[i as int]@, outline_of(now[j])));
                                }
                            }
                        }
                    } else {
                        proof {
                            assert forall|j: int| #[trigger] in_file(now, path@, j) implies covered(
                                out@,
                                outline_of(now[j]),
                            ) by {
                                if j != n {
                                    assert(in_file(seen, path@, j));
                                } else {
                                    assert(same_chunk(out@[i as int]@, outline_of(now[j])));
                                }
                            }
                        }
                    }
                },
                None => {
                    out.push(m);
                    proof {
                        assert(out@[before.len() as int]@ == mv);
                        assert forall|j: int| #[trigger] in_file(now, path@, j) implies covered(
                            out@,
                            outline_of(now[j]),
                        ) by {
                            if j != n {
                                assert(in_file(seen, path@, j));
                                let k = choose|k: int|
                                    0 <= k < before.len() && same_chunk(
                                        (#[trigger] before[k])@,
                                        outline_of(seen[j]),
                                    ) && outline_of(seen[j]).id <= before[k].id;
                                assert(same_chunk(out@[k]@, outline_of(now[j])));
                            } else {
                                assert(same_chunk(out@[before.len() as int]@, outline_of(now[j])));
                            }
                        }
                    }
                },
            }
        } else {
            assert forall|j: int| #[trigger] in_file(now, path@, j) implies covered(
                out@,
                outline_of(now[j]),
            ) by {
                assert(in_file(seen, path@, j));
            }
        }
        n += 1;
    }
    assert(rows@.take(rows@.len() as int) =~= rows@);
    out
}

impl VectorStore {
    /// Get lightweight metadata for all chunks in a file, in the order of their first lines. The
    /// paths of `rows` and `path` itself are normalized, so that they are compared as they stand.
    ///
    /// Historical snapshot duplicates are left out, keeping the highest chunk id (the most
    /// recent) per unique logical chunk.
    pub fn chunks_for_file(&self, rows: &Vec<StoredChunk>, path: &str) -> (r: Vec<ChunkMeta>)
        ensures
            outlines(rows@, path@, r@),
            forall|i: int, k: int|
                0 <= i < k < r@.len() ==> (#[trigger] r@[i]).start_line <= (
                #[trigger] r@[k]).start_line,
    {
        let out: Vec<ChunkMeta> = outline(rows, path);
        let mut keys: Vec<u64> = Vec::new();
        let mut i: usize = 0;
        while i < out.len()
            invariant
                i <= out@.len(),
                keys@.len() == i,
                forall|k: int| 0 <= k < i ==> #[trigger] keys@[k] == out@[k].start_line,
            decreases out.len() - i,
        {
            keys.push(out[i].start_line as u64);
            i += 1;
        }
        let order: Vec<usize> = number_order(&keys);
        let mut r: Vec<ChunkMeta> = Vec::new();
        let mut n: usize = 0;
        while n < order.len()
            invariant
                n <= order@.len(),
                is_number_order(keys@, order@),
                keys@.len() == out@.len(),
                r@.len() == n,
                forall|k: int| 0 <= k < n ==> (#[trigger] r@[k])@ == out@[order@[k] as int]@,
            decreases order.len() - n,
        {
            r.push(out[order[n]].copy());
            n += 1;
        }
        proof {
            assert forall|j: int| #[trigger] in_file(rows@, path@, j) implies covered(
                r@,
                outline_of(rows@[j]),
            ) by {
                assert(covered(out@, outline_of(rows@[j])));
                let k = choose|k: int|
                    0 <= k < out@.len() && same_chunk((#[trigger] out@[k])@, outline_of(rows@[j]))
                        && outline_of(rows@[j]).id <= out@[k].id;
                lemma_number_order_is_onto(keys@, order@, k);
                let p = choose|p: int| 0 <= p < order@.len() && #[trigger] order@[p] == k;
                assert(r@[p]@ == out@[k]@);
                assert(r@[p].id == r@[p]@.id);
            }
            assert forall|i: int, k: int| 0 <= i < k < r@.len() implies !same_chunk(
                (#[trigger] r@[i])@,
                (#[trigger] r@[k])@,
            ) && r@[i].start_line <= r@[k].start_line by {
                let x = order@[i] as int;
                let y = order@[k] as int;
                assert(number_ordered(keys@, x, y));
                assert(r@[i]@ == out@[x]@ && r@[k]@ == out@[y]@);
                assert(r@[i]@.start_line == r@[i].start_line);
                assert(r@[k]@.start_line == r@[k].start_line);
                assert(keys@[x] == out@[x].start_line);
                assert(keys@[y] == out@[y].start_line);
                if x < y {
                    assert(!same_chunk(out@[x]@, out@[y]@));
                } else {
                    assert(!same_chunk(out@[y]@, out@[x]@));
                }
            }
        }
        r
    }
}

/// The most recent chunk wins: no chunk of the file that stands for the same logical chunk as
/// an entry of its outline has a higher id than the entry.
pub proof fn law_outline_keeps_the_latest(
    rows: Seq<StoredChunk>,
    path: Seq<char>,
    out: Seq<ChunkMeta>,
    i: int,
    j: int,
)
    requires
        outlines(rows, path, out),
        0 <= i < out.len(),
        in_file(rows, path, j),
        same_chunk(out[i]@, outline_of(rows[j])),
    ensures
        rows[j].id <= out[i].id,
{
    let m = outline_of(rows[j]);
    assert(covered(out, m));
    let k = choose|k: int|
        0 <= k < out.len() && same_chunk((#[trigger] out[k])@, m) && m.id <= out[k].id;
    assert(same_chunk(out[i]@, out[k]@));
    assert(same_chunk(out[k]@, out[i]@));
    if k != i {
        assert(!same_chunk(out[i]@, out[k]@) || !same_chunk(out[k]@, out[i]@));
    }
}

/// The chunks of one file.
pub struct FileChunks {
    pub path: String,
    pub ids: Vec<u32>,
}

/// Whether a stored chunk is one of the file `path`.
pub open spec fn of_file(path: Seq<char>) -> spec_fn(StoredChunk) -> bool {
    |c: StoredChunk| c.metadata.path@ == path
}

/// The ids of the chunks of the file `path`, in order.
pub open spec fn ids_of(rows: Seq<StoredChunk>, path: Seq<char>) -> Seq<u32> {
    rows.filter(of_file(path)).map_values(|c: StoredChunk| c.id)
}

/// The paths of the stored chunks.
pub open spec fn paths_of(rows: Seq<StoredChunk>) -> Seq<Seq<char>> {
    rows.map_values(|c: StoredChunk| c.metadata.path@)
}

/// The paths of a grouping.
pub open spec fn group_paths(groups: Seq<FileChunks>) -> Seq<Seq<char>> {
    groups.map_values(|g: FileChunks| g.path@)
}

/// Whether `groups` lists every file of `rows` once, with all of its chunks.
pub open spec fn groups_files(rows: Seq<StoredChunk>, groups: Seq<FileChunks>) -> bool {
    &&& group_paths(groups).no_duplicates()
    &&& group_paths(groups).to_set() == paths_of(rows).to_set()
    &&& forall|i: int|
        0 <= i < groups.len() ==> (#[trigger] groups[i]).ids@ == ids_of(rows, groups[i].path@)
}

proof fn lemma_ids_step(rows: Seq<StoredChunk>, n: int, path: Seq<char>)
    requires
        0 <= n < rows.len(),
    ensures
        ids_of(rows.take(n + 1), path) == (if rows[n].metadata.path@ == path {
            ids_of(rows.take(n), path).push(rows[n].id)
        } else {
            ids_of(rows.take(n), path)
        }),
{
    reveal(Seq::filter);
    assert(rows.take(n + 1).drop_last() =~= rows.take(n));
    let was = rows.take(n).filter(of_file(path));
    let id_of = |c: StoredChunk| c.id;
    assert(was.push(rows[n]).map_values(id_of) =~= was.map_values(id_of).push(rows[n].id));
}

proof fn lemma_no_ids(rows: Seq<StoredChunk>, path: Seq<char>)
    requires
        !paths_of(rows).contains(path),
    ensures
        ids_of(rows, path) == Seq::<u32>::empty(),
    decreases rows.len(),
{
    reveal(Seq::filter);
    if rows.len() > 0 {
        let rest = rows.drop_last();
        assert forall|i: int| 0 <= i < rest.len() implies paths_of(rest)[i] != path by {
            assert(paths_of(rows)[i] != path);
        }
        lemma_no_ids(rest, path);
        assert(paths_of(rows)[rows.len() - 1] != path);
    }
    assert(ids_of(rows, path) =~= Seq::<u32>::empty());
}

fn group_at(groups: &Vec<FileChunks>, path: &str) -> (r: Option<usize>)
    ensures
        match r {
            Some(i) => i < groups@.len() && groups@[i as int].path@ == path@,
            None => !group_paths(groups@).contains(path@),
        },
{
    let mut i: usize = 0;
    while i < groups.len()
        invariant
            i <= groups@.len(),
            forall|k: int| 0 <= k < i ==> (#[trigger] groups@[k]).path@ != path@,
        decreases groups.len() - i,
    {
        if same_text(groups[i].path.as_str(), path) {
            return Some(i);
        }
        i += 1;
    }
    assert forall|k: int| 0 <= k < groups@.len() implies group_paths(groups@)[k] != path@ by {
        assert(groups@[k].path@ != path@);
    }
    None
}

impl VectorStore {
    /// Get all chunks grouped by file path: every file once, with the ids of all of its chunks in
    /// the order of the store.
    pub fn get_chunks_by_file(&self, rows: &Vec<StoredChunk>) -> (r: Vec<FileChunks>)
        ensures
            groups_files(rows@, r@),
    {
        let mut r: Vec<FileChunks> = Vec::new();
        let mut n: usize = 0;
        proof {
            assert(group_paths(r@).to_set() =~= paths_of(rows@.take(0)).to_set());
        }
        while n < rows.len()
            invariant
                n <= rows@.len(),
                groups_files(rows@.take(n as int), r@),
            decreases rows.len() - n,
        {
            let ghost before = r@;
            let ghost seen = rows@.take(n as int);
            let ghost now = rows@.take(n + 1);
            let ghost p = rows@[n as int].metadata.path@;
            let row: &StoredChunk = &rows[n];
            proof {
                assert(paths_of(now) =~= paths_of(seen).push(p));
                assert(paths_of(now).to_set() =~= paths_of(seen).to_set().insert(p)) by {
                    assert forall|q: Seq<char>| #[trigger] paths_of(now).to_set().contains(q) <==> (
                    paths_of(seen).to_set().contains(q) || q == p) by {
                        if paths_of(seen).contains(q) {
                            let k = choose|k: int|
                                0 <= k < paths_of(seen).len() && paths_of(seen)[k] == q;
                            assert(paths_of(now)[k] == q);
                        }
                        if q == p {
                            assert(paths_of(now)[n as int] == q);
                        }
                    }
                }
            }
            match group_at(&r, row.metadata.path.as_str()) {
                Some(i) => {
                    let mut group: FileChunks = FileChunks { path: String::new(), ids: Vec::new() };
                    std::mem::swap(&mut group, &mut r[i]);
                    group.ids.push(row.id);
                    r.set(i, group);
                    proof {
                        assert(group_paths(r@) =~= group_paths(before));
                        assert(group_paths(before)[i as int] == p);
                        assert(group_paths(before).to_set().contains(p));
                        assert(paths_of(now).to_set() =~= paths_of(seen).to_set());
                        assert forall|k: int| 0 <= k < r@.len() implies (#[trigger] r@[k]).ids@
                            == ids_of(now, r@[k].path@) by {
                            lemma_ids_step(rows@, n as int, r@[k].path@);
                            assert(before[k].ids@ == ids_of(seen, before[k].path@));
                            if k != i {
                                assert(group_paths(before)[k] != group_paths(before)[i as int]);
                            }
                        }
                    }
                },
                None => {
                    let mut ids: Vec<u32> = Vec::new();
                    ids.push(row.id);
                    r.push(FileChunks { path: row.metadata.path.clone(), ids });
                    proof {
                        assert(group_paths(r@) =~= group_paths(before).push(p));
                        assert(group_paths(r@).no_duplicates()) by {
                            assert forall|a: int, b: int|
                                0 <= a < b < group_paths(r@).len() implies group_paths(r@)[a]
                                != group_paths(r@)[b] by {
                                if b < before.len() {
                                    assert(group_paths(before)[a] != group_paths(before)[b]);
                                } else {
                                    assert(group_paths(before).contains(group_paths(before)[a]));
                                }
                            }
                        }
                        assert(group_paths(r@).to_set() =~= group_paths(before).to_set().insert(p)) by {
                            assert forall|q: Seq<char>| #[trigger]
                                group_paths(r@).to_set().contains(q) <==> (
                            group_paths(before).to_set().contains(q) || q == p) by {
                                if group_paths(before).contains(q) {
                                    let k = choose|k: int|
                                        0 <= k < group_paths(before).len() && group_paths(before)[k] == q;
                                    assert(group_paths(r@)[k] == q);
                                }
                                if q == p {
                                    assert(group_paths(r@)[before.len() as int] == q);
                                }
                            }
                        }
                        assert(!paths_of(seen).contains(p)) by {
                            if paths_of(seen).contains(p) {
                                assert(paths_of(seen).to_set().contains(p));
                                assert(group_paths(before).to_set().contains(p));
                            }
                        }
                        lemma_no_ids(seen, p);
                        assert forall|k: int| 0 <= k < r@.len() implies (#[trigger] r@[k]).ids@
                            == ids_of(now, r@[k].path@) by {
                            lemma_ids_step(rows@, n as int, r@[k].path@);
                            if k < before.len() {
                                assert(before[k].ids@ == ids_of(seen, before[k].path@));
                                assert(group_paths(before).contains(group_paths(before)[k]));
                            }
                        }
                    }
                },
            }
            n += 1;
        }
        assert(rows@.take(rows@.len() as int) =~= rows@);
        r
    }
}

/// Statistics about the vector store.
#[derive(Debug, Clone, Copy, PartialEq, Eq, Structural)]
pub struct StoreStats {
    pub total_chunks: usize,
    pub total_files: usize,
    pub indexed: bool,
    pub dimensions: usize,
    /// The highest chunk id in the store (or 0 if empty). This may be above `total_chunks`
    /// when chunks have been deleted.
    pub max_chunk_id: u32,
}

/// Whether the chunks stand in the order of their ids.
pub open spec fn by_id(rows: Seq<StoredChunk>) -> bool {
    forall|i: int, j: int| 0 <= i < j < rows.len() ==> (#[trigger] rows[i]).id < (#[trigger] rows[j]).id
}

impl VectorStore {
    /// The statistics of a store that holds `rows`, in the order of their ids.
    pub fn stats(&self, rows: &Vec<StoredChunk>) -> (r: StoreStats)
        requires
            by_id(rows@),
        ensures
            r.total_chunks == rows@.len(),
            r.total_files == paths_of(rows@).to_set().len(),
            r.indexed == self.indexed,
            r.dimensions == self.dimensions,
            forall|i: int| 0 <= i < rows@.len() ==> (#[trigger] rows@[i]).id <= r.max_chunk_id,
            if rows@.len() == 0 {
                r.max_chunk_id == 0
            } else {
                exists|i: int| 0 <= i < rows@.len() && (#[trigger] rows@[i]).id == r.max_chunk_id
            },
    {
        let files: Vec<FileChunks> = self.get_chunks_by_file(rows);
        proof {
            group_paths(files@).unique_seq_to_set();
        }
        let max_chunk_id: u32 = if rows.len() == 0 {
            0
        } else {
            rows[rows.len() - 1].id
        };
        assert(rows@.len() > 0 ==> rows@[rows@.len() - 1].id == max_chunk_id);
        StoreStats {
            total_chunks: rows.len(),
            total_files: files.len(),
            indexed: self.indexed,
            dimensions: self.dimensions,
            max_chunk_id,
        }
    }

    /// Cheap health probe: the number of chunks and whether the graph is there, without the
    /// scan that [`VectorStore::stats`] performs.
    pub fn index_health(&self, total_chunks: usize) -> (r: (usize, bool))
        ensures
            r == (total_chunks, self.indexed),
    {
        (total_chunks, self.indexed)
    }
}

/// A chunk that a search found, with its distance by its IEEE 754 bits.
pub struct SearchResult {
    pub id: u32,
    pub content: String,
    pub path: String,
    pub start_line: usize,
    pub end_line: usize,
    pub kind: String,
    pub signature: Option<String>,
    pub docstring: Option<String>,
    pub context: Option<String>,
    pub hash: String,
    pub distance: u32,
    /// Lines of code immediately before this chunk (for context).
    pub context_prev: Option<String>,
    /// Lines of code immediately after this chunk (for context).
    pub context_next: Option<String>,
}

/// Whether `r` is the chunk `id` with the metadata `m`, found at a distance.
pub open spec fn is_result(r: SearchResult, id: u32, m: MetadataView, distance: u32) -> bool {
    &&& r.id == id
    &&& r.content@ == m.content
    &&& r.path@ == m.path
    &&& r.start_line == m.start_line
    &&& r.end_line == m.end_line
    &&& r.kind@ == m.kind
    &&& opt_text(r.signature) == m.signature
    &&& opt_text(r.docstring) == m.docstring
    &&& opt_text(r.context) == m.context
    &&& r.hash@ == m.hash
    &&& r.distance == distance
    &&& opt_text(r.context_prev) == m.context_prev
    &&& opt_text(r.context_next) == m.context_next
}

/// A chunk as a search result at the given distance.
pub fn chunk_as_result(id: u32, m: &ChunkMetadata, distance: u32) -> (r: SearchResult)
    ensures
        is_result(r, id, m@, distance),
{
    SearchResult {
        id,
        content: m.content.clone(),
        path: m.path.clone(),
        start_line: m.start_line,
        end_line: m.end_line,
        kind: m.kind.clone(),
        signature: copy_opt(&m.signature),
        docstring: copy_opt(&m.docstring),
        context: copy_opt(&m.context),
        hash: m.hash.clone(),
        distance,
        context_prev: copy_opt(&m.context_prev),
        context_next: copy_opt(&m.context_next),
    }
}

/// A neighbour that the graph gave, and the metadata stored under its id, if there is any.
pub struct Neighbour {
    pub id: u32,
    pub distance: u32,
    pub metadata: Option<ChunkMetadata>,
}

/// Whether a neighbour has metadata.
pub open spec fn has_metadata() -> spec_fn(Neighbour) -> bool {
    |n: Neighbour| n.metadata is Some
}

impl VectorStore {
    /// The results of a search: the neighbours that have metadata, in order.
    pub fn search(&self, found: &Vec<Neighbour>) -> (r: Vec<SearchResult>)
        ensures
            r@.len() == found@.filter(has_metadata()).len(),
            forall|i: int|
                0 <= i < r@.len() ==> is_result(
                    #[trigger] r@[i],
                    found@.filter(has_metadata())[i].id,
                    found@.filter(has_metadata())[i].metadata->0@,
                    found@.filter(has_metadata())[i].distance,
                ),
    {
        let mut r: Vec<SearchResult> = Vec::new();
        let mut n: usize = 0;
        proof {
            reveal(Seq::filter);
        }
        while n < found.len()
            invariant
                n <= found@.len(),
                r@.len() == found@.take(n as int).filter(has_metadata()).len(),
                forall|i: int|
                    0 <= i < r@.len() ==> is_result(
                        #[trigger] r@[i],
                        found@.take(n as int).filter(has_metadata())[i].id,
                        found@.take(n as int).filter(has_metadata())[i].metadata->0@,
                        found@.take(n as int).filter(has_metadata())[i].distance,
                    ),
            decreases found.len() - n,
        {
            proof {
                reveal(Seq::filter);
                assert(found@.take(n + 1).drop_last() =~= found@.take(n as int));
            }
            match &found[n].metadata {
                Some(m) => {
                    r.push(chunk_as_result(found[n].id, m, found[n].distance));
                },
                None => {},
            }
            n += 1;
        }
        assert(found@.take(found@.len() as int) =~= found@);
        r
    }

    /// A chunk as a search result, if there is one under the id; its distance is zero.
    pub fn get_chunk_as_result(&self, id: u32, found: Option<&ChunkMetadata>) -> (r: Option<
        SearchResult,
    >)
        ensures
            match found {
                Some(m) => r matches Some(s) && is_result(s, id, m@, 0),
                None => r is None,
            },
    {
        match found {
            Some(m) => Some(chunk_as_result(id, m, 0)),
            None => None,
        }
    }
}

/// What is stored of a chunk agrees with the chunk in every field; the text that it is found by
/// holds its content, its kind, and its signature and docstring where it has them.
pub proof fn law_stored_chunk_agrees(c: Chunk)
    ensures
        stored(c).content == c.content@,
        stored(c).path == c.path@,
        stored(c).start_line == c.start_line,
        stored(c).end_line == c.end_line,
        stored(c).kind == c.kind@,
        c.signature is None <==> stored(c).signature is None,
        c.signature matches Some(t) ==> stored(c).signature == Some(t@),
        c.docstring is None <==> stored(c).docstring is None,
        c.docstring matches Some(t) ==> stored(c).docstring == Some(t@),
        stored(c).hash == c.hash@,
        c.context_prev is None <==> stored(c).context_prev is None,
        c.context_prev matches Some(t) ==> stored(c).context_prev == Some(t@),
        c.context_next is None <==> stored(c).context_next is None,
        c.context_next matches Some(t) ==> stored(c).context_next == Some(t@),
        stored(c).context is None <==> c.context@.len() == 0,
        c.context@.len() == 1 ==> stored(c).context == Some(c.context@[0]@),
        c.context@.len() == 2 ==> stored(c).context == Some(
            c.context@[0]@ + " > "@ + c.context@[1]@,
        ),
        forall|i: int|
            0 <= i < c.context@.len() ==> occurs_in(
                (#[trigger] c.context@[i])@,
                stored(c).context->0,
            ),
        occurs_in(c.content@, stored(c).searchable_text),
        occurs_in(c.kind@, stored(c).searchable_text),
        c.signature matches Some(t) ==> occurs_in(t@, stored(c).searchable_text),
        c.docstring matches Some(t) ==> occurs_in(t@, stored(c).searchable_text),
{
    let parts = listed_text(c.signature) + listed_text(c.docstring) + seq![c.kind@, c.content@];
    let n = parts.len();
    assert(parts[n - 1] == c.content@);
    assert(parts[n - 2] == c.kind@);
    lemma_part_occurs(parts, "\n"@, n - 1);
    lemma_part_occurs(parts, "\n"@, n - 2);
    if c.signature is Some {
        assert(parts[0] == c.signature->0@);
        lemma_part_occurs(parts, "\n"@, 0);
    }
    if c.docstring is Some {
        assert(parts[n - 3] == c.docstring->0@);
        lemma_part_occurs(parts, "\n"@, n - 3);
    }
    let names = texts(c.context@);
    assert forall|i: int| 0 <= i < c.context@.len() implies occurs_in(
        (#[trigger] c.context@[i])@,
        stored(c).context->0,
    ) by {
        lemma_part_occurs(names, " > "@, i);
        assert(names[i] == c.context@[i]@);
    }
    if names.len() == 2 {
        assert(names.drop_last().len() == 1);
        assert(joined(names.drop_last(), " > "@) == names[0]);
    }
}

/// Each of some texts stands in what they are joined to.
proof fn lemma_part_occurs(parts: Seq<Seq<char>>, sep: Seq<char>, i: int)
    requires
        0 <= i < parts.len(),
    ensures
        occurs_in(parts[i], joined(parts, sep)),
    decreases parts.len(),
{
    let all = joined(parts, sep);
    if parts.len() == 1 {
        assert(all.subrange(0, all.len() as int) =~= parts[0]);
        assert(occurs_at(all, parts[i], 0));
    } else if i == parts.len() - 1 {
        let at = all.len() - parts[i].len();
        assert(all.subrange(at, at + parts[i].len()) =~= parts[i]);
        assert(occurs_at(all, parts[i], at));
    } else {
        let before = joined(parts.drop_last(), sep);
        lemma_part_occurs(parts.drop_last(), sep, i);
        assert(parts.drop_last()[i] == parts[i]);
        let at = choose|at: int| occurs_at(before, parts[i], at);
        assert(all.subrange(at, at + parts[i].len()) =~= before.subrange(at, at + parts[i].len()));
        assert(occurs_at(all, parts[i], at));
    }
}

/// A search result shows the chunk that was found as it is stored, field by field, with its id
/// and its distance.
pub proof fn law_result_shows_the_stored_chunk(
    r: SearchResult,
    id: u32,
    m: ChunkMetadata,
    distance: u32,
)
    requires
        is_result(r, id, m@, distance),
    ensures
        r.id == id,
        r.distance == distance,
        r.content@ == m.content@,
        r.path@ == m.path@,
        r.start_line == m.start_line,
        r.end_line == m.end_line,
        r.kind@ == m.kind@,
        r.hash@ == m.hash@,
        opt_text(r.signature) == opt_text(m.signature),
        opt_text(r.docstring) == opt_text(m.docstring),
        opt_text(r.context) == opt_text(m.context),
        opt_text(r.context_prev) == opt_text(m.context_prev),
        opt_text(r.context_next) == opt_text(m.context_next),
{
}

/// Of the neighbours of a query those with a stored chunk are the results, in the order in which
/// they were found: every result shows a neighbour, and every neighbour with a chunk is shown.
pub proof fn law_results_are_the_neighbours(found: Seq<Neighbour>, r: Seq<SearchResult>)
    requires
        r.len() == found.filter(has_metadata()).len(),
        forall|i: int|
            0 <= i < r.len() ==> is_result(
                #[trigger] r[i],
                found.filter(has_metadata())[i].id,
                found.filter(has_metadata())[i].metadata->0@,
                found.filter(has_metadata())[i].distance,
            ),
    ensures
        r.len() <= found.len(),
        (forall|k: int| 0 <= k < found.len() ==> (#[trigger] found[k]).metadata is Some)
            ==> r.len() == found.len() && forall|i: int|
            0 <= i < r.len() ==> (#[trigger] r[i]).id == found[i].id && r[i].distance
                == found[i].distance && r[i].start_line == found[i].metadata->0.start_line
                && r[i].end_line == found[i].metadata->0.end_line && r[i].content@
                == found[i].metadata->0.content@ && r[i].path@ == found[i].metadata->0.path@,
        forall|i: int|
            0 <= i < r.len() ==> exists|k: int|
                0 <= k < found.len() && (#[trigger] found[k]).metadata is Some && found[k].id == (
                #[trigger] r[i]).id && found[k].distance == r[i].distance
                    && found[k].metadata->0.path@ == r[i].path@,
        forall|k: int|
            0 <= k < found.len() && (#[trigger] found[k]).metadata is Some ==> exists|i: int|
                0 <= i < r.len() && (#[trigger] r[i]).id == found[k].id && r[i].distance
                    == found[k].distance && r[i].path@ == found[k].metadata->0.path@,
{
    let f = has_metadata();
    let kept = found.filter(f);
    found.lemma_filter_len(f);
    assert forall|i: int| 0 <= i < r.len() implies exists|k: int|
        0 <= k < found.len() && (#[trigger] found[k]).metadata is Some && found[k].id == (
        #[trigger] r[i]).id && found[k].distance == r[i].distance && found[k].metadata->0.path@
            == r[i].path@ by {
        lemma_kept(found, f, i);
        let k = choose|k: int| 0 <= k < found.len() && #[trigger] found[k] == kept[i];
        assert(found[k].metadata is Some);
        assert(is_result(r[i], kept[i].id, kept[i].metadata->0@, kept[i].distance));
        assert(found[k].id == r[i].id);
    }
    assert forall|k: int| 0 <= k < found.len() && (#[trigger] found[k]).metadata is Some implies
        exists|i: int|
        0 <= i < r.len() && (#[trigger] r[i]).id == found[k].id && r[i].distance
            == found[k].distance && r[i].path@ == found[k].metadata->0.path@ by {
        found.lemma_filter_contains(f, k);
        let i = choose|i: int| 0 <= i < kept.len() && kept[i] == found[k];
        assert(is_result(r[i], kept[i].id, kept[i].metadata->0@, kept[i].distance));
        assert(r[i].id == found[k].id);
    }
    if forall|k: int| 0 <= k < found.len() ==> (#[trigger] found[k]).metadata is Some {
        lemma_all_kept(found, f);
        assert forall|i: int| 0 <= i < r.len() implies (#[trigger] r[i]).id == found[i].id
            && r[i].distance == found[i].distance && r[i].start_line
            == found[i].metadata->0.start_line && r[i].end_line == found[i].metadata->0.end_line
            && r[i].content@ == found[i].metadata->0.content@ && r[i].path@
            == found[i].metadata->0.path@ by {
            assert(is_result(r[i], kept[i].id, kept[i].metadata->0@, kept[i].distance));
        }
    }
}

proof fn lemma_kept<A>(s: Seq<A>, f: spec_fn(A) -> bool, i: int)
    requires
        0 <= i < s.filter(f).len(),
    ensures
        f(s.filter(f)[i]),
        exists|k: int| 0 <= k < s.len() && #[trigger] s[k] == s.filter(f)[i],
    decreases s.len(),
{
    reveal(Seq::filter);
    if s.len() > 0 {
        let rest = s.drop_last();
        if i < rest.filter(f).len() {
            lemma_kept(rest, f, i);
            let k = choose|k: int| 0 <= k < rest.len() && #[trigger] rest[k] == rest.filter(f)[i];
            assert(s[k] == s.filter(f)[i]);
        } else {
            assert(s[s.len() - 1] == s.filter(f)[i]);
        }
    }
}

proof fn lemma_all_kept<A>(s: Seq<A>, f: spec_fn(A) -> bool)
    requires
        forall|i: int| 0 <= i < s.len() ==> f(#[trigger] s[i]),
    ensures
        s.filter(f) == s,
    decreases s.len(),
{
    reveal(Seq::filter);
    if s.len() > 0 {
        let rest = s.drop_last();
        assert forall|i: int| 0 <= i < rest.len() implies f(#[trigger] rest[i]) by {
            assert(rest[i] == s[i]);
        }
        lemma_all_kept(rest, f);
        assert(f(s[s.len() - 1]));
        assert(s =~= rest.push(s.last()));
    } else {
        assert(s.filter(f) =~= s);
    }
}

/// What tells the logical chunks of a file apart: the kind with the signature, or, without a
/// signature, the kind with the lines.
pub open spec fn key_of(kind: Seq<char>, signature: Option<Seq<char>>, first: usize, last: usize) -> (
    Seq<char>,
    Option<Seq<char>>,
    Option<(usize, usize)>,
) {
    (
        kind,
        signature,
        if signature is Some {
            None
        } else {
            Some((first, last))
        },
    )
}

/// The key of a stored chunk.
pub open spec fn stored_key(c: StoredChunk) -> (
    Seq<char>,
    Option<Seq<char>>,
    Option<(usize, usize)>,
) {
    key_of(
        c.metadata.kind@,
        opt_text(c.metadata.signature),
        c.metadata.start_line,
        c.metadata.end_line,
    )
}

/// The key of an entry of an outline.
pub open spec fn entry_key(m: ChunkMeta) -> (
    Seq<char>,
    Option<Seq<char>>,
    Option<(usize, usize)>,
) {
    key_of(m.kind@, opt_text(m.signature), m.start_line, m.end_line)
}

/// The keys of the chunks of a file.
pub open spec fn file_keys(rows: Seq<StoredChunk>, path: Seq<char>) -> Set<
    (Seq<char>, Option<Seq<char>>, Option<(usize, usize)>),
> {
    Set::new(
        |key: (Seq<char>, Option<Seq<char>>, Option<(usize, usize)>)|
            exists|j: int|
                0 <= j < rows.len() && (#[trigger] rows[j]).metadata.path@ == path && stored_key(
                    rows[j],
                ) == key,
    )
}

/// The outline of a file shows chunks of the file and no others, each as it is stored.
pub proof fn law_outline_shows_stored_chunks(
    rows: Seq<StoredChunk>,
    path: Seq<char>,
    out: Seq<ChunkMeta>,
    i: int,
)
    requires
        outlines(rows, path, out),
        0 <= i < out.len(),
    ensures
        exists|j: int|
            0 <= j < rows.len() && (#[trigger] rows[j]).metadata.path@ == path && rows[j].id
                == out[i].id && rows[j].metadata.kind@ == out[i].kind@ && opt_text(
                rows[j].metadata.signature,
            ) == opt_text(out[i].signature) && rows[j].metadata.start_line == out[i].start_line
                && rows[j].metadata.end_line == out[i].end_line,
{
    assert(tells_of(rows, path, out[i]@));
    let j = choose|j: int| #[trigger] in_file(rows, path, j) && out[i]@ == outline_of(rows[j]);
    assert(out[i]@.id == out[i].id);
    assert(rows[j].metadata.path@ == path);
}

/// Whether an entry has the key of a stored chunk: its kind and its signature, or, without a
/// signature, its kind and its lines.
pub open spec fn has_key_of(m: ChunkMeta, c: StoredChunk) -> bool {
    &&& m.kind@ == c.metadata.kind@
    &&& opt_text(m.signature) == opt_text(c.metadata.signature)
    &&& c.metadata.signature is None ==> m.start_line == c.metadata.start_line && m.end_line
        == c.metadata.end_line
}

/// Every chunk of a file has an entry in its outline with its kind and its signature, or,
/// without a signature, with its kind and its lines, under an id that is no lower.
pub proof fn law_outline_has_an_entry_for_each_chunk(
    rows: Seq<StoredChunk>,
    path: Seq<char>,
    out: Seq<ChunkMeta>,
    j: int,
)
    requires
        outlines(rows, path, out),
        0 <= j < rows.len(),
        rows[j].metadata.path@ == path,
    ensures
        exists|i: int|
            0 <= i < out.len() && has_key_of(#[trigger] out[i], rows[j]) && rows[j].id <= out[i].id,
{
    assert(in_file(rows, path, j));
    let m = outline_of(rows[j]);
    let i = choose|i: int|
        0 <= i < out.len() && same_chunk((#[trigger] out[i])@, m) && m.id <= out[i].id;
    assert(has_key_of(out[i], rows[j]));
}

/// No two entries of an outline have the same key: entries of different kinds, or with
/// different signatures, or without signatures on different lines, are all there are.
pub proof fn law_outline_has_no_key_twice(
    rows: Seq<StoredChunk>,
    path: Seq<char>,
    out: Seq<ChunkMeta>,
    i: int,
    k: int,
)
    requires
        outlines(rows, path, out),
        0 <= i < k < out.len(),
    ensures
        out[i].kind@ != out[k].kind@ || opt_text(out[i].signature) != opt_text(out[k].signature) || (
        out[i].signature is None && (out[i].start_line != out[k].start_line || out[i].end_line
            != out[k].end_line)),
        entry_key(out[i]) != entry_key(out[k]),
{
    assert(!same_chunk(out[i]@, out[k]@));
}

/// The outline of a file has as many entries as there are keys among the chunks of the file.
pub proof fn law_outline_has_an_entry_for_each_key(
    rows: Seq<StoredChunk>,
    path: Seq<char>,
    out: Seq<ChunkMeta>,
)
    requires
        outlines(rows, path, out),
    ensures
        file_keys(rows, path).finite(),
        out.len() == file_keys(rows, path).len(),
{
    let keys = Seq::new(out.len(), |i: int| entry_key(out[i]));
    assert forall|i: int, k: int| 0 <= i < keys.len() && 0 <= k < keys.len() && i != k implies keys[i]
        != keys[k] by {
        if i < k {
            law_outline_has_no_key_twice(rows, path, out, i, k);
        } else {
            law_outline_has_no_key_twice(rows, path, out, k, i);
        }
    }
    assert forall|key: (Seq<char>, Option<Seq<char>>, Option<(usize, usize)>)| #[trigger]
        keys.to_set().contains(key) implies file_keys(rows, path).contains(key) by {
        let i = choose|i: int| 0 <= i < keys.len() && keys[i] == key;
        law_outline_shows_stored_chunks(rows, path, out, i);
    }
    assert forall|key: (Seq<char>, Option<Seq<char>>, Option<(usize, usize)>)| #[trigger]
        file_keys(rows, path).contains(key) implies keys.to_set().contains(key) by {
        let j = choose|j: int|
            0 <= j < rows.len() && (#[trigger] rows[j]).metadata.path@ == path && stored_key(
                rows[j],
            ) == key;
        law_outline_has_an_entry_for_each_chunk(rows, path, out, j);
        let i = choose|i: int|
            0 <= i < out.len() && has_key_of(#[trigger] out[i], rows[j]) && rows[j].id <= out[i].id;
        assert(entry_key(out[i]) == key);
        assert(keys[i] == key);
    }
    assert(keys.to_set() =~= file_keys(rows, path));
    keys.unique_seq_to_set();
}

/// The groups of the files have different paths, and each file of a store has one: a chunk
/// stands in the group of its path.
pub proof fn law_each_chunk_stands_in_its_group(
    rows: Seq<StoredChunk>,
    groups: Seq<FileChunks>,
    j: int,
)
    requires
        groups_files(rows, groups),
        0 <= j < rows.len(),
    ensures
        exists|i: int|
            0 <= i < groups.len() && (#[trigger] groups[i]).path@ == rows[j].metadata.path@
                && groups[i].ids@.contains(rows[j].id),
        forall|i: int, k: int|
            0 <= i < k < groups.len() ==> (#[trigger] groups[i]).path@ != (#[trigger] groups[k]).path@,
{
    let names = group_paths(groups);
    let p = rows[j].metadata.path@;
    assert(paths_of(rows)[j] == p);
    assert(paths_of(rows).to_set().contains(p));
    assert(names.to_set().contains(p));
    let i = choose|i: int| 0 <= i < names.len() && names[i] == p;
    rows.lemma_filter_contains(of_file(p), j);
    let kept = rows.filter(of_file(p));
    let n = choose|n: int| 0 <= n < kept.len() && kept[n] == rows[j];
    assert(groups[i].ids@[n] == rows[j].id);
    assert(groups[i].path@ == p);
    assert forall|i: int, k: int| 0 <= i < k < groups.len() implies (#[trigger] groups[i]).path@ != (
    #[trigger] groups[k]).path@ by {
        assert(names[i] != names[k]);
    }
}

/// A group holds the ids of chunks of its path, and no others.
pub proof fn law_groups_hold_chunks_of_their_path(
    rows: Seq<StoredChunk>,
    groups: Seq<FileChunks>,
    i: int,
    n: int,
)
    requires
        groups_files(rows, groups),
        0 <= i < groups.len(),
        0 <= n < groups[i].ids@.len(),
    ensures
        exists|j: int|
            0 <= j < rows.len() && (#[trigger] rows[j]).metadata.path@ == groups[i].path@
                && rows[j].id == groups[i].ids@[n],
{
    let p = groups[i].path@;
    let kept = rows.filter(of_file(p));
    assert(groups[i].ids@ == ids_of(rows, p));
    lemma_kept(rows, of_file(p), n);
    let j = choose|j: int| 0 <= j < rows.len() && #[trigger] rows[j] == kept[n];
    assert(rows[j].metadata.path@ == p);
    assert(rows[j].id == groups[i].ids@[n]);
}

} // verus!
