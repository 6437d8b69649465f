//! What is told of an index: its age, its size and what its description says.
use crate::handlers::Reply;
use crate::info::{
    age_text, dir_size_human, doctor_failure, format_age, grain, is_instant, naive_instant, nearest,
    repo_info, rfc3339_instant, seconds_between, stored_number, tenths_words, to_53_bits, OpenedIndex, RepoInfo,
};
use crate::laws::opening::lemma_stands_between;
use crate::metadata::{
    document, ensure_schema_version, json_string, law_merged_number_reads_back, may_spell_raw_key,
    merge_metadata_number, number_member, raw_key, read_index_metadata, read_metadata_u32, read_number,
    recorded_schema, stored_str, IndexMetadata, SchemaCheck,
};
use crate::state::ServeState;
use crate::text::{decimal, occurs_in};
use vstd::prelude::*;

verus! {

/// An age is told in minutes below an hour, in hours below a day, and in days from there on;
/// below a minute it is just now.
pub proof fn law_ages(seconds: i64, r: String)
    requires
        call_ensures(age_text, (seconds,), r),
    ensures
        seconds < 60 ==> r@ == "just now"@,
        60 <= seconds < 3_600 ==> r@ == decimal((seconds / 60) as nat) + "m ago"@,
        3_600 <= seconds < 86_400 ==> r@ == decimal((seconds / 3_600) as nat) + "h ago"@,
        seconds >= 86_400 ==> r@ == decimal((seconds / 86_400) as nat) + "d ago"@,
{
}

proof fn lemma_nearest(n: nat, d: nat)
    requires
        d > 0,
    ensures
        2 * (nearest(n, d) * d) <= 2 * n + d,
        2 * n <= 2 * (nearest(n, d) * d) + d,
{
    let q = n / d;
    vstd::arithmetic::div_mod::lemma_fundamental_div_mod(n as int, d as int);
    assert(n == d * q + n % d && 0 <= n % d < d);
    assert(q * d == d * q && (q + 1) * d == d * q + d) by (nonlinear_arith);
}

/// A size is told in kilobytes below a megabyte, in megabytes with a tenth below a gigabyte,
/// and in gigabytes with a tenth from there on, each rounded to the nearest; nothing is told
/// of an empty one.
pub proof fn law_sizes(total: u64, r: String) -> (k: nat)
    requires
        call_ensures(dir_size_human, (total,), r),
        total < 0x20_0000_0000_0000,
    ensures
        total == 0 ==> r@ == "—"@,
        0 < total < 1_048_576 ==> r@ == decimal(k) + " KB"@ && total - 512 <= k * 1024 <= total
            + 512,
        1_048_576 <= total < 1_073_741_824 ==> r@ == decimal(k / 10) + "."@ + decimal(k % 10)
            + " MB"@ && 10 * total - 524_288 <= k * 1_048_576 <= 10 * total + 524_288,
        total >= 1_073_741_824 ==> r@ == decimal(k / 10) + "."@ + decimal(k % 10) + " GB"@ && 10
            * total - 536_870_912 <= k * 1_073_741_824 <= 10 * total + 536_870_912,
{
    let n = total as nat;
    assert(grain(n) == 1);
    lemma_nearest(n, 1);
    assert(nearest(n, 1) == n);
    assert(to_53_bits(n) == n);
    if n < 1_048_576 {
        lemma_nearest(n, 1024);
        nearest(n, 1024)
    } else if n < 1_073_741_824 {
        lemma_nearest(n * 10, 1_048_576);
        nearest(n * 10, 1_048_576)
    } else {
        lemma_nearest(n * 10, 1_073_741_824);
        nearest(n * 10, 1_073_741_824)
    }
}

/// What is told of a repository is what its open index counts, and else what its description
/// says; whether it is locked is told of an open one, and whether it is built of one that was
/// asked.
pub proof fn law_descriptions(
    path: String,
    metadata: Option<&str>,
    opened: Option<OpenedIndex>,
    bytes: u64,
    now: (i64, u32),
    r: RepoInfo,
    size: String,
    chunks: Option<u64>,
    files: Option<u64>,
    dims: Option<u64>,
    a: &str,
    b: &str,
    c: &str,
)
    requires
        is_instant(now),
        call_ensures(repo_info, (path, metadata, opened, bytes, now), r),
        call_ensures(dir_size_human, (bytes,), size),
        a@ == "total_chunks"@,
        b@ == "total_files"@,
        c@ == "dimensions"@,
        call_ensures(read_number, (metadata, a), chunks),
        call_ensures(read_number, (metadata, b), files),
        call_ensures(read_number, (metadata, c), dims),
    ensures
        ({
            let live = opened is Some && (opened->0).stats is Some;
            let s = (opened->0).stats->0;
            &&& r.path@ == path@
            &&& r.db_size_human@ == size@
            &&& live ==> r.chunks == s.total_chunks && r.files == s.total_files && r.max_chunk_id
                == s.max_chunk_id && r.indexed == Some(s.indexed)
            &&& !live ==> r.max_chunk_id == 0 && r.indexed is None
            &&& !live ==> (chunks matches Some(n) ==> r.chunks == n) && (chunks is None ==> r.chunks
                == 0)
            &&& !live ==> (files matches Some(n) ==> r.files == n) && (files is None ==> r.files
                == 0)
            &&& dims matches Some(n) ==> n > 0 ==> r.dims == n
            &&& live && (dims is None || dims == Some(0u64)) ==> r.dims == s.dimensions
            &&& !live && (dims is None || dims == Some(0u64)) ==> r.dims == 0
            &&& opened is None ==> r.lock@ == "—"@
            &&& opened is Some && (opened->0).readonly ==> r.lock@ == "read"@
            &&& opened is Some && !(opened->0).readonly ==> r.lock@ == "write"@
        }),
{
}

/// A description is read when it is a document, with the numbers that it has.
pub proof fn law_reading_a_description(
    text: Option<&str>,
    r: Option<IndexMetadata>,
    a: &str,
    b: &str,
    c: &str,
    chunks: Option<u64>,
    files: Option<u64>,
    dims: Option<u64>,
)
    requires
        call_ensures(read_index_metadata, (text,), r),
        a@ == "total_chunks"@,
        b@ == "total_files"@,
        c@ == "dimensions"@,
        call_ensures(read_number, (text, a), chunks),
        call_ensures(read_number, (text, b), files),
        call_ensures(read_number, (text, c), dims),
    ensures
        text is None ==> r is None,
        r matches Some(d) ==> d.total_chunks == chunks && d.total_files == files && d.dimensions
            == dims,
{
}

/// A number that is too large for its place is the largest that fits.
pub proof fn law_small_numbers(text: Option<&str>, key: &str, n: Option<u64>, r: Option<u32>)
    requires
        call_ensures(read_number, (text, key), n),
        call_ensures(read_metadata_u32, (text, key), r),
    ensures
        n is None <==> r is None,
        n matches Some(v) ==> v <= u32::MAX ==> r->0 == v,
        n matches Some(v) ==> v > u32::MAX ==> r->0 == u32::MAX,
{
}

/// A database without a version gets the current one; one with it opens; any other is refused,
/// and its version told.
pub proof fn law_versions(
    recorded: Option<u64>,
    r: SchemaCheck,
    text: Option<&str>,
    key: &str,
    n: Option<u64>,
    s: SchemaCheck,
)
    requires
        call_ensures(ensure_schema_version, (recorded,), r),
        key@ == "schema_version"@,
        call_ensures(read_number, (text, key), n),
        call_ensures(recorded_schema, (text,), s),
    ensures
        r is Record <==> recorded is None,
        r is Current <==> recorded == Some(1u64),
        r is Refuse <==> recorded is Some && recorded != Some(1u64),
        s is Record <==> n is None,
        s is Current <==> n == Some(1u64),
        s is Refuse <==> n is Some && n != Some(1u64),
        recorded matches Some(v) ==> (r matches SchemaCheck::Refuse(e) ==> occurs_in(
            decimal(v as nat),
            e@,
        )),
{
    if let Some(v) = recorded {
        let d = decimal(v as nat);
        let one = decimal(crate::metadata::SCHEMA_VERSION as nat);
        let h1 = "Database schema outdated: found v"@;
        let t1 = ", need v"@ + one + ". Run `codesearch index --force` to rebuild."@;
        lemma_stands_between(h1, d, t1);
        assert(h1 + d + t1 =~= crate::metadata::outdated_text(v));
        let h2 = "Database schema v"@;
        let t2 = " is newer than supported v"@ + one + ". Upgrade codesearch."@;
        lemma_stands_between(h2, d, t2);
        assert(h2 + d + t2 =~= crate::metadata::too_new_text(v));
    }
}

/// The path of a registered repository is told; one that is not registered is not found.
pub proof fn law_asking_for_a_description(s: ServeState, alias: &str, r: Result<String, Reply>)
    requires
        call_ensures(ServeState::info_requested, (&s, alias), r),
    ensures
        r is Ok <==> s@.config.resolve(alias@) is Some,
        r matches Ok(p) ==> s@.config.resolve(alias@) == Some(p@),
        r matches Err(a) ==> a.code == 404 && a.error is Some && occurs_in(
            alias@,
            (a.error->0)@,
        ),
{
    if let Err(a) = r {
        lemma_stands_between("unknown repo alias: "@, alias@, Seq::empty());
        assert("unknown repo alias: "@ + alias@ + Seq::<char>::empty()
            =~= "unknown repo alias: "@ + alias@);
        assert(a@.error == crate::text::opt_text(a.error));
    }
}

/// A failure is told with what failed and its error.
pub proof fn law_failures_of_the_doctor(what: &str, error: &str, r: Vec<String>)
    requires
        call_ensures(doctor_failure, (what, error), r),
    ensures
        r@.len() == 3,
        r@[0]@ == what@ + error@,
        r@[1]@.len() == 0,
{
    assert(crate::text::texts(r@).len() == r@.len());
    assert(crate::text::texts(r@)[0] == r@[0]@);
    assert(crate::text::texts(r@)[1] == r@[1]@);
}

/// A number that is written into a description is read back from it; a description that was an
/// object keeps its other numbers.
pub proof fn law_written_numbers_read_back(
    text: Option<&str>,
    key: &str,
    n: u64,
    r: Option<String>,
    written: &str,
    got: Option<u64>,
    other: &str,
    was: Option<u64>,
    is: Option<u64>,
)
    requires
        call_ensures(merge_metadata_number, (text, key, n), r),
        r matches Some(w) ==> written@ == w@,
        call_ensures(read_number, (Some(written), key), got),
        call_ensures(read_number, (text, other), was),
        call_ensures(read_number, (Some(written), other), is),
        key@ != raw_key(),
        text matches Some(t) ==> document(t@) is None || (document(t@)->0 is Ok
            && !may_spell_raw_key(t@)),
    ensures
        r is Some,
        got == Some(n),
        other@ != key@ && was is Some ==> is == was,
{
    let t = crate::text::opt_str(text);
    law_merged_number_reads_back(t, key@, n, written@, other@);
}

/// The model of a repository is told when it is registered and its description names one.
pub proof fn law_models(s: ServeState, alias: &str, metadata: Option<&str>, r: Option<String>)
    requires
        call_ensures(ServeState::model_for_alias, (&s, alias, metadata), r),
    ensures
        s@.config.resolve(alias@) is None ==> r is None,
        r matches Some(m) ==> stored_str(metadata) is Some && (stored_str(
            metadata,
        )->0).contains_key("model_short_name"@) && (stored_str(metadata)->0)["model_short_name"@]
            == json_string(m@),
{
}

/// A timestamp is told by its age, one without a time zone as if it had been written for UTC;
/// what is none stands for itself.
pub proof fn law_ages_of_timestamps(
    stamp: &str,
    now: (i64, u32),
    r: String,
    then: (i64, u32),
    seconds: i64,
    age: String,
)
    requires
        is_instant(now),
        call_ensures(format_age, (stamp, now), r),
        seconds == seconds_between(now, then),
        call_ensures(age_text, (seconds,), age),
    ensures
        rfc3339_instant(stamp@) == Some(then) ==> r@ == age@,
        rfc3339_instant(stamp@) is None && naive_instant(stamp@, "%Y-%m-%dT%H:%M:%S%.f"@) == Some(
            then,
        ) ==> r@ == age@,
        rfc3339_instant(stamp@) is None && naive_instant(stamp@, "%Y-%m-%dT%H:%M:%S%.f"@) is None
            ==> r@ == stamp@,
{
}

} // verus!
