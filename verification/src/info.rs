//! What is told about a single repository: the size and the age of its index.
use crate::handlers::{refusal, refuse, Reply};
use crate::metadata::{
    document, is_text_member, number_member, read_index_metadata, stored_str, IndexMetadata,
};
use crate::state::ServeState;
use crate::text::{decimal, decimal_text};
use vstd::prelude::*;

verus! {

/// The format of a timestamp without a time zone.
pub open spec fn naive_format() -> Seq<char> {
    "%Y-%m-%dT%H:%M:%S%.f"@
}

/// The instant that `chrono::DateTime::parse_from_rfc3339` reads from a text, as the seconds
/// since the Unix epoch and the nanoseconds since the last whole second.
pub uninterp spec fn rfc3339_instant(text: Seq<char>) -> Option<(i64, u32)>;

/// The instant that `chrono::NaiveDateTime::parse_from_str` reads from a text in a format,
/// taken as UTC.
pub uninterp spec fn naive_instant(text: Seq<char>, format: Seq<char>) -> Option<(i64, u32)>;

/// Whether the pair is an instant that a `chrono::DateTime` can hold: within its range of
/// years, with nanoseconds that exceed a second only in the last second of a minute (a leap
/// second).
pub open spec fn is_instant(t: (i64, u32)) -> bool {
    &&& -8_334_601_228_800 <= t.0 <= 8_210_266_876_799
    &&& t.1 < 2_000_000_000
    &&& t.1 >= 1_000_000_000 ==> t.0 % 60 == 59
}

/// `nanos` nanoseconds in whole seconds, rounded towards zero.
pub open spec fn whole_seconds(nanos: int) -> int {
    if nanos >= 0 {
        nanos / 1_000_000_000
    } else {
        -((-nanos) / 1_000_000_000)
    }
}

/// The leap second that is counted beside the seconds from `then` to `now`: that of an instant
/// inside one, when the other comes later in the day.
pub open spec fn leap_second(now: (i64, u32), then: (i64, u32)) -> int {
    if now.0 % 86_400 > then.0 % 86_400 && then.1 >= 1_000_000_000 {
        1
    } else if now.0 % 86_400 < then.0 % 86_400 && now.1 >= 1_000_000_000 {
        -1
    } else {
        0
    }
}

/// The whole seconds from one instant to another, rounded towards zero.
pub open spec fn seconds_between(now: (i64, u32), then: (i64, u32)) -> int {
    whole_seconds(
        (now.0 - then.0 + leap_second(now, then)) * 1_000_000_000 + now.1 - then.1,
    )
}

/// `chrono::DateTime::parse_from_rfc3339`: the result depends on the text alone, and is an
/// instant that a `DateTime` can hold.
#[verifier::external_body]
fn parse_rfc3339(text: &str) -> (r: Option<(i64, u32)>)
    ensures
        r == rfc3339_instant(text@),
        r is Some ==> is_instant(r->0),
{
    match chrono::DateTime::parse_from_rfc3339(text) {
        Ok(t) => Some((t.timestamp(), t.timestamp_subsec_nanos())),
        Err(_) => None,
    }
}

/// `chrono::NaiveDateTime::parse_from_str`: the result depends on the text and the format
/// alone, and is an instant that a `DateTime` can hold.
#[verifier::external_body]
fn parse_naive(text: &str, format: &str) -> (r: Option<(i64, u32)>)
    ensures
        r == naive_instant(text@, format@),
        r is Some ==> is_instant(r->0),
{
    match chrono::NaiveDateTime::parse_from_str(text, format) {
        Ok(t) => Some((t.and_utc().timestamp(), t.and_utc().timestamp_subsec_nanos())),
        Err(_) => None,
    }
}

/// `chrono::DateTime::signed_duration_since` and `TimeDelta::num_seconds`: the difference of the
/// two instants in whole seconds, rounded towards zero. An instant inside a leap second counts
/// one second more to every instant later in the day, whatever the dates.
#[verifier::external_body]
fn count_seconds(now: (i64, u32), then: (i64, u32)) -> (r: i64)
    requires
        is_instant(now),
        is_instant(then),
    ensures
        r == seconds_between(now, then),
{
    let a = chrono::DateTime::from_timestamp(now.0, now.1).unwrap();
    let b = chrono::DateTime::from_timestamp(then.0, then.1).unwrap();
    a.signed_duration_since(b).num_seconds()
}

/// An age of `seconds` in words.
pub open spec fn age_words(seconds: int) -> Seq<char> {
    let mins = seconds / 60;
    if seconds < 60 {
        "just now"@
    } else if mins < 60 {
        decimal(mins as nat) + "m ago"@
    } else if mins / 60 < 24 {
        decimal((mins / 60) as nat) + "h ago"@
    } else {
        decimal((mins / 60 / 24) as nat) + "d ago"@
    }
}

/// An age of `seconds` in words: minutes below an hour, hours below a day, else days. What is
/// younger than a minute, or lies in the future, is from just now.
pub fn age_text(seconds: i64) -> (r: String)
    ensures
        r@ == age_words(seconds as int),
{
    if seconds < 60 {
        return "just now".to_owned();
    }
    let mins: u64 = (seconds / 60) as u64;
    if mins < 60 {
        let mut r: String = decimal_text(mins);
        r.push_str("m ago");
        r
    } else {
        let hours: u64 = mins / 60;
        if hours < 24 {
            let mut r: String = decimal_text(hours);
            r.push_str("h ago");
            r
        } else {
            let mut r: String = decimal_text(hours / 24);
            r.push_str("d ago");
            r
        }
    }
}

/// The instant of a timestamp; one without a time zone is taken as UTC.
pub open spec fn instant_of(text: Seq<char>) -> Option<(i64, u32)> {
    match rfc3339_instant(text) {
        Some(t) => Some(t),
        None => naive_instant(text, naive_format()),
    }
}

/// The age of a timestamp in words; what is no timestamp stands for itself.
pub open spec fn shown_age(text: Seq<char>, now: (i64, u32)) -> Seq<char> {
    match instant_of(text) {
        Some(t) => age_words(seconds_between(now, t)),
        None => text,
    }
}

/// Format an ISO 8601 timestamp as a human-readable age string. `now` is the current time, in
/// seconds and nanoseconds.
pub fn format_age(iso_ts: &str, now: (i64, u32)) -> (r: String)
    requires
        is_instant(now),
    ensures
        r@ == shown_age(iso_ts@, now),
{
    let parsed: Option<(i64, u32)> = match parse_rfc3339(iso_ts) {
        Some(t) => Some(t),
        None => parse_naive(iso_ts, "%Y-%m-%dT%H:%M:%S%.f"),
    };
    match parsed {
        Some(t) => age_text(count_seconds(now, t)),
        None => iso_ts.to_owned(),
    }
}

pub const KB: u64 = 1024;

pub const MB: u64 = 1024 * 1024;

pub const GB: u64 = 1024 * 1024 * 1024;

/// `n / d`, rounded to the nearest whole number, and half-way to the even one.
pub open spec fn nearest(n: nat, d: nat) -> nat {
    let q = n / d;
    let r = n % d;
    if 2 * r < d || (2 * r == d && q % 2 == 0) {
        q
    } else {
        q + 1
    }
}

/// The distance between neighbouring numbers of 53 significant bits around `n`.
pub open spec fn grain(n: nat) -> nat
    decreases n,
{
    if n < 0x20_0000_0000_0000 {
        1
    } else {
        2 * grain(n / 2)
    }
}

/// The number of 53 significant bits that is nearest to `n`.
pub open spec fn to_53_bits(n: nat) -> nat {
    nearest(n, grain(n)) * grain(n)
}

/// A size in bytes as shown: nothing is a dash; below 1 MB whole kilobytes, else megabytes or
/// gigabytes with one decimal.
pub open spec fn size_words(total: nat) -> Seq<char> {
    let bytes = to_53_bits(total);
    if total == 0 {
        "—"@
    } else if total >= GB {
        tenths_words(nearest(bytes * 10, GB as nat)) + " GB"@
    } else if total >= MB {
        tenths_words(nearest(bytes * 10, MB as nat)) + " MB"@
    } else {
        decimal(nearest(bytes, KB as nat)) + " KB"@
    }
}

/// A number of tenths with one decimal.
pub open spec fn tenths_words(tenths: nat) -> Seq<char> {
    decimal(tenths / 10) + "."@ + decimal(tenths % 10)
}

fn round_nearest(n: u128, d: u128) -> (r: u128)
    requires
        0 < d <= u128::MAX / 2,
    ensures
        r == nearest(n as nat, d as nat),
{
    let q: u128 = n / d;
    let r: u128 = n % d;
    if 2 * r < d || (2 * r == d && q % 2 == 0) {
        q
    } else {
        assert(q < u128::MAX) by {
            if d == 1 {
                assert(r == 0);
            } else {
                assert(q * 2 <= n) by (nonlinear_arith)
                    requires
                        q == n / d,
                        d >= 2,
                ;
            }
        }
        q + 1
    }
}

proof fn lemma_grain(n: nat)
    requires
        n <= u64::MAX,
    ensures
        1 <= grain(n) <= 2048,
{
    reveal_with_fuel(grain, 13);
    let g = grain(n);
    assert(g == 1 || g == 2 || g == 4 || g == 8 || g == 16 || g == 32 || g == 64 || g == 128 || g
        == 256 || g == 512 || g == 1024 || g == 2048);
}

fn round_to_53_bits(n: u64) -> (r: u128)
    ensures
        r == to_53_bits(n as nat),
        r <= 0x1_0000_0000_0000_0000,
{
    let mut g: u128 = 1;
    let mut m: u64 = n;
    proof {
        lemma_grain(n as nat);
    }
    while m >= 0x20_0000_0000_0000
        invariant
            1 <= g,
            g * grain(m as nat) == grain(n as nat),
            grain(m as nat) >= 1,
            grain(n as nat) <= 2048,
        decreases m,
    {
        proof {
            let h = grain((m / 2) as nat);
            lemma_grain((m / 2) as nat);
            assert(grain(m as nat) == 2 * h);
            assert(g * (2 * h) == (g * 2) * h) by (nonlinear_arith);
            assert(g * 2 <= (g * 2) * h) by (nonlinear_arith)
                requires
                    h >= 1,
                    g >= 1,
            ;
        }
        g = g * 2;
        m = m / 2;
    }
    assert(g == grain(n as nat)) by {
        assert(grain(m as nat) == 1);
        assert(g * 1 == g);
    }
    let q: u128 = round_nearest(n as u128, g);
    assert(q * g <= 0x1_0000_0000_0000_0000) by {
        lemma_grain(n as nat);
        lemma_rounded_fits(n as nat);
    }
    q * g
}

proof fn lemma_rounded_fits(n: nat)
    requires
        n <= u64::MAX,
    ensures
        nearest(n, grain(n)) * grain(n) <= 0x1_0000_0000_0000_0000,
{
    reveal_with_fuel(grain, 13);
    let g = grain(n);
    assert(g == 1 || g == 2 || g == 4 || g == 8 || g == 16 || g == 32 || g == 64 || g == 128 || g
        == 256 || g == 512 || g == 1024 || g == 2048);
}

fn tenths_text(tenths: u64) -> (r: String)
    ensures
        r@ == tenths_words(tenths as nat),
{
    let mut r: String = decimal_text(tenths / 10);
    r.push_str(".");
    let digit: String = decimal_text(tenths % 10);
    r.push_str(digit.as_str());
    r
}

/// The size of a directory whose files hold `total_bytes` in all, as a human-readable string.
pub fn dir_size_human(total_bytes: u64) -> (r: String)
    ensures
        r@ == size_words(total_bytes as nat),
{
    if total_bytes == 0 {
        return "—".to_owned();
    }
    let bytes: u128 = round_to_53_bits(total_bytes);
    if total_bytes >= GB {
        let mut r: String = tenths_text(round_nearest(bytes * 10, GB as u128) as u64);
        r.push_str(" GB");
        r
    } else if total_bytes >= MB {
        let mut r: String = tenths_text(round_nearest(bytes * 10, MB as u128) as u64);
        r.push_str(" MB");
        r
    } else {
        let mut r: String = decimal_text(round_nearest(bytes, KB as u128) as u64);
        r.push_str(" KB");
        r
    }
}

/// The statistics of an open vector store.
#[derive(Debug, Clone, Copy, PartialEq, Eq, Structural)]
pub struct LiveStats {
    pub total_chunks: u64,
    pub total_files: u64,
    pub max_chunk_id: u32,
    pub dimensions: u64,
    pub indexed: bool,
}

/// The open stores of a repository: whether they are read-only, and their statistics where
/// these could be read.
#[derive(Debug, Clone, Copy, PartialEq, Eq, Structural)]
pub struct OpenedIndex {
    pub readonly: bool,
    pub stats: Option<LiveStats>,
}

/// Live index stats for a single repo.
pub struct RepoInfo {
    pub path: String,
    pub chunks: u64,
    pub files: u64,
    pub max_chunk_id: u32,
    pub db_size_human: String,
    pub model: String,
    pub dims: u64,
    pub lock: &'static str,
    pub index_age: String,
    /// Is the HNSW graph built and committed? A non-zero `chunks` with `Some(false)` is a
    /// searchable-looking but silently dead index. `None` when the repo is not open, so that
    /// a consumer can tell "no graph" apart from "unknown".
    pub indexed: Option<bool>,
}

/// The number under `key`, 0 without one.
pub open spec fn stored_number(text: Option<&str>, key: Seq<char>) -> u64 {
    match number_member(stored_str(text), key) {
        Some(n) => n,
        None => 0,
    }
}

/// Whether there is a `metadata.json` that is JSON.
pub open spec fn is_described(text: Option<&str>) -> bool {
    text matches Some(t) && document(t@) is Some
}

/// Whether `shown` is the string under `key`, passed through `f`, or else `fallback`.
pub open spec fn shows_text(
    text: Option<&str>,
    key: Seq<char>,
    shown: Seq<char>,
    f: spec_fn(Seq<char>) -> Seq<char>,
    fallback: Seq<char>,
) -> bool {
    exists|s: Option<String>| #[trigger]
        is_text_member(stored_str(text), key, s) && shown == match s {
            Some(t) => if is_described(text) {
                f(t@)
            } else {
                fallback
            },
            None => fallback,
        }
}

/// The statistics of the open stores, where they could be read.
pub open spec fn live(opened: Option<OpenedIndex>) -> Option<LiveStats> {
    match opened {
        Some(o) => o.stats,
        None => None,
    }
}

fn or_zero(n: Option<u64>) -> (r: u64)
    ensures
        r == match n {
            Some(v) => v,
            None => 0u64,
        },
{
    match n {
        Some(v) => v,
        None => 0,
    }
}

/// Describes a repository from the text of its `metadata.json`, the statistics of its stores
/// where they are open, and the bytes that its database takes. Live statistics override the
/// metadata; the dimensions of the metadata stay where there are any.
pub fn repo_info(
    path: String,
    metadata: Option<&str>,
    opened: Option<OpenedIndex>,
    db_bytes: u64,
    now: (i64, u32),
) -> (r: RepoInfo)
    requires
        is_instant(now),
    ensures
        r.path@ == path@,
        r.chunks == match live(opened) {
            Some(s) => s.total_chunks,
            None => stored_number(metadata, "total_chunks"@),
        },
        r.files == match live(opened) {
            Some(s) => s.total_files,
            None => stored_number(metadata, "total_files"@),
        },
        r.max_chunk_id == match live(opened) {
            Some(s) => s.max_chunk_id,
            None => 0,
        },
        r.dims == match live(opened) {
            Some(s) => if stored_number(metadata, "dimensions"@) == 0 {
                s.dimensions
            } else {
                stored_number(metadata, "dimensions"@)
            },
            None => stored_number(metadata, "dimensions"@),
        },
        r.indexed == match live(opened) {
            Some(s) => Some(s.indexed),
            None => None,
        },
        r.lock@ == match opened {
            Some(o) => if o.readonly {
                "read"@
            } else {
                "write"@
            },
            None => "—"@,
        },
        r.db_size_human@ == size_words(db_bytes as nat),
        shows_text(metadata, "model_short_name"@, r.model@, |t: Seq<char>| t, "unknown"@),
        shows_text(
            metadata,
            "indexed_at"@,
            r.index_age@,
            |t: Seq<char>| shown_age(t, now),
            "—"@,
        ),
{
    let described: Option<IndexMetadata> = read_index_metadata(metadata);
    let mut chunks: u64 = 0;
    let mut files: u64 = 0;
    let mut dims: u64 = 0;
    let mut model: String = "unknown".to_owned();
    let mut index_age: String = "—".to_owned();
    match &described {
        Some(d) => {
            chunks = or_zero(d.total_chunks);
            files = or_zero(d.total_files);
            dims = or_zero(d.dimensions);
            if let Some(m) = &d.model {
                model = m.clone();
            }
            if let Some(at) = &d.indexed_at {
                index_age = format_age(at.as_str(), now);
            }
            assert(is_text_member(stored_str(metadata), "model_short_name"@, d.model));
            assert(is_text_member(stored_str(metadata), "indexed_at"@, d.indexed_at));
        },
        None => {
            assert(is_text_member(stored_str(metadata), "model_short_name"@, None));
            assert(is_text_member(stored_str(metadata), "indexed_at"@, None));
        },
    }
    let mut max_chunk_id: u32 = 0;
    let mut indexed: Option<bool> = None;
    let mut lock: &'static str = "—";
    if let Some(o) = opened {
        if let Some(s) = o.stats {
            chunks = s.total_chunks;
            files = s.total_files;
            max_chunk_id = s.max_chunk_id;
            indexed = Some(s.indexed);
            if dims == 0 {
                dims = s.dimensions;
            }
        }
        lock = if o.readonly {
            "read"
        } else {
            "write"
        };
    }
    RepoInfo {
        path,
        chunks,
        files,
        max_chunk_id,
        db_size_human: dir_size_human(db_bytes),
        model,
        dims,
        lock,
        index_age,
        indexed,
    }
}

/// What a failed diagnosis shows.
pub open spec fn failure_lines(what: Seq<char>, error: Seq<char>) -> Seq<Seq<char>> {
    seq![what + error, Seq::empty(), "  [Esc] close"@]
}

/// The lines that tell that a diagnosis failed: `what` and the error, a blank line, and how
/// to close the view.
pub fn doctor_failure(what: &str, error: &str) -> (r: Vec<String>)
    ensures
        crate::text::texts(r@) == failure_lines(what@, error@),
{
    let mut first: String = what.to_owned();
    first.push_str(error);
    let mut r: Vec<String> = Vec::new();
    r.push(first);
    r.push(String::new());
    r.push("  [Esc] close".to_owned());
    assert(crate::text::texts(r@) =~= failure_lines(what@, error@));
    r
}

impl ServeState {
    /// The name of the embedding model that the index of `alias` was built with, from the text
    /// of its `metadata.json`; none for an alias that is not registered, or an index that
    /// records no model.
    ///
    /// A query of the repository must be embedded with this model, never with that of another
    /// repository.
    pub fn model_for_alias(&self, alias: &str, metadata: Option<&str>) -> (r: Option<String>)
        ensures
            match r {
                Some(s) => {
                    &&& self@.config.resolve(alias@) is Some
                    &&& is_text_member(stored_str(metadata), "model_short_name"@, Some(s))
                },
                None => self@.config.resolve(alias@) is None || is_text_member(
                    stored_str(metadata),
                    "model_short_name"@,
                    None,
                ),
            },
    {
        if self.config().resolve(alias).is_none() {
            return None;
        }
        match read_index_metadata(metadata) {
            Some(d) => d.model,
            None => None,
        }
    }

    /// The path of the repository that a request for information or for a diagnosis names;
    /// an alias that is not registered is not found.
    pub fn info_requested(&self, alias: &str) -> (r: Result<String, Reply>)
        ensures
            match r {
                Ok(path) => self@.config.resolve(alias@) == Some(path@),
                Err(reply) => self@.config.resolve(alias@) is None && reply@ == refusal(
                    404,
                    "error"@,
                    "unknown repo alias: "@ + alias@,
                ),
            },
    {
        match self.config().resolve(alias) {
            Some(path) => Ok(path),
            None => {
                let mut error: String = "unknown repo alias: ".to_owned();
                error.push_str(alias);
                Err(refuse(404, "error", error))
            },
        }
    }
}

} // verus!
