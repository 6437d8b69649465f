//! Every scrape is an exposition.
use crate::exposition::{
    at_most_ms, bucket_bounds, buckets_words, family_words, fraction, histogram_words,
    sample_words, single_words, total, Kind,
};
use crate::grammar::{
    are_labels, exposes, families_text, family_text, is_exposition, is_family, is_label_name,
    is_metric_name, is_sample_of, is_value, lemma_decimal_is_a_value, lemma_families_join,
    lemma_fraction_is_a_value, lemma_is_name, lemma_more_samples, lemma_no_samples,
    lemma_one_sample, lemma_samples_behind, names_from, samples_text, writes_samples, FamilyView,
    SampleView,
};
use crate::metrics::{
    alias_at, battery_words, calls_words, durations_words, each, event_words, failures_words,
    flag_words, governor_words, has_status, inputs_words, is_queued, job_words, latency_words,
    memory_words, or_unset, other_cpu_words, overall_name, pause_categories, paused_for,
    paused_words, pressure_words, process_words, qos_words, quantile_words, read_max_words,
    repo_family_words, repo_info_words, repo_value_words, repos_words, scrape_words, server_words,
    status_sample, status_value, status_words, tool_calls_words, value_help, value_name,
    value_words, window_failures_words, window_rows, EventTotal, GovernorInputs, GovernorJob,
    GovernorStatus, Overall, OverallStatus, ProcessUsage, RepoHealth, RepoValue, Scrape,
    ToolTotals, WindowRowView,
};
use crate::reader::{
    ends_its_line, lemma_families_read, lemma_head_reads, lemma_read_both, lemma_sample_of_some,
    lemma_sample_reads, lemma_samples_read, read_samples, samples_named,
};
use crate::text::{decimal, opt_text, texts};
use vstd::prelude::*;

verus! {

/// The place of a family among those of a scrape, told by the length of its name and a letter
/// or two of it.
spec fn place(n: Seq<char>) -> int {
    if n.len() == 16 {
        21
    } else if n.len() == 17 {
        9
    } else if n.len() == 19 {
        19
    } else if n.len() == 20 {
        25
    } else if n.len() == 21 {
        0
    } else if n.len() == 22 {
        if n[11] == 's' {
            2
        } else {
            31
        }
    } else if n.len() == 23 {
        24
    } else if n.len() == 24 {
        if n[11] == 'i' {
            20
        } else if n[15] == 's' {
            23
        } else {
            30
        }
    } else if n.len() == 25 {
        if n[0] == 'p' {
            34
        } else if n[11] == 'u' {
            1
        } else {
            22
        }
    } else if n.len() == 27 {
        10
    } else if n.len() == 29 {
        if n[0] == 'p' {
            33
        } else {
            32
        }
    } else if n.len() == 30 {
        if n[11] == 'r' {
            3
        } else {
            12
        }
    } else if n.len() == 31 {
        29
    } else if n.len() == 33 {
        7
    } else if n.len() == 34 {
        11
    } else if n.len() == 35 {
        5
    } else if n.len() == 36 {
        if n[11] == 'i' {
            18
        } else if n[21] == 'l' {
            6
        } else {
            8
        }
    } else if n.len() == 37 {
        if n[11] == 't' {
            4
        } else if n[26] == 'j' {
            13
        } else {
            14
        }
    } else if n.len() == 41 {
        if n[26] == 'o' {
            16
        } else {
            17
        }
    } else if n.len() == 42 {
        28
    } else if n.len() == 43 {
        27
    } else if n.len() == 46 {
        26
    } else {
        15
    }
}

/// Whether `n` is the name of a metric, does not end as the samples of a histogram do, and stands
/// at place `k`.
spec fn stands_at(n: Seq<char>, k: int) -> bool {
    is_metric_name(n) && ends_plainly(n) && place(n) == k
}

proof fn lemma_server_names()
    ensures
        stands_at("codesearch_build_info"@, 0),
        stands_at("codesearch_uptime_seconds"@, 1),
        stands_at("codesearch_slo_seconds"@, 2),
        stands_at("codesearch_read_target_seconds"@, 3),
{
    reveal_with_fuel(names_from, 50);
    reveal_strlit("codesearch_build_info");
    lemma_is_name("codesearch_build_info"@);
    reveal_strlit("codesearch_uptime_seconds");
    lemma_is_name("codesearch_uptime_seconds"@);
    reveal_strlit("codesearch_slo_seconds");
    lemma_is_name("codesearch_slo_seconds"@);
    reveal_strlit("codesearch_read_target_seconds");
    lemma_is_name("codesearch_read_target_seconds"@);
}

proof fn lemma_tool_call_names()
    ensures
        stands_at("codesearch_tool_call_duration_seconds"@, 4),
        stands_at("codesearch_tool_call_failures_total"@, 5),
        stands_at("codesearch_tool_call_latency_seconds"@, 6),
        stands_at("codesearch_tool_call_window_calls"@, 7),
        stands_at("codesearch_tool_call_window_failures"@, 8),
{
    reveal_with_fuel(names_from, 50);
    reveal_strlit("codesearch_tool_call_duration_seconds");
    lemma_is_name("codesearch_tool_call_duration_seconds"@);
    reveal_strlit("codesearch_tool_call_failures_total");
    lemma_is_name("codesearch_tool_call_failures_total"@);
    reveal_strlit("codesearch_tool_call_latency_seconds");
    lemma_is_name("codesearch_tool_call_latency_seconds"@);
    reveal_strlit("codesearch_tool_call_window_calls");
    lemma_is_name("codesearch_tool_call_window_calls"@);
    reveal_strlit("codesearch_tool_call_window_failures");
    lemma_is_name("codesearch_tool_call_window_failures"@);
}

proof fn lemma_status_names()
    ensures
        stands_at("codesearch_status"@, 9),
        stands_at("codesearch_degraded_reasons"@, 10),
{
    reveal_with_fuel(names_from, 50);
    reveal_strlit("codesearch_status");
    lemma_is_name("codesearch_status"@);
    reveal_strlit("codesearch_degraded_reasons");
    lemma_is_name("codesearch_degraded_reasons"@);
}

proof fn lemma_governor_names()
    ensures
        stands_at("codesearch_index_governor_max_jobs"@, 11),
        stands_at("codesearch_index_governor_jobs"@, 12),
        stands_at("codesearch_index_governor_job_seconds"@, 13),
        stands_at("codesearch_index_governor_paused_jobs"@, 14),
        stands_at("codesearch_index_governor_recent_read_max_seconds"@, 15),
        stands_at("codesearch_index_governor_other_cpu_ratio"@, 16),
        stands_at("codesearch_index_governor_memory_pressure"@, 17),
        stands_at("codesearch_index_governor_on_battery"@, 18),
{
    reveal_with_fuel(names_from, 50);
    reveal_strlit("codesearch_index_governor_max_jobs");
    lemma_is_name("codesearch_index_governor_max_jobs"@);
    reveal_strlit("codesearch_index_governor_jobs");
    lemma_is_name("codesearch_index_governor_jobs"@);
    reveal_strlit("codesearch_index_governor_job_seconds");
    lemma_is_name("codesearch_index_governor_job_seconds"@);
    reveal_strlit("codesearch_index_governor_paused_jobs");
    lemma_is_name("codesearch_index_governor_paused_jobs"@);
    reveal_strlit("codesearch_index_governor_recent_read_max_seconds");
    lemma_is_name("codesearch_index_governor_recent_read_max_seconds"@);
    reveal_strlit("codesearch_index_governor_other_cpu_ratio");
    lemma_is_name("codesearch_index_governor_other_cpu_ratio"@);
    reveal_strlit("codesearch_index_governor_memory_pressure");
    lemma_is_name("codesearch_index_governor_memory_pressure"@);
    reveal_strlit("codesearch_index_governor_on_battery");
    lemma_is_name("codesearch_index_governor_on_battery"@);
}

proof fn lemma_qos_names()
    ensures
        stands_at("codesearch_qos_info"@, 19),
        stands_at("codesearch_index_threads"@, 20),
{
    reveal_with_fuel(names_from, 50);
    reveal_strlit("codesearch_qos_info");
    lemma_is_name("codesearch_qos_info"@);
    reveal_strlit("codesearch_index_threads");
    lemma_is_name("codesearch_index_threads"@);
}

proof fn lemma_repo_count_names()
    ensures
        stands_at("codesearch_repos"@, 21),
        stands_at("codesearch_repos_indexing"@, 22),
        stands_at("codesearch_repos_failing"@, 23),
        stands_at("codesearch_repos_queued"@, 24),
        stands_at("codesearch_repo_info"@, 25),
{
    reveal_with_fuel(names_from, 50);
    reveal_strlit("codesearch_repos");
    lemma_is_name("codesearch_repos"@);
    reveal_strlit("codesearch_repos_indexing");
    lemma_is_name("codesearch_repos_indexing"@);
    reveal_strlit("codesearch_repos_failing");
    lemma_is_name("codesearch_repos_failing"@);
    reveal_strlit("codesearch_repos_queued");
    lemma_is_name("codesearch_repos_queued"@);
    reveal_strlit("codesearch_repo_info");
    lemma_is_name("codesearch_repo_info"@);
}

proof fn lemma_repo_value_names()
    ensures
        stands_at("codesearch_repo_last_indexed_timestamp_seconds"@, 26),
        stands_at("codesearch_repo_last_index_duration_seconds"@, 27),
        stands_at("codesearch_repo_index_consecutive_failures"@, 28),
        stands_at("codesearch_repo_pending_changes"@, 29),
        stands_at("codesearch_repo_indexing"@, 30),
        stands_at("codesearch_repo_queued"@, 31),
{
    reveal_with_fuel(names_from, 50);
    reveal_strlit("codesearch_repo_last_indexed_timestamp_seconds");
    lemma_is_name("codesearch_repo_last_indexed_timestamp_seconds"@);
    reveal_strlit("codesearch_repo_last_index_duration_seconds");
    lemma_is_name("codesearch_repo_last_index_duration_seconds"@);
    reveal_strlit("codesearch_repo_index_consecutive_failures");
    lemma_is_name("codesearch_repo_index_consecutive_failures"@);
    reveal_strlit("codesearch_repo_pending_changes");
    lemma_is_name("codesearch_repo_pending_changes"@);
    reveal_strlit("codesearch_repo_indexing");
    lemma_is_name("codesearch_repo_indexing"@);
    reveal_strlit("codesearch_repo_queued");
    lemma_is_name("codesearch_repo_queued"@);
}

proof fn lemma_last_names()
    ensures
        stands_at("codesearch_index_events_total"@, 32),
        stands_at("process_resident_memory_bytes"@, 33),
        stands_at("process_cpu_seconds_total"@, 34),
{
    reveal_with_fuel(names_from, 50);
    reveal_strlit("codesearch_index_events_total");
    lemma_is_name("codesearch_index_events_total"@);
    reveal_strlit("process_resident_memory_bytes");
    lemma_is_name("process_resident_memory_bytes"@);
    reveal_strlit("process_cpu_seconds_total");
    lemma_is_name("process_cpu_seconds_total"@);
}

proof fn lemma_label_names()
    ensures
        is_label_name("tool"@),
        is_label_name("window"@),
        is_label_name("quantile"@),
        is_label_name("le"@),
        is_label_name("status"@),
        is_label_name("state"@),
        is_label_name("repo"@),
        is_label_name("priority"@),
        is_label_name("reason"@),
        is_label_name("level"@),
        is_label_name("version"@),
        is_label_name("read"@),
        is_label_name("index"@),
        is_label_name("path"@),
        "tool"@ != "le"@,
        "tool"@ != "window"@,
        "tool"@ != "quantile"@,
        "window"@ != "quantile"@,
        "repo"@ != "priority"@,
        "repo"@ != "state"@,
        "priority"@ != "state"@,
        "repo"@ != "path"@,
        "repo"@ != "status"@,
        "path"@ != "status"@,
        "read"@ != "index"@,
{
    reveal_with_fuel(names_from, 10);
    reveal_strlit("tool");
    lemma_is_name("tool"@);
    reveal_strlit("window");
    lemma_is_name("window"@);
    reveal_strlit("quantile");
    lemma_is_name("quantile"@);
    reveal_strlit("le");
    lemma_is_name("le"@);
    reveal_strlit("status");
    lemma_is_name("status"@);
    reveal_strlit("state");
    lemma_is_name("state"@);
    reveal_strlit("repo");
    lemma_is_name("repo"@);
    reveal_strlit("priority");
    lemma_is_name("priority"@);
    reveal_strlit("reason");
    lemma_is_name("reason"@);
    reveal_strlit("level");
    lemma_is_name("level"@);
    reveal_strlit("version");
    lemma_is_name("version"@);
    reveal_strlit("read");
    lemma_is_name("read"@);
    reveal_strlit("index");
    lemma_is_name("index"@);
    reveal_strlit("path");
    lemma_is_name("path"@);
    assert("repo"@[0] != "path"@[0]);
}

/// Whether `text` writes the families `fs`, in the order of their places, which lie from `lo`
/// up to `hi`.
spec fn chains(text: Seq<char>, fs: Seq<FamilyView>, lo: int, hi: int) -> bool {
    &&& text == families_text(fs)
    &&& forall|i: int|
        0 <= i < fs.len() ==> is_family(#[trigger] fs[i]) && lo <= place(fs[i].name) < hi
    &&& forall|i: int, j: int|
        0 <= i < j < fs.len() ==> place((#[trigger] fs[i]).name) < place((#[trigger] fs[j]).name)
}

/// Whether `text` writes families in the order of their places, which lie from `lo` up to `hi`.
spec fn reads(text: Seq<char>, lo: int, hi: int) -> bool {
    exists|fs: Seq<FamilyView>| chains(text, fs, lo, hi)
}

/// Whether `text` writes families in the order of their places, from `lo` on, and ends in the
/// family of this name and kind.
spec fn ends_in(text: Seq<char>, lo: int, name: Seq<char>, kind: Kind) -> bool {
    exists|fs: Seq<FamilyView>|
        #[trigger] chains(text, fs, lo, place(name) + 1) && fs.len() > 0 && fs.last().name == name
            && fs.last().kind == kind
}

proof fn lemma_nothing(lo: int, hi: int)
    ensures
        reads(Seq::empty(), lo, hi),
{
    assert(chains(Seq::empty(), Seq::empty(), lo, hi));
}

proof fn lemma_wider(text: Seq<char>, lo: int, hi: int, from: int, to: int)
    requires
        reads(text, lo, hi),
        from <= lo,
        hi <= to,
    ensures
        reads(text, from, to),
{
    let fs = choose|fs: Seq<FamilyView>| chains(text, fs, lo, hi);
    assert(chains(text, fs, from, to));
}

proof fn lemma_join(a: Seq<char>, b: Seq<char>, lo: int, mid: int, hi: int)
    requires
        reads(a, lo, mid),
        reads(b, mid, hi),
        lo <= mid <= hi,
    ensures
        reads(a + b, lo, hi),
{
    let x = choose|fs: Seq<FamilyView>| chains(a, fs, lo, mid);
    let y = choose|fs: Seq<FamilyView>| chains(b, fs, mid, hi);
    lemma_families_join(x, y);
    assert(chains(a + b, x + y, lo, hi));
}

proof fn lemma_head(name: Seq<char>, kind: Kind, help: Seq<char>)
    requires
        is_metric_name(name),
    ensures
        ends_in(family_words(name, kind, help), place(name), name, kind),
{
    let f = FamilyView { name, kind, help, samples: Seq::empty() };
    let fs = seq![f];
    let words = family_words(name, kind, help);
    assert(fs.drop_last() =~= Seq::empty());
    assert(words + Seq::<char>::empty() =~= words);
    assert(Seq::<char>::empty() + words =~= words);
    assert(samples_text(Seq::<SampleView>::empty()) == Seq::<char>::empty());
    assert(families_text(fs.drop_last()) == Seq::<char>::empty());
    assert(family_text(f) == words);
    assert(families_text(fs) == words);
    assert(chains(words, fs, place(name), place(name) + 1));
}

proof fn lemma_next_head(
    text: Seq<char>,
    lo: int,
    hi: int,
    name: Seq<char>,
    kind: Kind,
    help: Seq<char>,
)
    requires
        reads(text, lo, hi),
        is_metric_name(name),
        lo <= hi <= place(name),
    ensures
        ends_in(text + family_words(name, kind, help), lo, name, kind),
{
    lemma_head(name, kind, help);
    let words = family_words(name, kind, help);
    let x = choose|fs: Seq<FamilyView>| chains(text, fs, lo, hi);
    let y = choose|fs: Seq<FamilyView>|
        #[trigger] chains(words, fs, place(name), place(name) + 1) && fs.len() > 0
            && fs.last().name == name && fs.last().kind == kind;
    lemma_families_join(x, y);
    assert((x + y).last() == y.last());
    assert(chains(text + words, x + y, lo, place(name) + 1));
}

proof fn lemma_behind(text: Seq<char>, lo: int, name: Seq<char>, kind: Kind, samples: Seq<char>)
    requires
        ends_in(text, lo, name, kind),
        writes_samples(samples, name, kind),
    ensures
        ends_in(text + samples, lo, name, kind),
{
    let fs = choose|fs: Seq<FamilyView>|
        #[trigger] chains(text, fs, lo, place(name) + 1) && fs.len() > 0 && fs.last().name == name
            && fs.last().kind == kind;
    let ss = choose|ss: Seq<SampleView>| #[trigger]
        samples_text(ss) == samples && forall|i: int|
            0 <= i < ss.len() ==> is_sample_of(#[trigger] ss[i], name, kind);
    lemma_samples_behind(fs, ss);
    let f = fs.last();
    let g = FamilyView { samples: f.samples + ss, ..f };
    let gs = fs.drop_last().push(g);
    assert(is_family(fs[fs.len() - 1]));
    assert(is_family(g)) by {
        assert forall|i: int| 0 <= i < g.samples.len() implies is_sample_of(
            #[trigger] g.samples[i],
            g.name,
            g.kind,
        ) by {
            if i < f.samples.len() {
                assert(g.samples[i] == f.samples[i]);
            } else {
                assert(g.samples[i] == ss[i - f.samples.len()]);
            }
        }
    }
    assert forall|i: int| 0 <= i < gs.len() implies is_family(#[trigger] gs[i]) && lo <= place(
        gs[i].name,
    ) < place(name) + 1 by {
        assert(gs[i].name == fs[i].name);
        if i < fs.len() - 1 {
            assert(gs[i] == fs[i]);
        }
    }
    assert forall|i: int, j: int| 0 <= i < j < gs.len() implies place((#[trigger] gs[i]).name)
        < place((#[trigger] gs[j]).name) by {
        assert(gs[i].name == fs[i].name);
        assert(gs[j].name == fs[j].name);
    }
    assert(chains(text + samples, gs, lo, place(name) + 1));
}

proof fn lemma_closed(text: Seq<char>, lo: int, name: Seq<char>, kind: Kind)
    requires
        ends_in(text, lo, name, kind),
    ensures
        reads(text, lo, place(name) + 1),
{
}

proof fn lemma_single(name: Seq<char>, kind: Kind, help: Seq<char>, value: Seq<char>)
    requires
        is_metric_name(name),
        kind != Kind::Histogram,
        is_value(value),
    ensures
        reads(single_words(name, kind, help, value), place(name), place(name) + 1),
{
    reveal(single_words);
    lemma_head(name, kind, help);
    lemma_one_sample(SampleView { name, labels: Seq::empty(), value }, name, kind);
    let sample = sample_words(name, Seq::empty(), value);
    lemma_behind(family_words(name, kind, help), place(name), name, kind, sample);
}

proof fn lemma_next_single(
    text: Seq<char>,
    lo: int,
    hi: int,
    name: Seq<char>,
    kind: Kind,
    help: Seq<char>,
    value: Seq<char>,
)
    requires
        reads(text, lo, hi),
        is_metric_name(name),
        lo <= hi <= place(name),
        kind != Kind::Histogram,
        is_value(value),
    ensures
        reads(text + single_words(name, kind, help, value), lo, place(name) + 1),
{
    lemma_single(name, kind, help, value);
    lemma_wider(text, lo, hi, lo, place(name));
    lemma_join(text, single_words(name, kind, help, value), lo, place(name), place(name) + 1);
}

proof fn lemma_sample(
    name: Seq<char>,
    kind: Kind,
    labels: Seq<(Seq<char>, Seq<char>)>,
    value: Seq<char>,
)
    requires
        kind != Kind::Histogram,
        are_labels(labels),
        is_value(value),
    ensures
        writes_samples(sample_words(name, labels, value), name, kind),
{
    lemma_one_sample(SampleView { name, labels, value }, name, kind);
}

proof fn lemma_each<A>(rows: Seq<A>, f: spec_fn(A) -> Seq<char>, name: Seq<char>, kind: Kind)
    requires
        forall|i: int| 0 <= i < rows.len() ==> writes_samples(#[trigger] f(rows[i]), name, kind),
    ensures
        writes_samples(each(rows, f), name, kind),
    decreases rows.len(),
{
    if rows.len() == 0 {
        lemma_no_samples(name, kind);
    } else {
        let rest = rows.drop_last();
        assert forall|i: int| 0 <= i < rest.len() implies writes_samples(
            #[trigger] f(rest[i]),
            name,
            kind,
        ) by {
            assert(rest[i] == rows[i]);
        }
        lemma_each(rest, f, name, kind);
        assert(writes_samples(f(rows[rows.len() - 1]), name, kind));
        lemma_more_samples(each(rest, f), f(rows.last()), name, kind);
    }
}

proof fn lemma_buckets(name: Seq<char>, tool: Seq<char>, observed: Seq<u64>, n: nat)
    ensures
        writes_samples(
            buckets_words(name, seq![("tool"@, tool)], observed, n),
            name,
            Kind::Histogram,
        ),
    decreases n,
{
    if n == 0 {
        lemma_no_samples(name, Kind::Histogram);
    } else {
        lemma_label_names();
        lemma_buckets(name, tool, observed, (n - 1) as nat);
        let labels = seq![("tool"@, tool)];
        let bound = bucket_bounds()[n - 1];
        let sample = SampleView {
            name: name + "_bucket"@,
            labels: labels.push(("le"@, fraction(bound as nat, 3))),
            value: decimal(at_most_ms(observed, bound)),
        };
        lemma_decimal_is_a_value(at_most_ms(observed, bound));
        lemma_one_sample(sample, name, Kind::Histogram);
        lemma_more_samples(
            buckets_words(name, labels, observed, (n - 1) as nat),
            sample_words(sample.name, sample.labels, sample.value),
            name,
            Kind::Histogram,
        );
    }
}

proof fn lemma_histogram(name: Seq<char>, tool: Seq<char>, observed: Seq<u64>)
    ensures
        writes_samples(
            histogram_words(name, seq![("tool"@, tool)], observed),
            name,
            Kind::Histogram,
        ),
{
    reveal(histogram_words);
    lemma_label_names();
    let kind = Kind::Histogram;
    let labels = seq![("tool"@, tool)];
    let below = buckets_words(name, labels, observed, bucket_bounds().len());
    lemma_buckets(name, tool, observed, bucket_bounds().len());
    lemma_decimal_is_a_value(observed.len());
    lemma_fraction_is_a_value(total(observed), 9);
    let all = SampleView {
        name: name + "_bucket"@,
        labels: labels.push(("le"@, "+Inf"@)),
        value: decimal(observed.len()),
    };
    let sum = SampleView { name: name + "_sum"@, labels, value: fraction(total(observed), 9) };
    let count = SampleView { name: name + "_count"@, labels, value: decimal(observed.len()) };
    lemma_one_sample(all, name, kind);
    lemma_one_sample(sum, name, kind);
    lemma_one_sample(count, name, kind);
    let a = sample_words(all.name, all.labels, all.value);
    let b = sample_words(sum.name, sum.labels, sum.value);
    let c = sample_words(count.name, count.labels, count.value);
    lemma_more_samples(below, a, name, kind);
    lemma_more_samples(below + a, b, name, kind);
    lemma_more_samples(below + a + b, c, name, kind);
}

proof fn lemma_server(s: Scrape)
    ensures
        reads(server_words(s), 0, 4),
{
    lemma_server_names();
    lemma_label_names();
    let info = "codesearch_build_info"@;
    let head = family_words(info, Kind::Gauge, "Always 1; carries the codesearch version."@);
    lemma_head(info, Kind::Gauge, "Always 1; carries the codesearch version."@);
    lemma_decimal_is_a_value(1);
    let sample = sample_words(info, seq![("version"@, s.version@)], decimal(1));
    lemma_sample(info, Kind::Gauge, seq![("version"@, s.version@)], decimal(1));
    lemma_behind(head, 0, info, Kind::Gauge, sample);
    lemma_closed(head + sample, 0, info, Kind::Gauge);
    let up = fraction(s.uptime_nanos as nat, 9);
    lemma_fraction_is_a_value(s.uptime_nanos as nat, 9);
    let first = single_words(
        "codesearch_uptime_seconds"@,
        Kind::Gauge,
        "Seconds since serve started."@,
        up,
    );
    lemma_next_single(
        head + sample,
        0,
        1,
        "codesearch_uptime_seconds"@,
        Kind::Gauge,
        "Seconds since serve started."@,
        up,
    );
    let slo = fraction(s.slo_ms as nat, 3);
    lemma_fraction_is_a_value(s.slo_ms as nat, 3);
    let second = single_words(
        "codesearch_slo_seconds"@,
        Kind::Gauge,
        "Tool-call p95 latency SLO."@,
        slo,
    );
    lemma_next_single(
        head + sample + first,
        0,
        2,
        "codesearch_slo_seconds"@,
        Kind::Gauge,
        "Tool-call p95 latency SLO."@,
        slo,
    );
    lemma_fraction_is_a_value(s.read_target_ms as nat, 3);
    lemma_next_single(
        head + sample + first + second,
        0,
        3,
        "codesearch_read_target_seconds"@,
        Kind::Gauge,
        "Tool-call latency above which indexing yields."@,
        fraction(s.read_target_ms as nat, 3),
    );
}

proof fn lemma_quantile(r: WindowRowView, quantile: Seq<char>, ms: Option<u64>)
    ensures
        writes_samples(
            quantile_words(r, quantile, ms),
            "codesearch_tool_call_latency_seconds"@,
            Kind::Gauge,
        ),
{
    lemma_label_names();
    let name = "codesearch_tool_call_latency_seconds"@;
    match ms {
        Some(v) => {
            lemma_fraction_is_a_value(v as nat, 3);
            lemma_sample(
                name,
                Kind::Gauge,
                seq![("tool"@, r.tool), ("window"@, r.window), ("quantile"@, quantile)],
                fraction(v as nat, 3),
            );
        },
        None => {
            lemma_no_samples(name, Kind::Gauge);
        },
    }
}

proof fn lemma_latencies(rows: Seq<WindowRowView>)
    ensures
        writes_samples(
            each(rows, latency_words()),
            "codesearch_tool_call_latency_seconds"@,
            Kind::Gauge,
        ),
{
    let name = "codesearch_tool_call_latency_seconds"@;
    let kind = Kind::Gauge;
    assert forall|i: int| 0 <= i < rows.len() implies writes_samples(
        #[trigger] latency_words()(rows[i]),
        name,
        kind,
    ) by {
        let r = rows[i];
        let a = quantile_words(r, "0.5"@, r.stats.p50);
        let b = quantile_words(r, "0.95"@, r.stats.p95);
        let c = quantile_words(r, "0.98"@, r.stats.p98);
        let d = quantile_words(r, "0.99"@, r.stats.p99);
        let e = quantile_words(r, "1"@, r.stats.p100);
        lemma_quantile(r, "0.5"@, r.stats.p50);
        lemma_quantile(r, "0.95"@, r.stats.p95);
        lemma_quantile(r, "0.98"@, r.stats.p98);
        lemma_quantile(r, "0.99"@, r.stats.p99);
        lemma_quantile(r, "1"@, r.stats.p100);
        lemma_more_samples(a, b, name, kind);
        lemma_more_samples(a + b, c, name, kind);
        lemma_more_samples(a + b + c, d, name, kind);
        lemma_more_samples(a + b + c + d, e, name, kind);
    }
    lemma_each(rows, latency_words(), name, kind);
}

proof fn lemma_totals(totals: Seq<ToolTotals>)
    ensures
        writes_samples(
            each(totals, durations_words()),
            "codesearch_tool_call_duration_seconds"@,
            Kind::Histogram,
        ),
        writes_samples(
            each(totals, failures_words()),
            "codesearch_tool_call_failures_total"@,
            Kind::Counter,
        ),
{
    lemma_label_names();
    let durations = "codesearch_tool_call_duration_seconds"@;
    let failures = "codesearch_tool_call_failures_total"@;
    assert forall|i: int| 0 <= i < totals.len() implies writes_samples(
        #[trigger] durations_words()(totals[i]),
        durations,
        Kind::Histogram,
    ) by {
        lemma_histogram(durations, totals[i].tool@, totals[i].histogram@);
    }
    lemma_each(totals, durations_words(), durations, Kind::Histogram);
    assert forall|i: int| 0 <= i < totals.len() implies writes_samples(
        #[trigger] failures_words()(totals[i]),
        failures,
        Kind::Counter,
    ) by {
        lemma_decimal_is_a_value(totals[i].failures as nat);
        lemma_sample(
            failures,
            Kind::Counter,
            seq![("tool"@, totals[i].tool@)],
            decimal(totals[i].failures as nat),
        );
    }
    lemma_each(totals, failures_words(), failures, Kind::Counter);
}

proof fn lemma_window_counts(rows: Seq<WindowRowView>)
    ensures
        writes_samples(
            each(rows, calls_words()),
            "codesearch_tool_call_window_calls"@,
            Kind::Gauge,
        ),
        writes_samples(
            each(rows, window_failures_words()),
            "codesearch_tool_call_window_failures"@,
            Kind::Gauge,
        ),
{
    lemma_label_names();
    let calls = "codesearch_tool_call_window_calls"@;
    let failures = "codesearch_tool_call_window_failures"@;
    assert forall|i: int| 0 <= i < rows.len() implies writes_samples(
        #[trigger] calls_words()(rows[i]),
        calls,
        Kind::Gauge,
    ) by {
        let r = rows[i];
        lemma_decimal_is_a_value(r.stats.count as nat);
        lemma_sample(
            calls,
            Kind::Gauge,
            seq![("tool"@, r.tool), ("window"@, r.window)],
            decimal(r.stats.count as nat),
        );
    }
    lemma_each(rows, calls_words(), calls, Kind::Gauge);
    assert forall|i: int| 0 <= i < rows.len() implies writes_samples(
        #[trigger] window_failures_words()(rows[i]),
        failures,
        Kind::Gauge,
    ) by {
        let r = rows[i];
        lemma_decimal_is_a_value(r.stats.failures as nat);
        lemma_sample(
            failures,
            Kind::Gauge,
            seq![("tool"@, r.tool), ("window"@, r.window)],
            decimal(r.stats.failures as nat),
        );
    }
    lemma_each(rows, window_failures_words(), failures, Kind::Gauge);
}

/// A family behind families, with its samples.
proof fn lemma_next_family(
    text: Seq<char>,
    lo: int,
    hi: int,
    name: Seq<char>,
    kind: Kind,
    help: Seq<char>,
    samples: Seq<char>,
)
    requires
        reads(text, lo, hi),
        is_metric_name(name),
        lo <= hi <= place(name),
        writes_samples(samples, name, kind),
    ensures
        reads(text + family_words(name, kind, help) + samples, lo, place(name) + 1),
{
    lemma_next_head(text, lo, hi, name, kind, help);
    lemma_behind(text + family_words(name, kind, help), lo, name, kind, samples);
    lemma_closed(text + family_words(name, kind, help) + samples, lo, name, kind);
}

proof fn lemma_tool_calls(totals: Seq<ToolTotals>, rows: Seq<WindowRowView>)
    ensures
        reads(tool_calls_words(totals, rows), 4, 9),
{
    lemma_tool_call_names();
    lemma_totals(totals);
    lemma_latencies(rows);
    lemma_window_counts(rows);
    let durations = "codesearch_tool_call_duration_seconds"@;
    let told = "Tool-call duration since serve started."@;
    let head = family_words(durations, Kind::Histogram, told);
    let ds = each(totals, durations_words());
    lemma_head(durations, Kind::Histogram, told);
    lemma_behind(head, 4, durations, Kind::Histogram, ds);
    lemma_closed(head + ds, 4, durations, Kind::Histogram);
    let t1 = head + ds;
    let help1 = "Tool calls that returned an error since serve started."@;
    let fs = each(totals, failures_words());
    lemma_next_family(
        t1,
        4,
        5,
        "codesearch_tool_call_failures_total"@,
        Kind::Counter,
        help1,
        fs,
    );
    let t2 = t1 + family_words("codesearch_tool_call_failures_total"@, Kind::Counter, help1) + fs;
    let help2 =
        "Nearest-rank tool-call latency percentile over a trailing window; tool=\"all\" is every call."@;
    let ls = each(rows, latency_words());
    lemma_next_family(
        t2,
        4,
        6,
        "codesearch_tool_call_latency_seconds"@,
        Kind::Gauge,
        help2,
        ls,
    );
    let t3 = t2 + family_words("codesearch_tool_call_latency_seconds"@, Kind::Gauge, help2) + ls;
    let help3 = "Tool calls finished within a trailing window."@;
    let cs = each(rows, calls_words());
    lemma_next_family(t3, 4, 7, "codesearch_tool_call_window_calls"@, Kind::Gauge, help3, cs);
    let t4 = t3 + family_words("codesearch_tool_call_window_calls"@, Kind::Gauge, help3) + cs;
    lemma_next_family(
        t4,
        4,
        8,
        "codesearch_tool_call_window_failures"@,
        Kind::Gauge,
        "Failed tool calls within a trailing window."@,
        each(rows, window_failures_words()),
    );
}

proof fn lemma_status(o: Overall)
    ensures
        reads(status_words(o), 9, 11),
{
    lemma_status_names();
    lemma_label_names();
    let name = "codesearch_status"@;
    let help = "Overall health; the current status is 1. An unreachable serve is down (up == 0)."@;
    let head = family_words(name, Kind::Gauge, help);
    lemma_head(name, Kind::Gauge, help);
    let healthy = OverallStatus::Healthy;
    let degraded = OverallStatus::Degraded;
    lemma_decimal_is_a_value(status_value(o, healthy));
    lemma_decimal_is_a_value(status_value(o, degraded));
    lemma_sample(
        name,
        Kind::Gauge,
        seq![("status"@, overall_name(healthy))],
        decimal(status_value(o, healthy)),
    );
    lemma_sample(
        name,
        Kind::Gauge,
        seq![("status"@, overall_name(degraded))],
        decimal(status_value(o, degraded)),
    );
    lemma_behind(head, 9, name, Kind::Gauge, status_sample(o, healthy));
    let led = head + status_sample(o, healthy);
    lemma_behind(led, 9, name, Kind::Gauge, status_sample(o, degraded));
    lemma_closed(led + status_sample(o, degraded), 9, name, Kind::Gauge);
    lemma_decimal_is_a_value(o.reasons@.len());
    lemma_next_single(
        led + status_sample(o, degraded),
        9,
        10,
        "codesearch_degraded_reasons"@,
        Kind::Gauge,
        "Reasons the overall status is degraded; the text is in /api/summary."@,
        decimal(o.reasons@.len()),
    );
}

proof fn lemma_jobs(jobs: Seq<GovernorJob>, repos: Seq<RepoHealth>, state: Seq<char>)
    ensures
        writes_samples(
            each(jobs, job_words(repos, state)),
            "codesearch_index_governor_job_seconds"@,
            Kind::Gauge,
        ),
{
    lemma_label_names();
    let name = "codesearch_index_governor_job_seconds"@;
    let f = job_words(repos, state);
    assert forall|i: int| 0 <= i < jobs.len() implies writes_samples(
        #[trigger] f(jobs[i]),
        name,
        Kind::Gauge,
    ) by {
        let j = jobs[i];
        lemma_decimal_is_a_value(j.secs as nat);
        lemma_sample(
            name,
            Kind::Gauge,
            seq![
                ("repo"@, alias_at(repos, j.label@)),
                ("priority"@, j.priority@),
                ("state"@, state),
            ],
            decimal(j.secs as nat),
        );
    }
    lemma_each(jobs, f, name, Kind::Gauge);
}

proof fn lemma_paused(running: Seq<GovernorJob>)
    ensures
        writes_samples(
            each(pause_categories(), paused_words(running)),
            "codesearch_index_governor_paused_jobs"@,
            Kind::Gauge,
        ),
{
    lemma_label_names();
    let name = "codesearch_index_governor_paused_jobs"@;
    let all = pause_categories();
    let f = paused_words(running);
    assert forall|i: int| 0 <= i < all.len() implies writes_samples(
        #[trigger] f(all[i]),
        name,
        Kind::Gauge,
    ) by {
        let n = running.filter(paused_for(all[i])).len();
        lemma_decimal_is_a_value(n);
        lemma_sample(name, Kind::Gauge, seq![("reason"@, all[i])], decimal(n));
    }
    lemma_each(all, f, name, Kind::Gauge);
}

proof fn lemma_memory(level: Option<Seq<char>>, levels: Seq<Seq<char>>)
    ensures
        reads(memory_words(level, levels), 17, 18),
{
    lemma_governor_names();
    lemma_label_names();
    let name = "codesearch_index_governor_memory_pressure"@;
    match level {
        Some(current) => {
            let help = "System memory pressure level; the current level is 1."@;
            let f = pressure_words(current);
            assert forall|i: int| 0 <= i < levels.len() implies writes_samples(
                #[trigger] f(levels[i]),
                name,
                Kind::Gauge,
            ) by {
                lemma_flag(levels[i] == current);
                lemma_sample(
                    name,
                    Kind::Gauge,
                    seq![("level"@, levels[i])],
                    flag_words(levels[i] == current),
                );
            }
            lemma_each(levels, f, name, Kind::Gauge);
            lemma_head(name, Kind::Gauge, help);
            let head = family_words(name, Kind::Gauge, help);
            lemma_behind(head, 17, name, Kind::Gauge, each(levels, f));
            lemma_closed(head + each(levels, f), 17, name, Kind::Gauge);
        },
        None => {
            lemma_nothing(17, 18);
        },
    }
}

proof fn lemma_flag(on: bool)
    ensures
        is_value(flag_words(on)),
{
    lemma_decimal_is_a_value(0);
    lemma_decimal_is_a_value(1);
}

proof fn lemma_inputs(g: GovernorInputs, levels: Seq<Seq<char>>)
    requires
        g.other_cpu_ratio matches Some(t) ==> is_value(t@),
    ensures
        reads(inputs_words(g, levels), 15, 19),
{
    lemma_governor_names();
    let a = read_max_words(g.recent_read_max_ms);
    let b = other_cpu_words(opt_text(g.other_cpu_ratio));
    let c = memory_words(opt_text(g.memory_pressure), levels);
    let d = battery_words(g.on_battery);
    match g.recent_read_max_ms {
        Some(ms) => {
            lemma_fraction_is_a_value(ms as nat, 3);
            lemma_single(
                "codesearch_index_governor_recent_read_max_seconds"@,
                Kind::Gauge,
                "Slowest interactive tool call in the governor protect window."@,
                fraction(ms as nat, 3),
            );
        },
        None => {
            lemma_nothing(15, 16);
        },
    }
    match g.other_cpu_ratio {
        Some(ratio) => {
            lemma_single(
                "codesearch_index_governor_other_cpu_ratio"@,
                Kind::Gauge,
                "CPU used by other processes as a fraction of all cores."@,
                ratio@,
            );
        },
        None => {
            lemma_nothing(16, 17);
        },
    }
    lemma_memory(opt_text(g.memory_pressure), levels);
    match g.on_battery {
        Some(on) => {
            lemma_flag(on);
            lemma_single(
                "codesearch_index_governor_on_battery"@,
                Kind::Gauge,
                "1 when the machine is running on battery."@,
                flag_words(on),
            );
        },
        None => {
            lemma_nothing(18, 19);
        },
    }
    lemma_join(a, b, 15, 16, 17);
    lemma_join(a + b, c, 15, 17, 18);
    lemma_join(a + b + c, d, 15, 18, 19);
}

proof fn lemma_governor(g: GovernorStatus, repos: Seq<RepoHealth>, levels: Seq<Seq<char>>)
    requires
        g.inputs.other_cpu_ratio matches Some(t) ==> is_value(t@),
    ensures
        reads(governor_words(g, repos, levels), 11, 19),
{
    lemma_governor_names();
    lemma_label_names();
    let kind = Kind::Gauge;
    lemma_decimal_is_a_value(g.max_jobs as nat);
    let t1 = single_words(
        "codesearch_index_governor_max_jobs"@,
        kind,
        "Index jobs allowed to run at once."@,
        decimal(g.max_jobs as nat),
    );
    lemma_single(
        "codesearch_index_governor_max_jobs"@,
        kind,
        "Index jobs allowed to run at once."@,
        decimal(g.max_jobs as nat),
    );
    let jobs = "codesearch_index_governor_jobs"@;
    let help1 = "Index jobs running or waiting for a slot."@;
    let running = sample_words(jobs, seq![("state"@, "running"@)], decimal(g.running@.len()));
    let waiting = sample_words(jobs, seq![("state"@, "waiting"@)], decimal(g.waiting@.len()));
    lemma_decimal_is_a_value(g.running@.len());
    lemma_decimal_is_a_value(g.waiting@.len());
    lemma_sample(jobs, kind, seq![("state"@, "running"@)], decimal(g.running@.len()));
    lemma_sample(jobs, kind, seq![("state"@, "waiting"@)], decimal(g.waiting@.len()));
    let t2 = t1 + family_words(jobs, kind, help1);
    lemma_next_head(t1, 11, 12, jobs, kind, help1);
    lemma_behind(t2, 11, jobs, kind, running);
    lemma_behind(t2 + running, 11, jobs, kind, waiting);
    let t3 = t2 + running + waiting;
    lemma_closed(t3, 11, jobs, kind);
    let seconds = "codesearch_index_governor_job_seconds"@;
    let help2 = "Seconds each index job has been running or waiting; repo is the alias."@;
    let first = each(g.running@, job_words(repos, "running"@));
    let second = each(g.waiting@, job_words(repos, "waiting"@));
    lemma_jobs(g.running@, repos, "running"@);
    lemma_jobs(g.waiting@, repos, "waiting"@);
    let t4 = t3 + family_words(seconds, kind, help2);
    lemma_next_head(t3, 11, 13, seconds, kind, help2);
    lemma_behind(t4, 11, seconds, kind, first);
    lemma_behind(t4 + first, 11, seconds, kind, second);
    let t5 = t4 + first + second;
    lemma_closed(t5, 11, seconds, kind);
    let paused = "codesearch_index_governor_paused_jobs"@;
    let help3 = "Running index jobs paused at a yield point, by reason."@;
    let third = each(pause_categories(), paused_words(g.running@));
    lemma_paused(g.running@);
    lemma_next_family(t5, 11, 14, paused, kind, help3, third);
    let t6 = t5 + family_words(paused, kind, help3) + third;
    lemma_inputs(g.inputs, levels);
    lemma_join(t6, inputs_words(g.inputs, levels), 11, 15, 19);
}

proof fn lemma_qos(s: Scrape)
    ensures
        reads(qos_words(s), 19, 21),
{
    lemma_qos_names();
    lemma_label_names();
    let name = "codesearch_qos_info"@;
    let help = "Always 1; carries the read-path and index-pool QoS classes."@;
    let labels = seq![
        ("read"@, or_unset(opt_text(s.qos_read))),
        ("index"@, or_unset(opt_text(s.qos_index))),
    ];
    let head = family_words(name, Kind::Gauge, help);
    let sample = sample_words(name, labels, decimal(1));
    lemma_decimal_is_a_value(1);
    lemma_head(name, Kind::Gauge, help);
    lemma_sample(name, Kind::Gauge, labels, decimal(1));
    lemma_behind(head, 19, name, Kind::Gauge, sample);
    lemma_closed(head + sample, 19, name, Kind::Gauge);
    lemma_decimal_is_a_value(s.index_threads as nat);
    lemma_next_single(
        head + sample,
        19,
        20,
        "codesearch_index_threads"@,
        Kind::Gauge,
        "Threads in the index executor pool."@,
        decimal(s.index_threads as nat),
    );
}

proof fn lemma_repo_value(v: RepoValue, r: RepoHealth)
    ensures
        writes_samples(repo_value_words(v)(r), value_name(v), Kind::Gauge),
{
    lemma_label_names();
    match value_words(v, r) {
        Some(value) => {
            if let Some(ms) = r.outcome.indexed_at_ms {
                lemma_fraction_is_a_value(ms as nat, 3);
            }
            if let Some(ms) = r.outcome.duration_ms {
                lemma_fraction_is_a_value(ms as nat, 3);
            }
            lemma_decimal_is_a_value(r.outcome.failures as nat);
            lemma_decimal_is_a_value(r.changes as nat);
            lemma_flag(r.status@ == "indexing"@);
            lemma_flag(r.queued);
            assert(is_value(value));
            lemma_sample(value_name(v), Kind::Gauge, seq![("repo"@, r.alias@)], value);
        },
        None => {
            lemma_no_samples(value_name(v), Kind::Gauge);
        },
    }
}

proof fn lemma_next_repo_family(
    text: Seq<char>,
    lo: int,
    v: RepoValue,
    repos: Seq<RepoHealth>,
)
    requires
        is_metric_name(value_name(v)),
        lo <= place(value_name(v)),
        reads(text, lo, place(value_name(v))),
    ensures
        reads(text + repo_family_words(v, repos), lo, place(value_name(v)) + 1),
{
    let name = value_name(v);
    let f = repo_value_words(v);
    assert forall|i: int| 0 <= i < repos.len() implies writes_samples(
        #[trigger] f(repos[i]),
        name,
        Kind::Gauge,
    ) by {
        lemma_repo_value(v, repos[i]);
    }
    lemma_each(repos, f, name, Kind::Gauge);
    lemma_next_family(
        text,
        lo,
        place(name),
        name,
        Kind::Gauge,
        value_help(v),
        each(repos, f),
    );
    let head = family_words(name, Kind::Gauge, value_help(v));
    assert(text + head + each(repos, f) =~= text + (head + each(repos, f)));
}

proof fn lemma_repo_infos(repos: Seq<RepoHealth>)
    ensures
        writes_samples(each(repos, repo_info_words()), "codesearch_repo_info"@, Kind::Gauge),
{
    lemma_label_names();
    let name = "codesearch_repo_info"@;
    let f = repo_info_words();
    lemma_decimal_is_a_value(1);
    assert forall|i: int| 0 <= i < repos.len() implies writes_samples(
        #[trigger] f(repos[i]),
        name,
        Kind::Gauge,
    ) by {
        let r = repos[i];
        lemma_sample(
            name,
            Kind::Gauge,
            seq![("repo"@, r.alias@), ("path"@, r.path@), ("status"@, r.status@)],
            decimal(1),
        );
    }
    lemma_each(repos, f, name, Kind::Gauge);
}

proof fn lemma_repos(repos: Seq<RepoHealth>)
    ensures
        reads(repos_words(repos), 21, 32),
{
    lemma_repo_count_names();
    lemma_repo_value_names();
    let kind = Kind::Gauge;
    let all = decimal(repos.len());
    let indexing = decimal(repos.filter(has_status("indexing"@)).len());
    let failing = decimal(repos.filter(has_status("failing"@)).len());
    let queued = decimal(repos.filter(is_queued()).len());
    lemma_decimal_is_a_value(repos.len());
    lemma_decimal_is_a_value(repos.filter(has_status("indexing"@)).len());
    lemma_decimal_is_a_value(repos.filter(has_status("failing"@)).len());
    lemma_decimal_is_a_value(repos.filter(is_queued()).len());
    let t1 = single_words("codesearch_repos"@, kind, "Registered repos."@, all);
    lemma_single("codesearch_repos"@, kind, "Registered repos."@, all);
    let help1 = "Repos being indexed now."@;
    let t2 = t1 + single_words("codesearch_repos_indexing"@, kind, help1, indexing);
    lemma_next_single(t1, 21, 22, "codesearch_repos_indexing"@, kind, help1, indexing);
    let help2 = "Repos whose last index job failed."@;
    let t3 = t2 + single_words("codesearch_repos_failing"@, kind, help2, failing);
    lemma_next_single(t2, 21, 23, "codesearch_repos_failing"@, kind, help2, failing);
    let help3 = "Repos waiting for an indexing governor slot."@;
    let t4 = t3 + single_words("codesearch_repos_queued"@, kind, help3, queued);
    lemma_next_single(t3, 21, 24, "codesearch_repos_queued"@, kind, help3, queued);
    let help4 = "Always 1; carries the repo path and status (failing, open, warm, indexing, ...)."@;
    let infos = each(repos, repo_info_words());
    lemma_repo_infos(repos);
    let t5 = t4 + family_words("codesearch_repo_info"@, kind, help4) + infos;
    lemma_next_family(t4, 21, 25, "codesearch_repo_info"@, kind, help4, infos);
    lemma_next_repo_family(t5, 21, RepoValue::LastIndexed, repos);
    let t6 = t5 + repo_family_words(RepoValue::LastIndexed, repos);
    lemma_next_repo_family(t6, 21, RepoValue::LastDuration, repos);
    let t7 = t6 + repo_family_words(RepoValue::LastDuration, repos);
    lemma_next_repo_family(t7, 21, RepoValue::Failures, repos);
    let t8 = t7 + repo_family_words(RepoValue::Failures, repos);
    lemma_next_repo_family(t8, 21, RepoValue::PendingChanges, repos);
    let t9 = t8 + repo_family_words(RepoValue::PendingChanges, repos);
    lemma_next_repo_family(t9, 21, RepoValue::Indexing, repos);
    let t10 = t9 + repo_family_words(RepoValue::Indexing, repos);
    lemma_next_repo_family(t10, 21, RepoValue::Queued, repos);
}

proof fn lemma_events(events: Seq<EventTotal>)
    ensures
        writes_samples(each(events, event_words()), "codesearch_index_events_total"@, Kind::Counter),
{
    lemma_label_names();
    let name = "codesearch_index_events_total"@;
    let f = event_words();
    assert forall|i: int| 0 <= i < events.len() implies writes_samples(
        #[trigger] f(events[i]),
        name,
        Kind::Counter,
    ) by {
        let e = events[i];
        lemma_decimal_is_a_value(e.total as nat);
        lemma_sample(name, Kind::Counter, seq![("level"@, e.level@)], decimal(e.total as nat));
    }
    lemma_each(events, f, name, Kind::Counter);
}

proof fn lemma_process(usage: Option<ProcessUsage>)
    ensures
        reads(process_words(usage), 33, 35),
{
    lemma_last_names();
    match usage {
        Some(u) => {
            lemma_decimal_is_a_value(u.memory_bytes as nat);
            lemma_fraction_is_a_value(u.cpu_ms as nat, 3);
            let name = "process_resident_memory_bytes"@;
            let help = "Resident memory size in bytes."@;
            let bytes = decimal(u.memory_bytes as nat);
            lemma_single(name, Kind::Gauge, help, bytes);
            lemma_next_single(
                single_words(name, Kind::Gauge, help, bytes),
                33,
                34,
                "process_cpu_seconds_total"@,
                Kind::Counter,
                "User and system CPU time spent in seconds."@,
                fraction(u.cpu_ms as nat, 3),
            );
        },
        None => {
            lemma_nothing(33, 35);
        },
    }
}

/// Whether the one number of a scrape that comes as a text is a number.
pub open spec fn shows_numbers(s: Scrape) -> bool {
    s.governor.inputs.other_cpu_ratio matches Some(t) ==> is_value(t@)
}

/// Every scrape is an exposition, whatever stands in its labels: families one after another,
/// none twice, each with one line of help and one with its type before its samples, and with
/// names, labels and values that can stand.
pub proof fn law_a_scrape_is_an_exposition(s: Scrape)
    requires
        shows_numbers(s),
    ensures
        is_exposition(scrape_words(s)),
{
    let rows = window_rows(s.summaries@, texts(s.known_tools@));
    let levels = texts(s.pressure_levels@);
    lemma_server(s);
    lemma_tool_calls(s.totals@, rows);
    lemma_status(s.overall);
    lemma_governor(s.governor, s.repos@, levels);
    lemma_qos(s);
    lemma_repos(s.repos@);
    lemma_last_names();
    lemma_events(s.events@);
    lemma_process(s.usage);
    let t1 = server_words(s);
    let t2 = t1 + tool_calls_words(s.totals@, rows);
    lemma_join(t1, tool_calls_words(s.totals@, rows), 0, 4, 9);
    let t3 = t2 + status_words(s.overall);
    lemma_join(t2, status_words(s.overall), 0, 9, 11);
    let t4 = t3 + governor_words(s.governor, s.repos@, levels);
    lemma_join(t3, governor_words(s.governor, s.repos@, levels), 0, 11, 19);
    let t5 = t4 + qos_words(s);
    lemma_join(t4, qos_words(s), 0, 19, 21);
    let t6 = t5 + repos_words(s.repos@);
    lemma_join(t5, repos_words(s.repos@), 0, 21, 32);
    let name = "codesearch_index_events_total"@;
    let help = "Index and governor events logged since serve started, by level."@;
    let events = each(s.events@, event_words());
    lemma_next_family(t6, 0, 32, name, Kind::Counter, help, events);
    let t7 = t6 + family_words(name, Kind::Counter, help) + events;
    lemma_join(t7, process_words(s.usage), 0, 33, 35);
    let text = t7 + process_words(s.usage);
    assert(text == scrape_words(s));
    let fs = choose|fs: Seq<FamilyView>| chains(text, fs, 0, 35);
    assert(exposes(text, fs)) by {
        assert forall|i: int, j: int| 0 <= i < j < fs.len() implies (#[trigger] fs[i]).name != (
        #[trigger] fs[j]).name by {
            assert(place(fs[i].name) < place(fs[j].name));
        }
    }
}

/// Whether every sample of a text that ends its line is one of a family.
#[verifier::opaque]
spec fn all_of(text: Seq<char>, name: Seq<char>, kind: Kind) -> bool {
    &&& ends_its_line(text)
    &&& forall|i: int|
        0 <= i < read_samples(text).len() ==> is_sample_of(
            #[trigger] read_samples(text)[i],
            name,
            kind,
        )
}

/// Whether a name does not end as the samples of a histogram do.
spec fn ends_plainly(n: Seq<char>) -> bool {
    n.len() > 0 && n.last() != 't' && n.last() != 'm'
}

/// Whether `text` tells of nothing under `name`.
spec fn silent_on(text: Seq<char>, name: Seq<char>) -> bool {
    ends_its_line(text) && samples_named(text, name) == Seq::<SampleView>::empty()
}

proof fn lemma_head_of(name: Seq<char>, kind: Kind, help: Seq<char>)
    requires
        is_metric_name(name),
    ensures
        all_of(family_words(name, kind, help), name, kind),
        read_samples(family_words(name, kind, help)) == Seq::<SampleView>::empty(),
{
    reveal(all_of);
    lemma_head_reads(name, kind, help);
}

proof fn lemma_samples_of(text: Seq<char>, name: Seq<char>, kind: Kind)
    requires
        is_metric_name(name),
        writes_samples(text, name, kind),
    ensures
        all_of(text, name, kind),
{
    reveal(all_of);
    let ss = choose|ss: Seq<SampleView>| #[trigger]
        samples_text(ss) == text && forall|i: int|
            0 <= i < ss.len() ==> is_sample_of(#[trigger] ss[i], name, kind);
    lemma_samples_read(ss, name, kind);
}

proof fn lemma_single_of(name: Seq<char>, kind: Kind, help: Seq<char>, value: Seq<char>)
    requires
        is_metric_name(name),
        kind != Kind::Histogram,
        is_value(value),
    ensures
        all_of(single_words(name, kind, help, value), name, kind),
        read_samples(single_words(name, kind, help, value)) == seq![
            SampleView { name, labels: Seq::empty(), value },
        ],
{
    reveal(all_of);
    reveal(single_words);
    lemma_head_reads(name, kind, help);
    lemma_sample_reads(name, Seq::empty(), value);
    let head = family_words(name, kind, help);
    let sample = sample_words(name, Seq::empty(), value);
    lemma_read_both(head, sample);
    let one = seq![SampleView { name, labels: Seq::<(Seq<char>, Seq<char>)>::empty(), value }];
    assert(Seq::<SampleView>::empty() + one =~= one);
    assert(sample.len() > 0) by {
        if sample.len() == 0 {
            assert(read_samples(sample).len() == 0);
        }
    }
    assert((head + sample).last() == sample.last());
}

proof fn lemma_filter_of_both(a: Seq<SampleView>, b: Seq<SampleView>, f: spec_fn(SampleView) -> bool)
    ensures
        (a + b).filter(f) == a.filter(f) + b.filter(f),
    decreases b.len(),
{
    reveal(Seq::filter);
    if b.len() == 0 {
        assert(a + b =~= a);
        assert(a.filter(f) + b.filter(f) =~= a.filter(f));
    } else {
        lemma_filter_of_both(a, b.drop_last(), f);
        assert((a + b).drop_last() =~= a + b.drop_last());
        assert((a + b).last() == b.last());
        assert((a + b).filter(f) =~= a.filter(f) + b.filter(f));
    }
}

proof fn lemma_filter_none(a: Seq<SampleView>, f: spec_fn(SampleView) -> bool)
    requires
        forall|i: int| 0 <= i < a.len() ==> !f(#[trigger] a[i]),
    ensures
        a.filter(f) == Seq::<SampleView>::empty(),
    decreases a.len(),
{
    reveal(Seq::filter);
    if a.len() > 0 {
        let rest = a.drop_last();
        assert forall|i: int| 0 <= i < rest.len() implies !f(#[trigger] rest[i]) by {
            assert(rest[i] == a[i]);
        }
        lemma_filter_none(rest, f);
        assert(!f(a[a.len() - 1]));
    }
    assert(a.filter(f) =~= Seq::empty());
}

proof fn lemma_filter_all(a: Seq<SampleView>, f: spec_fn(SampleView) -> bool)
    requires
        forall|i: int| 0 <= i < a.len() ==> f(#[trigger] a[i]),
    ensures
        a.filter(f) == a,
    decreases a.len(),
{
    reveal(Seq::filter);
    if a.len() > 0 {
        let rest = a.drop_last();
        assert forall|i: int| 0 <= i < rest.len() implies f(#[trigger] rest[i]) by {
            assert(rest[i] == a[i]);
        }
        lemma_filter_all(rest, f);
        assert(f(a[a.len() - 1]));
        assert(a =~= rest.push(a.last()));
    } else {
        assert(a.filter(f) =~= a);
    }
}

proof fn lemma_ends_both(a: Seq<char>, b: Seq<char>)
    requires
        ends_its_line(a),
        ends_its_line(b),
    ensures
        ends_its_line(a + b),
{
    if b.len() > 0 {
        assert((a + b).last() == b.last());
    } else {
        assert(a + b =~= a);
    }
}

/// A text behind another adds what it tells under a name.
proof fn lemma_adds(text: Seq<char>, piece: Seq<char>, n: Seq<char>)
    requires
        ends_its_line(text),
        ends_its_line(piece),
    ensures
        ends_its_line(text + piece),
        samples_named(text + piece, n) == samples_named(text, n) + samples_named(piece, n),
        silent_on(piece, n) ==> samples_named(text + piece, n) == samples_named(text, n),
        silent_on(text, n) ==> samples_named(text + piece, n) == samples_named(piece, n),
{
    reveal(samples_named);
    lemma_read_both(text, piece);
    lemma_ends_both(text, piece);
    lemma_filter_of_both(
        read_samples(text),
        read_samples(piece),
        |x: SampleView| x.name == n,
    );
    assert(samples_named(text, n) + Seq::<SampleView>::empty() =~= samples_named(text, n));
    assert(Seq::<SampleView>::empty() + samples_named(piece, n) =~= samples_named(piece, n));
}

/// What a piece of one family tells under a name: all of it under its own, nothing under
/// another.
proof fn lemma_piece(piece: Seq<char>, name: Seq<char>, kind: Kind, n: Seq<char>)
    requires
        all_of(piece, name, kind),
        kind == Kind::Histogram ==> ends_plainly(n),
    ensures
        ends_its_line(piece),
        name == n && kind != Kind::Histogram ==> samples_named(piece, n) == read_samples(piece),
        name != n || kind == Kind::Histogram ==> silent_on(piece, n),
{
    reveal(all_of);
    reveal(samples_named);
    let f = |x: SampleView| x.name == n;
    let all = read_samples(piece);
    reveal_strlit("_bucket");
    reveal_strlit("_sum");
    reveal_strlit("_count");
    if kind == Kind::Histogram {
        assert forall|i: int| 0 <= i < all.len() implies !f(#[trigger] all[i]) by {
            assert(is_sample_of(all[i], name, kind));
            assert(all[i].name.last() == 't' || all[i].name.last() == 'm');
        }
        lemma_filter_none(all, f);
    } else if name == n {
        assert forall|i: int| 0 <= i < all.len() implies f(#[trigger] all[i]) by {
            assert(is_sample_of(all[i], name, kind));
        }
        lemma_filter_all(all, f);
    } else {
        assert forall|i: int| 0 <= i < all.len() implies !f(#[trigger] all[i]) by {
            assert(is_sample_of(all[i], name, kind));
        }
        lemma_filter_none(all, f);
    }
}

/// A piece of one family behind a text.
proof fn lemma_next_piece(text: Seq<char>, piece: Seq<char>, name: Seq<char>, kind: Kind, n: Seq<char>)
    requires
        ends_its_line(text),
        all_of(piece, name, kind),
        kind == Kind::Histogram ==> ends_plainly(n),
    ensures
        ends_its_line(text + piece),
        name != n || kind == Kind::Histogram ==> samples_named(text + piece, n) == samples_named(
            text,
            n,
        ),
        name == n && kind != Kind::Histogram ==> samples_named(text + piece, n) == samples_named(
            text,
            n,
        ) + read_samples(piece),
        name == n && kind != Kind::Histogram && samples_named(text, n) == Seq::<SampleView>::empty()
            ==> samples_named(text + piece, n) == read_samples(piece),
        read_samples(piece).len() == 0 ==> samples_named(text + piece, n) == samples_named(text, n),
{
    lemma_piece(piece, name, kind, n);
    lemma_adds(text, piece, n);
    assert(Seq::<SampleView>::empty() + read_samples(piece) =~= read_samples(piece));
    if read_samples(piece).len() == 0 {
        reveal(samples_named);
        lemma_filter_none(read_samples(piece), |x: SampleView| x.name == n);
    }
}

/// Families tell nothing under a name whose place is not among theirs.
proof fn lemma_elsewhere(text: Seq<char>, lo: int, hi: int, n: Seq<char>)
    requires
        reads(text, lo, hi),
        !(lo <= place(n) < hi),
        ends_plainly(n),
    ensures
        silent_on(text, n),
{
    reveal(samples_named);
    let fs = choose|fs: Seq<FamilyView>| chains(text, fs, lo, hi);
    lemma_families_read(fs);
    let all = read_samples(text);
    let f = |x: SampleView| x.name == n;
    reveal_strlit("_bucket");
    reveal_strlit("_sum");
    reveal_strlit("_count");
    assert forall|k: int| 0 <= k < all.len() implies !f(#[trigger] all[k]) by {
        lemma_sample_of_some(fs, k);
        let i = choose|i: int| 0 <= i < fs.len() && (#[trigger] fs[i]).samples.contains(all[k]);
        let j = choose|j: int| 0 <= j < fs[i].samples.len() && fs[i].samples[j] == all[k];
        assert(is_family(fs[i]));
        assert(is_sample_of(fs[i].samples[j], fs[i].name, fs[i].kind));
        if fs[i].kind == Kind::Histogram {
            assert(all[k].name.last() == 't' || all[k].name.last() == 'm');
        }
    }
    lemma_filter_none(all, f);
}

proof fn lemma_ends(text: Seq<char>, lo: int, hi: int)
    requires
        reads(text, lo, hi),
    ensures
        ends_its_line(text),
{
    let fs = choose|fs: Seq<FamilyView>| chains(text, fs, lo, hi);
    lemma_families_read(fs);
}

/// What is written for each row reads back row by row.
proof fn lemma_each_reads<A>(
    rows: Seq<A>,
    f: spec_fn(A) -> Seq<char>,
    g: spec_fn(A) -> SampleView,
)
    requires
        forall|i: int|
            0 <= i < rows.len() ==> ends_its_line(#[trigger] f(rows[i])) && read_samples(f(rows[i]))
                == seq![g(rows[i])],
    ensures
        ends_its_line(each(rows, f)),
        read_samples(each(rows, f)).len() == rows.len(),
        forall|i: int|
            0 <= i < rows.len() ==> #[trigger] read_samples(each(rows, f))[i] == g(rows[i]),
    decreases rows.len(),
{
    if rows.len() > 0 {
        let rest = rows.drop_last();
        assert forall|i: int| 0 <= i < rest.len() implies ends_its_line(#[trigger] f(rest[i]))
            && read_samples(f(rest[i])) == seq![g(rest[i])] by {
            assert(rest[i] == rows[i]);
            assert(ends_its_line(f(rows[i])));
        }
        lemma_each_reads(rest, f, g);
        assert(ends_its_line(f(rows[rows.len() - 1])));
        lemma_read_both(each(rest, f), f(rows.last()));
        lemma_ends_both(each(rest, f), f(rows.last()));
        let all = read_samples(each(rows, f));
        assert(all == read_samples(each(rest, f)) + seq![g(rows.last())]);
        assert forall|i: int| 0 <= i < rows.len() implies #[trigger] all[i] == g(rows[i]) by {
            if i < rest.len() {
                assert(all[i] == read_samples(each(rest, f))[i]);
                assert(rest[i] == rows[i]);
            }
        }
    }
}

proof fn lemma_one_of(
    name: Seq<char>,
    kind: Kind,
    labels: Seq<(Seq<char>, Seq<char>)>,
    value: Seq<char>,
)
    requires
        is_metric_name(name),
        kind != Kind::Histogram,
        are_labels(labels),
        is_value(value),
    ensures
        all_of(sample_words(name, labels, value), name, kind),
        read_samples(sample_words(name, labels, value)) == seq![SampleView { name, labels, value }],
{
    reveal(all_of);
    lemma_sample_reads(name, labels, value);
}

proof fn lemma_server_tells(s: Scrape, n: Seq<char>)
    requires
        ends_plainly(n),
    ensures
        n == "codesearch_build_info"@ ==> samples_named(server_words(s), n) == seq![
            SampleView { name: n, labels: seq![("version"@, s.version@)], value: decimal(1) },
        ],
        n == "codesearch_uptime_seconds"@ ==> samples_named(server_words(s), n) == seq![
            SampleView {
                name: n,
                labels: Seq::empty(),
                value: fraction(s.uptime_nanos as nat, 9),
            },
        ],
        n == "codesearch_slo_seconds"@ ==> samples_named(server_words(s), n) == seq![
            SampleView { name: n, labels: Seq::empty(), value: fraction(s.slo_ms as nat, 3) },
        ],
        n == "codesearch_read_target_seconds"@ ==> samples_named(server_words(s), n) == seq![
            SampleView {
                name: n,
                labels: Seq::empty(),
                value: fraction(s.read_target_ms as nat, 3),
            },
        ],
{
    lemma_server_names();
    lemma_label_names();
    let kind = Kind::Gauge;
    let info = "codesearch_build_info"@;
    let told = "Always 1; carries the codesearch version."@;
    let p1 = family_words(info, kind, told);
    let labels = seq![("version"@, s.version@)];
    let p2 = sample_words(info, labels, decimal(1));
    lemma_decimal_is_a_value(1);
    lemma_head_of(info, kind, told);
    lemma_one_of(info, kind, labels, decimal(1));
    lemma_piece(p1, info, kind, n);
    lemma_next_piece(p1, p2, info, kind, n);
    let up = fraction(s.uptime_nanos as nat, 9);
    lemma_fraction_is_a_value(s.uptime_nanos as nat, 9);
    let h3 = "Seconds since serve started."@;
    let p3 = single_words("codesearch_uptime_seconds"@, kind, h3, up);
    lemma_single_of("codesearch_uptime_seconds"@, kind, h3, up);
    lemma_next_piece(p1 + p2, p3, "codesearch_uptime_seconds"@, kind, n);
    let slo = fraction(s.slo_ms as nat, 3);
    lemma_fraction_is_a_value(s.slo_ms as nat, 3);
    let h4 = "Tool-call p95 latency SLO."@;
    let p4 = single_words("codesearch_slo_seconds"@, kind, h4, slo);
    lemma_single_of("codesearch_slo_seconds"@, kind, h4, slo);
    lemma_next_piece(p1 + p2 + p3, p4, "codesearch_slo_seconds"@, kind, n);
    let target = fraction(s.read_target_ms as nat, 3);
    lemma_fraction_is_a_value(s.read_target_ms as nat, 3);
    let h5 = "Tool-call latency above which indexing yields."@;
    let p5 = single_words("codesearch_read_target_seconds"@, kind, h5, target);
    lemma_single_of("codesearch_read_target_seconds"@, kind, h5, target);
    lemma_next_piece(p1 + p2 + p3 + p4, p5, "codesearch_read_target_seconds"@, kind, n);
    assert(Seq::<SampleView>::empty() + read_samples(p2) =~= read_samples(p2));
}

proof fn lemma_tool_calls_tell(totals: Seq<ToolTotals>, rows: Seq<WindowRowView>, n: Seq<char>)
    requires
        ends_plainly(n),
    ensures
        n == "codesearch_tool_call_failures_total"@ ==> samples_named(
            tool_calls_words(totals, rows),
            n,
        ) == read_samples(each(totals, failures_words())),
        n == "codesearch_tool_call_latency_seconds"@ ==> samples_named(
            tool_calls_words(totals, rows),
            n,
        ) == read_samples(each(rows, latency_words())),
        n == "codesearch_tool_call_window_calls"@ ==> samples_named(
            tool_calls_words(totals, rows),
            n,
        ) == read_samples(each(rows, calls_words())),
        n == "codesearch_tool_call_window_failures"@ ==> samples_named(
            tool_calls_words(totals, rows),
            n,
        ) == read_samples(each(rows, window_failures_words())),
{
    lemma_tool_call_names();
    lemma_totals(totals);
    lemma_latencies(rows);
    lemma_window_counts(rows);
    let d = "codesearch_tool_call_duration_seconds"@;
    let f = "codesearch_tool_call_failures_total"@;
    let l = "codesearch_tool_call_latency_seconds"@;
    let c = "codesearch_tool_call_window_calls"@;
    let w = "codesearch_tool_call_window_failures"@;
    let h1 = "Tool-call duration since serve started."@;
    let h2 = "Tool calls that returned an error since serve started."@;
    let h3 =
        "Nearest-rank tool-call latency percentile over a trailing window; tool=\"all\" is every call."@;
    let h4 = "Tool calls finished within a trailing window."@;
    let h5 = "Failed tool calls within a trailing window."@;
    let p1 = family_words(d, Kind::Histogram, h1);
    let p2 = each(totals, durations_words());
    let p3 = family_words(f, Kind::Counter, h2);
    let p4 = each(totals, failures_words());
    let p5 = family_words(l, Kind::Gauge, h3);
    let p6 = each(rows, latency_words());
    let p7 = family_words(c, Kind::Gauge, h4);
    let p8 = each(rows, calls_words());
    let p9 = family_words(w, Kind::Gauge, h5);
    let p10 = each(rows, window_failures_words());
    lemma_head_of(d, Kind::Histogram, h1);
    lemma_samples_of(p2, d, Kind::Histogram);
    lemma_head_of(f, Kind::Counter, h2);
    lemma_samples_of(p4, f, Kind::Counter);
    lemma_head_of(l, Kind::Gauge, h3);
    lemma_samples_of(p6, l, Kind::Gauge);
    lemma_head_of(c, Kind::Gauge, h4);
    lemma_samples_of(p8, c, Kind::Gauge);
    lemma_head_of(w, Kind::Gauge, h5);
    lemma_samples_of(p10, w, Kind::Gauge);
    let t2 = p1 + p2;
    let t3 = t2 + p3;
    let t4 = t3 + p4;
    let t5 = t4 + p5;
    let t6 = t5 + p6;
    let t7 = t6 + p7;
    let t8 = t7 + p8;
    let t9 = t8 + p9;
    lemma_piece(p1, d, Kind::Histogram, n);
    lemma_next_piece(p1, p2, d, Kind::Histogram, n);
    lemma_next_piece(t2, p3, f, Kind::Counter, n);
    lemma_next_piece(t3, p4, f, Kind::Counter, n);
    lemma_next_piece(t4, p5, l, Kind::Gauge, n);
    lemma_next_piece(t5, p6, l, Kind::Gauge, n);
    lemma_next_piece(t6, p7, c, Kind::Gauge, n);
    lemma_next_piece(t7, p8, c, Kind::Gauge, n);
    lemma_next_piece(t8, p9, w, Kind::Gauge, n);
    lemma_next_piece(t9, p10, w, Kind::Gauge, n);
}

/// Two samples of one family behind a text that told nothing of it.
proof fn lemma_two_pieces(
    text: Seq<char>,
    p: Seq<char>,
    q: Seq<char>,
    name: Seq<char>,
    kind: Kind,
    n: Seq<char>,
    x: SampleView,
    y: SampleView,
)
    requires
        ends_its_line(text),
        kind != Kind::Histogram,
        all_of(p, name, kind),
        all_of(q, name, kind),
        read_samples(p) == seq![x],
        read_samples(q) == seq![y],
    ensures
        ends_its_line(text + p + q),
        name == n && samples_named(text, n).len() == 0 ==> samples_named(text + p + q, n) == seq![
            x,
            y,
        ],
        name != n ==> samples_named(text + p + q, n) == samples_named(text, n),
{
    lemma_next_piece(text, p, name, kind, n);
    lemma_next_piece(text + p, q, name, kind, n);
    if name == n && samples_named(text, n).len() == 0 {
        assert(samples_named(text, n) =~= Seq::empty());
        assert(seq![x] + seq![y] =~= seq![x, y]);
    }
}

proof fn lemma_status_tells(o: Overall, n: Seq<char>)
    requires
        ends_plainly(n),
    ensures
        n == "codesearch_status"@ ==> samples_named(status_words(o), n) == seq![
            SampleView {
                name: n,
                labels: seq![("status"@, overall_name(OverallStatus::Healthy))],
                value: decimal(status_value(o, OverallStatus::Healthy)),
            },
            SampleView {
                name: n,
                labels: seq![("status"@, overall_name(OverallStatus::Degraded))],
                value: decimal(status_value(o, OverallStatus::Degraded)),
            },
        ],
        n == "codesearch_degraded_reasons"@ ==> samples_named(status_words(o), n) == seq![
            SampleView { name: n, labels: Seq::empty(), value: decimal(o.reasons@.len()) },
        ],
{
    lemma_status_names();
    lemma_label_names();
    let kind = Kind::Gauge;
    let name = "codesearch_status"@;
    let help = "Overall health; the current status is 1. An unreachable serve is down (up == 0)."@;
    let x = OverallStatus::Healthy;
    let y = OverallStatus::Degraded;
    let p1 = family_words(name, kind, help);
    let p2 = status_sample(o, x);
    let p3 = status_sample(o, y);
    lemma_decimal_is_a_value(status_value(o, x));
    lemma_decimal_is_a_value(status_value(o, y));
    lemma_decimal_is_a_value(o.reasons@.len());
    lemma_head_of(name, kind, help);
    let first = seq![("status"@, overall_name(x))];
    let second = seq![("status"@, overall_name(y))];
    lemma_one_of(name, kind, first, decimal(status_value(o, x)));
    lemma_one_of(name, kind, second, decimal(status_value(o, y)));
    let why = "codesearch_degraded_reasons"@;
    let told = "Reasons the overall status is degraded; the text is in /api/summary."@;
    let p4 = single_words(why, kind, told, decimal(o.reasons@.len()));
    lemma_single_of(why, kind, told, decimal(o.reasons@.len()));
    lemma_piece(p1, name, kind, n);
    lemma_two_pieces(
        p1,
        p2,
        p3,
        name,
        kind,
        n,
        SampleView { name, labels: first, value: decimal(status_value(o, x)) },
        SampleView { name, labels: second, value: decimal(status_value(o, y)) },
    );
    lemma_next_piece(p1 + p2 + p3, p4, why, kind, n);
}

proof fn lemma_inputs_tell(g: GovernorInputs, levels: Seq<Seq<char>>, n: Seq<char>)
    requires
        g.other_cpu_ratio matches Some(t) ==> is_value(t@),
        ends_plainly(n),
    ensures
        ends_its_line(inputs_words(g, levels)),
        n == "codesearch_index_governor_recent_read_max_seconds"@ ==> samples_named(
            inputs_words(g, levels),
            n,
        ) == read_samples(read_max_words(g.recent_read_max_ms)),
        n == "codesearch_index_governor_other_cpu_ratio"@ ==> samples_named(
            inputs_words(g, levels),
            n,
        ) == read_samples(other_cpu_words(opt_text(g.other_cpu_ratio))),
        n == "codesearch_index_governor_memory_pressure"@ ==> samples_named(
            inputs_words(g, levels),
            n,
        ) == read_samples(memory_words(opt_text(g.memory_pressure), levels)),
        n == "codesearch_index_governor_on_battery"@ ==> samples_named(inputs_words(g, levels), n)
            == read_samples(battery_words(g.on_battery)),
        read_samples(read_max_words(g.recent_read_max_ms)) == (match g.recent_read_max_ms {
            Some(ms) => seq![
                SampleView {
                    name: "codesearch_index_governor_recent_read_max_seconds"@,
                    labels: Seq::empty(),
                    value: fraction(ms as nat, 3),
                },
            ],
            None => Seq::empty(),
        }),
        read_samples(other_cpu_words(opt_text(g.other_cpu_ratio))) == (match g.other_cpu_ratio {
            Some(t) => seq![
                SampleView {
                    name: "codesearch_index_governor_other_cpu_ratio"@,
                    labels: Seq::empty(),
                    value: t@,
                },
            ],
            None => Seq::empty(),
        }),
        read_samples(battery_words(g.on_battery)) == (match g.on_battery {
            Some(on) => seq![
                SampleView {
                    name: "codesearch_index_governor_on_battery"@,
                    labels: Seq::empty(),
                    value: flag_words(on),
                },
            ],
            None => Seq::empty(),
        }),
        g.memory_pressure is None ==> read_samples(
            memory_words(opt_text(g.memory_pressure), levels),
        ).len() == 0,
        g.memory_pressure matches Some(current) ==> ({
            let all = read_samples(memory_words(opt_text(g.memory_pressure), levels));
            &&& all.len() == levels.len()
            &&& forall|i: int|
                0 <= i < levels.len() ==> #[trigger] all[i] == (SampleView {
                    name: "codesearch_index_governor_memory_pressure"@,
                    labels: seq![("level"@, levels[i])],
                    value: flag_words(levels[i] == current@),
                })
        }),
{
    reveal(all_of);
    lemma_governor_names();
    lemma_label_names();
    let kind = Kind::Gauge;
    let m1 = "codesearch_index_governor_recent_read_max_seconds"@;
    let m2 = "codesearch_index_governor_other_cpu_ratio"@;
    let m3 = "codesearch_index_governor_memory_pressure"@;
    let m4 = "codesearch_index_governor_on_battery"@;
    let p1 = read_max_words(g.recent_read_max_ms);
    let p2 = other_cpu_words(opt_text(g.other_cpu_ratio));
    let p3 = memory_words(opt_text(g.memory_pressure), levels);
    let p4 = battery_words(g.on_battery);
    assert(read_samples(Seq::<char>::empty()) == Seq::<SampleView>::empty());
    match g.recent_read_max_ms {
        Some(ms) => {
            lemma_fraction_is_a_value(ms as nat, 3);
            lemma_single_of(
                m1,
                kind,
                "Slowest interactive tool call in the governor protect window."@,
                fraction(ms as nat, 3),
            );
        },
        None => {},
    }
    match g.other_cpu_ratio {
        Some(t) => {
            lemma_single_of(
                m2,
                kind,
                "CPU used by other processes as a fraction of all cores."@,
                t@,
            );
        },
        None => {},
    }
    match g.on_battery {
        Some(on) => {
            lemma_flag(on);
            lemma_single_of(m4, kind, "1 when the machine is running on battery."@, flag_words(on));
        },
        None => {},
    }
    lemma_memory_tells(opt_text(g.memory_pressure), levels);
    lemma_piece(p1, m1, kind, n);
    lemma_next_piece(p1, p2, m2, kind, n);
    lemma_next_piece(p1 + p2, p3, m3, kind, n);
    lemma_next_piece(p1 + p2 + p3, p4, m4, kind, n);
}

proof fn lemma_memory_tells(level: Option<Seq<char>>, levels: Seq<Seq<char>>)
    ensures
        all_of(
            memory_words(level, levels),
            "codesearch_index_governor_memory_pressure"@,
            Kind::Gauge,
        ),
        level is None ==> read_samples(memory_words(level, levels)).len() == 0,
        level matches Some(current) ==> ({
            let all = read_samples(memory_words(level, levels));
            &&& all.len() == levels.len()
            &&& forall|i: int|
                0 <= i < levels.len() ==> #[trigger] all[i] == (SampleView {
                    name: "codesearch_index_governor_memory_pressure"@,
                    labels: seq![("level"@, levels[i])],
                    value: flag_words(levels[i] == current),
                })
        }),
{
    reveal(all_of);
    lemma_governor_names();
    lemma_label_names();
    let name = "codesearch_index_governor_memory_pressure"@;
    let kind = Kind::Gauge;
    assert(read_samples(Seq::<char>::empty()) == Seq::<SampleView>::empty());
    match level {
        Some(current) => {
            let help = "System memory pressure level; the current level is 1."@;
            let f = pressure_words(current);
            let g = |l: Seq<char>|
                SampleView {
                    name,
                    labels: seq![("level"@, l)],
                    value: flag_words(l == current),
                };
            assert forall|i: int| 0 <= i < levels.len() implies ends_its_line(
                #[trigger] f(levels[i]),
            ) && read_samples(f(levels[i])) == seq![g(levels[i])] by {
                lemma_flag(levels[i] == current);
                lemma_one_of(
                    name,
                    kind,
                    seq![("level"@, levels[i])],
                    flag_words(levels[i] == current),
                );
            }
            lemma_each_reads(levels, f, g);
            let head = family_words(name, kind, help);
            let body = each(levels, f);
            lemma_head_of(name, kind, help);
            lemma_read_both(head, body);
            lemma_ends_both(head, body);
            let all = read_samples(head + body);
            assert(all =~= read_samples(body));
            assert forall|i: int| 0 <= i < all.len() implies is_sample_of(
                #[trigger] all[i],
                name,
                kind,
            ) by {
                assert(all[i] == g(levels[i]));
                lemma_flag(levels[i] == current);
            }
        },
        None => {},
    }
}

/// What stands first of the governor: how many jobs may run, and how many run and wait.
spec fn governor_front(g: GovernorStatus) -> Seq<char> {
    single_words(
        "codesearch_index_governor_max_jobs"@,
        Kind::Gauge,
        "Index jobs allowed to run at once."@,
        decimal(g.max_jobs as nat),
    ) + family_words(
        "codesearch_index_governor_jobs"@,
        Kind::Gauge,
        "Index jobs running or waiting for a slot."@,
    ) + sample_words(
        "codesearch_index_governor_jobs"@,
        seq![("state"@, "running"@)],
        decimal(g.running@.len()),
    ) + sample_words(
        "codesearch_index_governor_jobs"@,
        seq![("state"@, "waiting"@)],
        decimal(g.waiting@.len()),
    )
}

proof fn lemma_front_pieces(
    m1: Seq<char>,
    m2: Seq<char>,
    p1: Seq<char>,
    p2: Seq<char>,
    p3: Seq<char>,
    p4: Seq<char>,
    n: Seq<char>,
    x: SampleView,
    y: SampleView,
    z: SampleView,
)
    requires
        m1 != m2,
        all_of(p1, m1, Kind::Gauge),
        all_of(p2, m2, Kind::Gauge),
        all_of(p3, m2, Kind::Gauge),
        all_of(p4, m2, Kind::Gauge),
        read_samples(p1) == seq![x],
        read_samples(p2) == Seq::<SampleView>::empty(),
        read_samples(p3) == seq![y],
        read_samples(p4) == seq![z],
    ensures
        ends_its_line(p1 + p2 + p3 + p4),
        n == m1 ==> samples_named(p1 + p2 + p3 + p4, n) == seq![x],
        n == m2 ==> samples_named(p1 + p2 + p3 + p4, n) == seq![y, z],
        n != m1 && n != m2 ==> samples_named(p1 + p2 + p3 + p4, n).len() == 0,
{
    lemma_piece(p1, m1, Kind::Gauge, n);
    lemma_next_piece(p1, p2, m2, Kind::Gauge, n);
    lemma_two_pieces(p1 + p2, p3, p4, m2, Kind::Gauge, n, y, z);
}

proof fn lemma_governor_front(g: GovernorStatus, n: Seq<char>)
    ensures
        ends_its_line(governor_front(g)),
        n == "codesearch_index_governor_max_jobs"@ ==> {
            let told = samples_named(governor_front(g), n);
            &&& told.len() == 1
            &&& told[0].labels.len() == 0
            &&& told[0].value == decimal(g.max_jobs as nat)
        },
        n == "codesearch_index_governor_jobs"@ ==> {
            let told = samples_named(governor_front(g), n);
            &&& told.len() == 2
            &&& told[0].labels.len() == 1 && told[0].labels[0] == ("state"@, "running"@)
            &&& told[0].value == decimal(g.running@.len())
            &&& told[1].labels.len() == 1 && told[1].labels[0] == ("state"@, "waiting"@)
            &&& told[1].value == decimal(g.waiting@.len())
        },
        n != "codesearch_index_governor_max_jobs"@ && n != "codesearch_index_governor_jobs"@
            ==> samples_named(governor_front(g), n).len() == 0,
{
    lemma_governor_names();
    let kind = Kind::Gauge;
    let m1 = "codesearch_index_governor_max_jobs"@;
    let m2 = "codesearch_index_governor_jobs"@;
    let h1 = "Index jobs allowed to run at once."@;
    let h2 = "Index jobs running or waiting for a slot."@;
    let max = decimal(g.max_jobs as nat);
    let running = decimal(g.running@.len());
    let waiting = decimal(g.waiting@.len());
    lemma_decimal_is_a_value(g.max_jobs as nat);
    lemma_decimal_is_a_value(g.running@.len());
    lemma_decimal_is_a_value(g.waiting@.len());
    let first = seq![("state"@, "running"@)];
    let second = seq![("state"@, "waiting"@)];
    assert(are_labels(first) && are_labels(second)) by {
        lemma_label_names();
    }
    lemma_single_of(m1, kind, h1, max);
    lemma_head_of(m2, kind, h2);
    lemma_one_of(m2, kind, first, running);
    lemma_one_of(m2, kind, second, waiting);
    lemma_front_pieces(
        m1,
        m2,
        single_words(m1, kind, h1, max),
        family_words(m2, kind, h2),
        sample_words(m2, first, running),
        sample_words(m2, second, waiting),
        n,
        SampleView { name: m1, labels: Seq::empty(), value: max },
        SampleView { name: m2, labels: first, value: running },
        SampleView { name: m2, labels: second, value: waiting },
    );
}

/// What stands behind it: the jobs, those that are paused, and what the governor goes by.
proof fn lemma_governor_behind(
    front: Seq<char>,
    h3: Seq<char>,
    p6: Seq<char>,
    p7: Seq<char>,
    h4: Seq<char>,
    p9: Seq<char>,
    p10: Seq<char>,
    n: Seq<char>,
)
    requires
        ends_its_line(front),
        all_of(p6, "codesearch_index_governor_job_seconds"@, Kind::Gauge),
        all_of(p7, "codesearch_index_governor_job_seconds"@, Kind::Gauge),
        all_of(p9, "codesearch_index_governor_paused_jobs"@, Kind::Gauge),
        ends_its_line(p10),
        !is_input_name(n) ==> silent_on(p10, n),
    ensures
        ({
            let text = front + family_words(
                "codesearch_index_governor_job_seconds"@,
                Kind::Gauge,
                h3,
            ) + p6 + p7 + family_words(
                "codesearch_index_governor_paused_jobs"@,
                Kind::Gauge,
                h4,
            ) + p9 + p10;
            let told = samples_named(text, n);
            &&& n == "codesearch_index_governor_job_seconds"@ && samples_named(front, n).len() == 0
                ==> told == read_samples(p6) + read_samples(p7)
            &&& n == "codesearch_index_governor_paused_jobs"@ && samples_named(front, n).len() == 0
                ==> told == read_samples(p9)
            &&& is_input_name(n) && samples_named(front, n).len() == 0 ==> told == samples_named(
                p10,
                n,
            )
            &&& n == "codesearch_index_governor_max_jobs"@ || n
                == "codesearch_index_governor_jobs"@ ==> told == samples_named(front, n)
        }),
{
    lemma_governor_names();
    let kind = Kind::Gauge;
    let m3 = "codesearch_index_governor_job_seconds"@;
    let m4 = "codesearch_index_governor_paused_jobs"@;
    let p5 = family_words(m3, kind, h3);
    let p8 = family_words(m4, kind, h4);
    lemma_head_of(m3, kind, h3);
    lemma_head_of(m4, kind, h4);
    let t5 = front + p5;
    let t6 = t5 + p6;
    let t7 = t6 + p7;
    let t8 = t7 + p8;
    let t9 = t8 + p9;
    if samples_named(front, n).len() == 0 {
        assert(samples_named(front, n) =~= Seq::empty());
    }
    lemma_next_piece(front, p5, m3, kind, n);
    lemma_next_piece(t5, p6, m3, kind, n);
    lemma_next_piece(t6, p7, m3, kind, n);
    lemma_next_piece(t7, p8, m4, kind, n);
    lemma_next_piece(t8, p9, m4, kind, n);
    lemma_adds(t9, p10, n);
}

proof fn lemma_governor_tells(
    g: GovernorStatus,
    repos: Seq<RepoHealth>,
    levels: Seq<Seq<char>>,
    n: Seq<char>,
)
    requires
        g.inputs.other_cpu_ratio matches Some(t) ==> is_value(t@),
        ends_plainly(n),
        11 <= place(n) < 15 || is_input_name(n),
    ensures
        n == "codesearch_index_governor_max_jobs"@ || n == "codesearch_index_governor_jobs"@
            ==> samples_named(governor_words(g, repos, levels), n) == samples_named(
            governor_front(g),
            n,
        ),
        n == "codesearch_index_governor_job_seconds"@ ==> samples_named(
            governor_words(g, repos, levels),
            n,
        ) == read_samples(each(g.running@, job_words(repos, "running"@))) + read_samples(
            each(g.waiting@, job_words(repos, "waiting"@)),
        ),
        n == "codesearch_index_governor_paused_jobs"@ ==> samples_named(
            governor_words(g, repos, levels),
            n,
        ) == read_samples(each(pause_categories(), paused_words(g.running@))),
        is_input_name(n) ==> samples_named(governor_words(g, repos, levels), n) == samples_named(
            inputs_words(g.inputs, levels),
            n,
        ),
{
    lemma_governor_names();
    let p6 = each(g.running@, job_words(repos, "running"@));
    let p7 = each(g.waiting@, job_words(repos, "waiting"@));
    let p9 = each(pause_categories(), paused_words(g.running@));
    let p10 = inputs_words(g.inputs, levels);
    lemma_jobs(g.running@, repos, "running"@);
    lemma_jobs(g.waiting@, repos, "waiting"@);
    lemma_samples_of(p6, "codesearch_index_governor_job_seconds"@, Kind::Gauge);
    lemma_samples_of(p7, "codesearch_index_governor_job_seconds"@, Kind::Gauge);
    lemma_paused(g.running@);
    lemma_samples_of(p9, "codesearch_index_governor_paused_jobs"@, Kind::Gauge);
    lemma_inputs(g.inputs, levels);
    lemma_ends(p10, 15, 19);
    if !is_input_name(n) {
        lemma_elsewhere(p10, 15, 19, n);
    }
    lemma_governor_front(g, n);
    lemma_governor_behind(
        governor_front(g),
        "Seconds each index job has been running or waiting; repo is the alias."@,
        p6,
        p7,
        "Running index jobs paused at a yield point, by reason."@,
        p9,
        p10,
        n,
    );
}

/// Whether `n` is one of the names of what the governor goes by.
spec fn is_input_name(n: Seq<char>) -> bool {
    ||| n == "codesearch_index_governor_recent_read_max_seconds"@
    ||| n == "codesearch_index_governor_other_cpu_ratio"@
    ||| n == "codesearch_index_governor_memory_pressure"@
    ||| n == "codesearch_index_governor_on_battery"@
}

proof fn lemma_qos_tells(s: Scrape, n: Seq<char>)
    requires
        ends_plainly(n),
    ensures
        n == "codesearch_qos_info"@ ==> samples_named(qos_words(s), n) == seq![
            SampleView {
                name: n,
                labels: seq![
                    ("read"@, or_unset(opt_text(s.qos_read))),
                    ("index"@, or_unset(opt_text(s.qos_index))),
                ],
                value: decimal(1),
            },
        ],
        n == "codesearch_index_threads"@ ==> samples_named(qos_words(s), n) == seq![
            SampleView { name: n, labels: Seq::empty(), value: decimal(s.index_threads as nat) },
        ],
{
    lemma_qos_names();
    lemma_label_names();
    let kind = Kind::Gauge;
    let name = "codesearch_qos_info"@;
    let help = "Always 1; carries the read-path and index-pool QoS classes."@;
    let labels = seq![
        ("read"@, or_unset(opt_text(s.qos_read))),
        ("index"@, or_unset(opt_text(s.qos_index))),
    ];
    let p1 = family_words(name, kind, help);
    let p2 = sample_words(name, labels, decimal(1));
    lemma_decimal_is_a_value(1);
    lemma_decimal_is_a_value(s.index_threads as nat);
    lemma_head_of(name, kind, help);
    lemma_one_of(name, kind, labels, decimal(1));
    let m = "codesearch_index_threads"@;
    let told = "Threads in the index executor pool."@;
    let p3 = single_words(m, kind, told, decimal(s.index_threads as nat));
    lemma_single_of(m, kind, told, decimal(s.index_threads as nat));
    lemma_piece(p1, name, kind, n);
    lemma_next_piece(p1, p2, name, kind, n);
    lemma_next_piece(p1 + p2, p3, m, kind, n);
    assert(Seq::<SampleView>::empty() + read_samples(p2) =~= read_samples(p2));
}

proof fn lemma_repo_family_tells(v: RepoValue, repos: Seq<RepoHealth>)
    requires
        is_metric_name(value_name(v)),
    ensures
        all_of(repo_family_words(v, repos), value_name(v), Kind::Gauge),
        read_samples(repo_family_words(v, repos)) == read_samples(each(repos, repo_value_words(v))),
{
    reveal(all_of);
    let name = value_name(v);
    let f = repo_value_words(v);
    assert forall|i: int| 0 <= i < repos.len() implies writes_samples(
        #[trigger] f(repos[i]),
        name,
        Kind::Gauge,
    ) by {
        lemma_repo_value(v, repos[i]);
    }
    lemma_each(repos, f, name, Kind::Gauge);
    let head = family_words(name, Kind::Gauge, value_help(v));
    let body = each(repos, f);
    lemma_samples_of(body, name, Kind::Gauge);
    lemma_head_of(name, Kind::Gauge, value_help(v));
    lemma_read_both(head, body);
    lemma_ends_both(head, body);
    assert(Seq::<SampleView>::empty() + read_samples(body) =~= read_samples(body));
}

proof fn lemma_repos_tell(repos: Seq<RepoHealth>, n: Seq<char>)
    requires
        ends_plainly(n),
    ensures
        n == "codesearch_repos"@ ==> samples_named(repos_words(repos), n) == seq![
            SampleView { name: n, labels: Seq::empty(), value: decimal(repos.len()) },
        ],
        n == "codesearch_repos_indexing"@ ==> samples_named(repos_words(repos), n) == seq![
            SampleView {
                name: n,
                labels: Seq::empty(),
                value: decimal(repos.filter(has_status("indexing"@)).len()),
            },
        ],
        n == "codesearch_repos_failing"@ ==> samples_named(repos_words(repos), n) == seq![
            SampleView {
                name: n,
                labels: Seq::empty(),
                value: decimal(repos.filter(has_status("failing"@)).len()),
            },
        ],
        n == "codesearch_repos_queued"@ ==> samples_named(repos_words(repos), n) == seq![
            SampleView {
                name: n,
                labels: Seq::empty(),
                value: decimal(repos.filter(is_queued()).len()),
            },
        ],
        n == "codesearch_repo_info"@ ==> samples_named(repos_words(repos), n) == read_samples(
            each(repos, repo_info_words()),
        ),
        forall|v: RepoValue|
            n == #[trigger] value_name(v) ==> samples_named(repos_words(repos), n) == read_samples(
                each(repos, repo_value_words(v)),
            ),
{
    lemma_repo_count_names();
    lemma_repo_value_names();
    let kind = Kind::Gauge;
    let c1 = decimal(repos.len());
    let c2 = decimal(repos.filter(has_status("indexing"@)).len());
    let c3 = decimal(repos.filter(has_status("failing"@)).len());
    let c4 = decimal(repos.filter(is_queued()).len());
    lemma_decimal_is_a_value(repos.len());
    lemma_decimal_is_a_value(repos.filter(has_status("indexing"@)).len());
    lemma_decimal_is_a_value(repos.filter(has_status("failing"@)).len());
    lemma_decimal_is_a_value(repos.filter(is_queued()).len());
    let m1 = "codesearch_repos"@;
    let m2 = "codesearch_repos_indexing"@;
    let m3 = "codesearch_repos_failing"@;
    let m4 = "codesearch_repos_queued"@;
    let m5 = "codesearch_repo_info"@;
    let h1 = "Registered repos."@;
    let h2 = "Repos being indexed now."@;
    let h3 = "Repos whose last index job failed."@;
    let h4 = "Repos waiting for an indexing governor slot."@;
    let h5 = "Always 1; carries the repo path and status (failing, open, warm, indexing, ...)."@;
    let p1 = single_words(m1, kind, h1, c1);
    let p2 = single_words(m2, kind, h2, c2);
    let p3 = single_words(m3, kind, h3, c3);
    let p4 = single_words(m4, kind, h4, c4);
    let p5 = family_words(m5, kind, h5);
    let p6 = each(repos, repo_info_words());
    lemma_single_of(m1, kind, h1, c1);
    lemma_single_of(m2, kind, h2, c2);
    lemma_single_of(m3, kind, h3, c3);
    lemma_single_of(m4, kind, h4, c4);
    lemma_head_of(m5, kind, h5);
    lemma_repo_infos(repos);
    lemma_samples_of(p6, m5, kind);
    let t2 = p1 + p2;
    let t3 = t2 + p3;
    let t4 = t3 + p4;
    let t5 = t4 + p5;
    let t6 = t5 + p6;
    lemma_piece(p1, m1, kind, n);
    lemma_next_piece(p1, p2, m2, kind, n);
    lemma_next_piece(t2, p3, m3, kind, n);
    lemma_next_piece(t3, p4, m4, kind, n);
    lemma_next_piece(t4, p5, m5, kind, n);
    lemma_next_piece(t5, p6, m5, kind, n);
    let v1 = RepoValue::LastIndexed;
    let v2 = RepoValue::LastDuration;
    let v3 = RepoValue::Failures;
    let v4 = RepoValue::PendingChanges;
    let v5 = RepoValue::Indexing;
    let v6 = RepoValue::Queued;
    lemma_repo_family_tells(v1, repos);
    lemma_repo_family_tells(v2, repos);
    lemma_repo_family_tells(v3, repos);
    lemma_repo_family_tells(v4, repos);
    lemma_repo_family_tells(v5, repos);
    lemma_repo_family_tells(v6, repos);
    let t7 = t6 + repo_family_words(v1, repos);
    let t8 = t7 + repo_family_words(v2, repos);
    let t9 = t8 + repo_family_words(v3, repos);
    let t10 = t9 + repo_family_words(v4, repos);
    let t11 = t10 + repo_family_words(v5, repos);
    lemma_next_piece(t6, repo_family_words(v1, repos), value_name(v1), kind, n);
    lemma_next_piece(t7, repo_family_words(v2, repos), value_name(v2), kind, n);
    lemma_next_piece(t8, repo_family_words(v3, repos), value_name(v3), kind, n);
    lemma_next_piece(t9, repo_family_words(v4, repos), value_name(v4), kind, n);
    lemma_next_piece(t10, repo_family_words(v5, repos), value_name(v5), kind, n);
    lemma_next_piece(t11, repo_family_words(v6, repos), value_name(v6), kind, n);
    assert forall|v: RepoValue| n == #[trigger] value_name(v) implies samples_named(
        repos_words(repos),
        n,
    ) == read_samples(each(repos, repo_value_words(v))) by {
        match v {
            RepoValue::LastIndexed => {},
            RepoValue::LastDuration => {},
            RepoValue::Failures => {},
            RepoValue::PendingChanges => {},
            RepoValue::Indexing => {},
            RepoValue::Queued => {},
        }
    }
}

proof fn lemma_process_tells(usage: Option<ProcessUsage>, n: Seq<char>)
    requires
        ends_plainly(n),
    ensures
        n == "process_resident_memory_bytes"@ ==> samples_named(process_words(usage), n) == (
        match usage {
            Some(u) => seq![
                SampleView {
                    name: n,
                    labels: Seq::empty(),
                    value: decimal(u.memory_bytes as nat),
                },
            ],
            None => Seq::empty(),
        }),
        n == "process_cpu_seconds_total"@ ==> samples_named(process_words(usage), n) == (
        match usage {
            Some(u) => seq![
                SampleView { name: n, labels: Seq::empty(), value: fraction(u.cpu_ms as nat, 3) },
            ],
            None => Seq::empty(),
        }),
{
    reveal(samples_named);
    lemma_last_names();
    match usage {
        Some(u) => {
            let a = "process_resident_memory_bytes"@;
            let b = "process_cpu_seconds_total"@;
            let h1 = "Resident memory size in bytes."@;
            let h2 = "User and system CPU time spent in seconds."@;
            lemma_decimal_is_a_value(u.memory_bytes as nat);
            lemma_fraction_is_a_value(u.cpu_ms as nat, 3);
            lemma_single_of(a, Kind::Gauge, h1, decimal(u.memory_bytes as nat));
            lemma_single_of(b, Kind::Counter, h2, fraction(u.cpu_ms as nat, 3));
            let p1 = single_words(a, Kind::Gauge, h1, decimal(u.memory_bytes as nat));
            let p2 = single_words(b, Kind::Counter, h2, fraction(u.cpu_ms as nat, 3));
            lemma_piece(p1, a, Kind::Gauge, n);
            lemma_next_piece(p1, p2, b, Kind::Counter, n);
        },
        None => {
            assert(read_samples(Seq::<char>::empty()) == Seq::<SampleView>::empty());
            lemma_filter_none(Seq::empty(), |x: SampleView| x.name == n);
        },
    }
}

/// Where what a scrape tells under a name stands: in the part that has its place.
proof fn lemma_scrape_tells(s: Scrape, n: Seq<char>)
    requires
        shows_numbers(s),
        ends_plainly(n),
    ensures
        0 <= place(n) < 4 ==> samples_named(scrape_words(s), n) == samples_named(server_words(s), n),
        4 <= place(n) < 9 ==> samples_named(scrape_words(s), n) == samples_named(
            tool_calls_words(s.totals@, window_rows(s.summaries@, texts(s.known_tools@))),
            n,
        ),
        9 <= place(n) < 11 ==> samples_named(scrape_words(s), n) == samples_named(
            status_words(s.overall),
            n,
        ),
        11 <= place(n) < 19 ==> samples_named(scrape_words(s), n) == samples_named(
            governor_words(s.governor, s.repos@, texts(s.pressure_levels@)),
            n,
        ),
        19 <= place(n) < 21 ==> samples_named(scrape_words(s), n) == samples_named(qos_words(s), n),
        21 <= place(n) < 32 ==> samples_named(scrape_words(s), n) == samples_named(
            repos_words(s.repos@),
            n,
        ),
        n == "codesearch_index_events_total"@ ==> samples_named(scrape_words(s), n) == read_samples(
            each(s.events@, event_words()),
        ),
        33 <= place(n) < 35 && n != "codesearch_index_events_total"@ ==> samples_named(
            scrape_words(s),
            n,
        ) == samples_named(process_words(s.usage), n),
{
    let rows = window_rows(s.summaries@, texts(s.known_tools@));
    let levels = texts(s.pressure_levels@);
    lemma_last_names();
    lemma_server(s);
    lemma_tool_calls(s.totals@, rows);
    lemma_status(s.overall);
    lemma_governor(s.governor, s.repos@, levels);
    lemma_qos(s);
    lemma_repos(s.repos@);
    lemma_events(s.events@);
    lemma_process(s.usage);
    let p1 = server_words(s);
    let p2 = tool_calls_words(s.totals@, rows);
    let p3 = status_words(s.overall);
    let p4 = governor_words(s.governor, s.repos@, levels);
    let p5 = qos_words(s);
    let p6 = repos_words(s.repos@);
    let name = "codesearch_index_events_total"@;
    let help = "Index and governor events logged since serve started, by level."@;
    let p7 = family_words(name, Kind::Counter, help);
    let p8 = each(s.events@, event_words());
    let p9 = process_words(s.usage);
    lemma_ends(p1, 0, 4);
    lemma_ends(p2, 4, 9);
    lemma_ends(p3, 9, 11);
    lemma_ends(p4, 11, 19);
    lemma_ends(p5, 19, 21);
    lemma_ends(p6, 21, 32);
    lemma_head_of(name, Kind::Counter, help);
    lemma_samples_of(p8, name, Kind::Counter);
    lemma_ends(p9, 33, 35);
    if !(0 <= place(n) < 4) {
        lemma_elsewhere(p1, 0, 4, n);
    }
    if !(4 <= place(n) < 9) {
        lemma_elsewhere(p2, 4, 9, n);
    }
    if !(9 <= place(n) < 11) {
        lemma_elsewhere(p3, 9, 11, n);
    }
    if !(11 <= place(n) < 19) {
        lemma_elsewhere(p4, 11, 19, n);
    }
    if !(19 <= place(n) < 21) {
        lemma_elsewhere(p5, 19, 21, n);
    }
    if !(21 <= place(n) < 32) {
        lemma_elsewhere(p6, 21, 32, n);
    }
    if !(33 <= place(n) < 35) {
        lemma_elsewhere(p9, 33, 35, n);
    }
    let t2 = p1 + p2;
    let t3 = t2 + p3;
    let t4 = t3 + p4;
    let t5 = t4 + p5;
    let t6 = t5 + p6;
    let t7 = t6 + p7;
    let t8 = t7 + p8;
    lemma_adds(p1, p2, n);
    lemma_adds(t2, p3, n);
    lemma_adds(t3, p4, n);
    lemma_adds(t4, p5, n);
    lemma_adds(t5, p6, n);
    lemma_next_piece(t6, p7, name, Kind::Counter, n);
    lemma_next_piece(t7, p8, name, Kind::Counter, n);
    lemma_adds(t8, p9, n);
}

/// What is written for a row stands among what is written for all.
proof fn lemma_each_holds<A>(rows: Seq<A>, f: spec_fn(A) -> Seq<char>, i: int, j: int)
    requires
        forall|k: int| 0 <= k < rows.len() ==> ends_its_line(#[trigger] f(rows[k])),
        0 <= i < rows.len(),
        0 <= j < read_samples(f(rows[i])).len(),
    ensures
        read_samples(each(rows, f)).contains(read_samples(f(rows[i]))[j]),
    decreases rows.len(),
{
    let rest = rows.drop_last();
    let last = rows.last();
    let x = read_samples(f(rows[i]))[j];
    assert(last == rows[rows.len() - 1]);
    lemma_each_ends(rest, f);
    lemma_read_both(each(rest, f), f(last));
    let a = read_samples(each(rest, f));
    let b = read_samples(f(last));
    if i < rest.len() {
        assert(rest[i] == rows[i]);
        lemma_each_holds(rest, f, i, j);
        let k = choose|k: int| 0 <= k < a.len() && a[k] == x;
        assert((a + b)[k] == x);
    } else {
        assert((a + b)[a.len() + j] == x);
    }
}

proof fn lemma_each_ends<A>(rows: Seq<A>, f: spec_fn(A) -> Seq<char>)
    requires
        forall|k: int| 0 <= k < rows.len() ==> ends_its_line(#[trigger] f(rows[k])),
    ensures
        ends_its_line(each(rows, f)),
    decreases rows.len(),
{
    if rows.len() > 0 {
        let rest = rows.drop_last();
        assert forall|k: int| 0 <= k < rest.len() implies ends_its_line(#[trigger] f(rest[k])) by {
            assert(rest[k] == rows[k]);
        }
        lemma_each_ends(rest, f);
        assert(ends_its_line(f(rows[rows.len() - 1])));
        lemma_ends_both(each(rest, f), f(rows.last()));
    }
}

/// What is written for all is written for some row.
proof fn lemma_each_from<A>(rows: Seq<A>, f: spec_fn(A) -> Seq<char>, k: int) -> (i: int)
    requires
        forall|k: int| 0 <= k < rows.len() ==> ends_its_line(#[trigger] f(rows[k])),
        0 <= k < read_samples(each(rows, f)).len(),
    ensures
        0 <= i < rows.len(),
        read_samples(f(rows[i])).contains(read_samples(each(rows, f))[k]),
    decreases rows.len(),
{
    if rows.len() == 0 {
        assert(read_samples(each(rows, f)) == Seq::<SampleView>::empty());
        0
    } else {
        let rest = rows.drop_last();
        let last = rows.last();
        assert(last == rows[rows.len() - 1]);
        assert forall|k: int| 0 <= k < rest.len() implies ends_its_line(#[trigger] f(rest[k])) by {
            assert(rest[k] == rows[k]);
        }
        lemma_each_ends(rest, f);
        lemma_read_both(each(rest, f), f(last));
        let a = read_samples(each(rest, f));
        let b = read_samples(f(last));
        if k < a.len() {
            let i = lemma_each_from(rest, f, k);
            assert(rest[i] == rows[i]);
            i
        } else {
            assert(b[k - a.len()] == read_samples(each(rows, f))[k]);
            rows.len() - 1
        }
    }
}

/// The sample of a percentile of a row, as it reads.
pub open spec fn quantile_sample(r: WindowRowView, quantile: Seq<char>, v: u64) -> SampleView {
    SampleView {
        name: "codesearch_tool_call_latency_seconds"@,
        labels: seq![("tool"@, r.tool), ("window"@, r.window), ("quantile"@, quantile)],
        value: fraction(v as nat, 3),
    }
}

spec fn listed_quantile(r: WindowRowView, quantile: Seq<char>, ms: Option<u64>) -> Seq<SampleView> {
    match ms {
        Some(v) => seq![quantile_sample(r, quantile, v)],
        None => Seq::empty(),
    }
}

proof fn lemma_quantile_reads(r: WindowRowView, quantile: Seq<char>, ms: Option<u64>)
    ensures
        ends_its_line(quantile_words(r, quantile, ms)),
        read_samples(quantile_words(r, quantile, ms)) == listed_quantile(r, quantile, ms),
{
    match ms {
        Some(v) => {
            assert(are_labels(
                seq![("tool"@, r.tool), ("window"@, r.window), ("quantile"@, quantile)],
            ) && is_metric_name("codesearch_tool_call_latency_seconds"@)) by {
                lemma_label_names();
                lemma_tool_call_names();
            }
            lemma_fraction_is_a_value(v as nat, 3);
            lemma_sample_reads(
                "codesearch_tool_call_latency_seconds"@,
                seq![("tool"@, r.tool), ("window"@, r.window), ("quantile"@, quantile)],
                fraction(v as nat, 3),
            );
        },
        None => {
            assert(read_samples(Seq::<char>::empty()) == Seq::<SampleView>::empty());
        },
    }
}

proof fn lemma_row_reads(r: WindowRowView)
    ensures
        ends_its_line(latency_words()(r)),
        read_samples(latency_words()(r)) == listed_quantile(r, "0.5"@, r.stats.p50)
            + listed_quantile(r, "0.95"@, r.stats.p95) + listed_quantile(r, "0.98"@, r.stats.p98)
            + listed_quantile(r, "0.99"@, r.stats.p99) + listed_quantile(r, "1"@, r.stats.p100),
{
    lemma_quantile_reads(r, "0.5"@, r.stats.p50);
    lemma_quantile_reads(r, "0.95"@, r.stats.p95);
    lemma_quantile_reads(r, "0.98"@, r.stats.p98);
    lemma_quantile_reads(r, "0.99"@, r.stats.p99);
    lemma_quantile_reads(r, "1"@, r.stats.p100);
    let a = quantile_words(r, "0.5"@, r.stats.p50);
    let b = quantile_words(r, "0.95"@, r.stats.p95);
    let c = quantile_words(r, "0.98"@, r.stats.p98);
    let d = quantile_words(r, "0.99"@, r.stats.p99);
    let e = quantile_words(r, "1"@, r.stats.p100);
    lemma_read_both(a, b);
    lemma_ends_both(a, b);
    lemma_read_both(a + b, c);
    lemma_ends_both(a + b, c);
    lemma_read_both(a + b + c, d);
    lemma_ends_both(a + b + c, d);
    lemma_read_both(a + b + c + d, e);
    lemma_ends_both(a + b + c + d, e);
}

/// The rows of the windows of a scrape.
pub open spec fn rows_of(s: Scrape) -> Seq<WindowRowView> {
    window_rows(s.summaries@, texts(s.known_tools@))
}

/// Every percentile that is told is one of a row.
pub proof fn lemma_told_percentile(s: Scrape, k: int) -> (i: int)
    requires
        shows_numbers(s),
        0 <= k < samples_named(scrape_words(s), "codesearch_tool_call_latency_seconds"@).len(),
    ensures
        0 <= i < rows_of(s).len(),
        ({
            let x = samples_named(scrape_words(s), "codesearch_tool_call_latency_seconds"@)[k];
            let r = rows_of(s)[i];
            ||| r.stats.p50 matches Some(v) && x == quantile_sample(r, "0.5"@, v)
            ||| r.stats.p95 matches Some(v) && x == quantile_sample(r, "0.95"@, v)
            ||| r.stats.p98 matches Some(v) && x == quantile_sample(r, "0.98"@, v)
            ||| r.stats.p99 matches Some(v) && x == quantile_sample(r, "0.99"@, v)
            ||| r.stats.p100 matches Some(v) && x == quantile_sample(r, "1"@, v)
        }),
{
    let rows = rows_of(s);
    let n = "codesearch_tool_call_latency_seconds"@;
    lemma_tool_call_names();
    lemma_scrape_tells(s, n);
    lemma_tool_calls_tell(s.totals@, rows, n);
    let f = latency_words();
    assert forall|k: int| 0 <= k < rows.len() implies ends_its_line(#[trigger] f(rows[k])) by {
        lemma_row_reads(rows[k]);
    }
    let i = lemma_each_from(rows, f, k);
    lemma_row_reads(rows[i]);
    i
}

/// Every percentile of a row is told.
pub proof fn lemma_percentile_is_told(s: Scrape, i: int)
    requires
        shows_numbers(s),
        0 <= i < rows_of(s).len(),
    ensures
        ({
            let told = samples_named(scrape_words(s), "codesearch_tool_call_latency_seconds"@);
            let r = rows_of(s)[i];
            &&& r.stats.p50 matches Some(v) ==> told.contains(quantile_sample(r, "0.5"@, v))
            &&& r.stats.p95 matches Some(v) ==> told.contains(quantile_sample(r, "0.95"@, v))
            &&& r.stats.p98 matches Some(v) ==> told.contains(quantile_sample(r, "0.98"@, v))
            &&& r.stats.p99 matches Some(v) ==> told.contains(quantile_sample(r, "0.99"@, v))
            &&& r.stats.p100 matches Some(v) ==> told.contains(quantile_sample(r, "1"@, v))
        }),
{
    let rows = rows_of(s);
    let n = "codesearch_tool_call_latency_seconds"@;
    lemma_tool_call_names();
    lemma_scrape_tells(s, n);
    lemma_tool_calls_tell(s.totals@, rows, n);
    let f = latency_words();
    assert forall|k: int| 0 <= k < rows.len() implies ends_its_line(#[trigger] f(rows[k])) by {
        lemma_row_reads(rows[k]);
    }
    let r = rows[i];
    lemma_row_reads(r);
    let all = read_samples(f(r));
    let a = listed_quantile(r, "0.5"@, r.stats.p50);
    let b = listed_quantile(r, "0.95"@, r.stats.p95);
    let c = listed_quantile(r, "0.98"@, r.stats.p98);
    let d = listed_quantile(r, "0.99"@, r.stats.p99);
    if let Some(v) = r.stats.p50 {
        assert(all[0] == quantile_sample(r, "0.5"@, v));
        lemma_each_holds(rows, f, i, 0);
    }
    if let Some(v) = r.stats.p95 {
        let j = a.len() as int;
        assert(all[j] == quantile_sample(r, "0.95"@, v));
        lemma_each_holds(rows, f, i, j);
    }
    if let Some(v) = r.stats.p98 {
        let j = (a.len() + b.len()) as int;
        assert(all[j] == quantile_sample(r, "0.98"@, v));
        lemma_each_holds(rows, f, i, j);
    }
    if let Some(v) = r.stats.p99 {
        let j = (a.len() + b.len() + c.len()) as int;
        assert(all[j] == quantile_sample(r, "0.99"@, v));
        lemma_each_holds(rows, f, i, j);
    }
    if let Some(v) = r.stats.p100 {
        let j = (a.len() + b.len() + c.len() + d.len()) as int;
        assert(all[j] == quantile_sample(r, "1"@, v));
        lemma_each_holds(rows, f, i, j);
    }
}

proof fn lemma_counts_read(rows: Seq<WindowRowView>)
    ensures
        read_samples(each(rows, calls_words())).len() == rows.len(),
        read_samples(each(rows, window_failures_words())).len() == rows.len(),
        forall|i: int|
            0 <= i < rows.len() ==> #[trigger] read_samples(each(rows, calls_words()))[i] == (
            SampleView {
                name: "codesearch_tool_call_window_calls"@,
                labels: seq![("tool"@, rows[i].tool), ("window"@, rows[i].window)],
                value: decimal(rows[i].stats.count as nat),
            }),
        forall|i: int|
            0 <= i < rows.len() ==> #[trigger] read_samples(each(rows, window_failures_words()))[i]
                == (SampleView {
                name: "codesearch_tool_call_window_failures"@,
                labels: seq![("tool"@, rows[i].tool), ("window"@, rows[i].window)],
                value: decimal(rows[i].stats.failures as nat),
            }),
{
    let f = calls_words();
    let g = |r: WindowRowView|
        SampleView {
            name: "codesearch_tool_call_window_calls"@,
            labels: seq![("tool"@, r.tool), ("window"@, r.window)],
            value: decimal(r.stats.count as nat),
        };
    assert forall|i: int| 0 <= i < rows.len() implies ends_its_line(#[trigger] f(rows[i]))
        && read_samples(f(rows[i])) == seq![g(rows[i])] by {
        let r = rows[i];
        lemma_label_names();
        lemma_tool_call_names();
        lemma_decimal_is_a_value(r.stats.count as nat);
        lemma_sample_reads(
            "codesearch_tool_call_window_calls"@,
            seq![("tool"@, r.tool), ("window"@, r.window)],
            decimal(r.stats.count as nat),
        );
    }
    lemma_each_reads(rows, f, g);
    let p = window_failures_words();
    let q = |r: WindowRowView|
        SampleView {
            name: "codesearch_tool_call_window_failures"@,
            labels: seq![("tool"@, r.tool), ("window"@, r.window)],
            value: decimal(r.stats.failures as nat),
        };
    assert forall|i: int| 0 <= i < rows.len() implies ends_its_line(#[trigger] p(rows[i]))
        && read_samples(p(rows[i])) == seq![q(rows[i])] by {
        let r = rows[i];
        lemma_label_names();
        lemma_tool_call_names();
        lemma_decimal_is_a_value(r.stats.failures as nat);
        lemma_sample_reads(
            "codesearch_tool_call_window_failures"@,
            seq![("tool"@, r.tool), ("window"@, r.window)],
            decimal(r.stats.failures as nat),
        );
    }
    lemma_each_reads(rows, p, q);
}

/// The calls and the failed calls that are told of the windows, row by row.
pub proof fn lemma_told_counts(s: Scrape)
    requires
        shows_numbers(s),
    ensures
        ({
            let rows = rows_of(s);
            let calls = samples_named(scrape_words(s), "codesearch_tool_call_window_calls"@);
            let failed = samples_named(scrape_words(s), "codesearch_tool_call_window_failures"@);
            &&& calls.len() == rows.len()
            &&& failed.len() == rows.len()
            &&& forall|i: int|
                0 <= i < rows.len() ==> (#[trigger] calls[i]).labels == seq![
                    ("tool"@, rows[i].tool),
                    ("window"@, rows[i].window),
                ] && calls[i].value == decimal(rows[i].stats.count as nat)
            &&& forall|i: int|
                0 <= i < rows.len() ==> (#[trigger] failed[i]).labels == seq![
                    ("tool"@, rows[i].tool),
                    ("window"@, rows[i].window),
                ] && failed[i].value == decimal(rows[i].stats.failures as nat)
        }),
{
    let rows = rows_of(s);
    let a = "codesearch_tool_call_window_calls"@;
    let b = "codesearch_tool_call_window_failures"@;
    assert(stands_at(a, 7) && stands_at(b, 8)) by {
        lemma_tool_call_names();
    }
    lemma_scrape_tells(s, a);
    lemma_tool_calls_tell(s.totals@, rows, a);
    lemma_scrape_tells(s, b);
    lemma_tool_calls_tell(s.totals@, rows, b);
    lemma_counts_read(rows);
}

/// The failed calls that are told of the tools, tool by tool.
pub proof fn lemma_told_failures(s: Scrape)
    requires
        shows_numbers(s),
    ensures
        ({
            let told = samples_named(scrape_words(s), "codesearch_tool_call_failures_total"@);
            &&& told.len() == s.totals@.len()
            &&& forall|i: int|
                0 <= i < told.len() ==> (#[trigger] told[i]).labels == seq![
                    ("tool"@, s.totals@[i].tool@),
                ] && told[i].value == decimal(s.totals@[i].failures as nat)
        }),
{
    let totals = s.totals@;
    let n = "codesearch_tool_call_failures_total"@;
    assert(stands_at(n, 5)) by {
        lemma_tool_call_names();
    }
    lemma_scrape_tells(s, n);
    lemma_tool_calls_tell(totals, rows_of(s), n);
    let f = failures_words();
    let g = |t: ToolTotals|
        SampleView {
            name: n,
            labels: seq![("tool"@, t.tool@)],
            value: decimal(t.failures as nat),
        };
    assert forall|i: int| 0 <= i < totals.len() implies ends_its_line(#[trigger] f(totals[i]))
        && read_samples(f(totals[i])) == seq![g(totals[i])] by {
        lemma_label_names();
        lemma_decimal_is_a_value(totals[i].failures as nat);
        lemma_sample_reads(n, seq![("tool"@, totals[i].tool@)], decimal(totals[i].failures as nat));
    }
    lemma_each_reads(totals, f, g);
}

/// The events that are told, level by level.
pub proof fn lemma_told_events(s: Scrape)
    requires
        shows_numbers(s),
    ensures
        ({
            let told = samples_named(scrape_words(s), "codesearch_index_events_total"@);
            &&& told.len() == s.events@.len()
            &&& forall|i: int|
                0 <= i < told.len() ==> (#[trigger] told[i]).labels == seq![
                    ("level"@, s.events@[i].level@),
                ] && told[i].value == decimal(s.events@[i].total as nat)
        }),
{
    let events = s.events@;
    let n = "codesearch_index_events_total"@;
    lemma_last_names();
    lemma_scrape_tells(s, n);
    let f = event_words();
    let g = |e: EventTotal|
        SampleView { name: n, labels: seq![("level"@, e.level@)], value: decimal(e.total as nat) };
    assert forall|i: int| 0 <= i < events.len() implies ends_its_line(#[trigger] f(events[i]))
        && read_samples(f(events[i])) == seq![g(events[i])] by {
        lemma_label_names();
        lemma_decimal_is_a_value(events[i].total as nat);
        lemma_sample_reads(n, seq![("level"@, events[i].level@)], decimal(events[i].total as nat));
    }
    lemma_each_reads(events, f, g);
}

/// What is told under a name.
pub open spec fn told(s: Scrape, n: Seq<char>) -> Seq<SampleView> {
    samples_named(scrape_words(s), n)
}

/// The one sample without labels.
pub open spec fn plain(n: Seq<char>, value: Seq<char>) -> Seq<SampleView> {
    seq![SampleView { name: n, labels: Seq::empty(), value }]
}

/// The four names of the server as such.
pub proof fn lemma_told_server(s: Scrape)
    requires
        shows_numbers(s),
    ensures
        told(s, "codesearch_build_info"@) == seq![
            SampleView {
                name: "codesearch_build_info"@,
                labels: seq![("version"@, s.version@)],
                value: decimal(1),
            },
        ],
        told(s, "codesearch_uptime_seconds"@) == plain(
            "codesearch_uptime_seconds"@,
            fraction(s.uptime_nanos as nat, 9),
        ),
        told(s, "codesearch_slo_seconds"@) == plain(
            "codesearch_slo_seconds"@,
            fraction(s.slo_ms as nat, 3),
        ),
        told(s, "codesearch_read_target_seconds"@) == plain(
            "codesearch_read_target_seconds"@,
            fraction(s.read_target_ms as nat, 3),
        ),
{
    let a = "codesearch_build_info"@;
    let b = "codesearch_uptime_seconds"@;
    let c = "codesearch_slo_seconds"@;
    let d = "codesearch_read_target_seconds"@;
    assert(stands_at(a, 0) && stands_at(b, 1) && stands_at(c, 2) && stands_at(d, 3)) by {
        lemma_server_names();
    }
    lemma_scrape_tells(s, a);
    lemma_server_tells(s, a);
    lemma_scrape_tells(s, b);
    lemma_server_tells(s, b);
    lemma_scrape_tells(s, c);
    lemma_server_tells(s, c);
    lemma_scrape_tells(s, d);
    lemma_server_tells(s, d);
}

/// The two names of the overall health.
pub proof fn lemma_told_status(s: Scrape)
    requires
        shows_numbers(s),
    ensures
        ({
            let t = told(s, "codesearch_status"@);
            &&& t.len() == 2
            &&& t[0].labels == seq![("status"@, overall_name(OverallStatus::Healthy))]
            &&& t[0].value == decimal(status_value(s.overall, OverallStatus::Healthy))
            &&& t[1].labels == seq![("status"@, overall_name(OverallStatus::Degraded))]
            &&& t[1].value == decimal(status_value(s.overall, OverallStatus::Degraded))
        }),
        told(s, "codesearch_degraded_reasons"@) == plain(
            "codesearch_degraded_reasons"@,
            decimal(s.overall.reasons@.len()),
        ),
{
    let a = "codesearch_status"@;
    let b = "codesearch_degraded_reasons"@;
    assert(stands_at(a, 9) && stands_at(b, 10)) by {
        lemma_status_names();
    }
    lemma_scrape_tells(s, a);
    lemma_status_tells(s.overall, a);
    lemma_scrape_tells(s, b);
    lemma_status_tells(s.overall, b);
}

/// The names of the scheduling classes and of the process.
pub proof fn lemma_told_process(s: Scrape)
    requires
        shows_numbers(s),
    ensures
        ({
            let t = told(s, "codesearch_qos_info"@);
            &&& t.len() == 1
            &&& t[0].labels == seq![
                ("read"@, or_unset(opt_text(s.qos_read))),
                ("index"@, or_unset(opt_text(s.qos_index))),
            ]
            &&& t[0].value == decimal(1)
        }),
        told(s, "codesearch_index_threads"@) == plain(
            "codesearch_index_threads"@,
            decimal(s.index_threads as nat),
        ),
        told(s, "process_resident_memory_bytes"@) == (match s.usage {
            Some(u) => plain("process_resident_memory_bytes"@, decimal(u.memory_bytes as nat)),
            None => Seq::empty(),
        }),
        told(s, "process_cpu_seconds_total"@) == (match s.usage {
            Some(u) => plain("process_cpu_seconds_total"@, fraction(u.cpu_ms as nat, 3)),
            None => Seq::empty(),
        }),
{
    let a = "codesearch_qos_info"@;
    let b = "codesearch_index_threads"@;
    let c = "process_resident_memory_bytes"@;
    let d = "process_cpu_seconds_total"@;
    assert(stands_at(a, 19) && stands_at(b, 20)) by {
        lemma_qos_names();
    }
    assert(stands_at(c, 33) && stands_at(d, 34) && stands_at("codesearch_index_events_total"@, 32))
        by {
        lemma_last_names();
    }
    lemma_scrape_tells(s, a);
    lemma_qos_tells(s, a);
    lemma_scrape_tells(s, b);
    lemma_qos_tells(s, b);
    lemma_scrape_tells(s, c);
    lemma_process_tells(s.usage, c);
    lemma_scrape_tells(s, d);
    lemma_process_tells(s.usage, d);
}

/// The numbers of jobs of the governor.
pub proof fn lemma_told_jobs(s: Scrape)
    requires
        shows_numbers(s),
    ensures
        ({
            let t = told(s, "codesearch_index_governor_max_jobs"@);
            &&& t.len() == 1
            &&& t[0].labels.len() == 0
            &&& t[0].value == decimal(s.governor.max_jobs as nat)
        }),
        ({
            let t = told(s, "codesearch_index_governor_jobs"@);
            &&& t.len() == 2
            &&& t[0].labels.len() == 1 && t[0].labels[0] == ("state"@, "running"@)
            &&& t[0].value == decimal(s.governor.running@.len())
            &&& t[1].labels.len() == 1 && t[1].labels[0] == ("state"@, "waiting"@)
            &&& t[1].value == decimal(s.governor.waiting@.len())
        }),
{
    let a = "codesearch_index_governor_max_jobs"@;
    let b = "codesearch_index_governor_jobs"@;
    let levels = texts(s.pressure_levels@);
    assert(stands_at(a, 11) && stands_at(b, 12)) by {
        lemma_governor_names();
    }
    lemma_scrape_tells(s, a);
    lemma_governor_tells(s.governor, s.repos@, levels, a);
    lemma_governor_front(s.governor, a);
    lemma_scrape_tells(s, b);
    lemma_governor_tells(s.governor, s.repos@, levels, b);
    lemma_governor_front(s.governor, b);
}

proof fn lemma_jobs_read(repos: Seq<RepoHealth>, state: Seq<char>, jobs: Seq<GovernorJob>)
    ensures
        read_samples(each(jobs, job_words(repos, state))).len() == jobs.len(),
        forall|i: int|
            0 <= i < jobs.len() ==> #[trigger] read_samples(each(jobs, job_words(repos, state)))[i]
                == (SampleView {
                name: "codesearch_index_governor_job_seconds"@,
                labels: seq![
                    ("repo"@, alias_at(repos, jobs[i].label@)),
                    ("priority"@, jobs[i].priority@),
                    ("state"@, state),
                ],
                value: decimal(jobs[i].secs as nat),
            }),
{
    let f = job_words(repos, state);
    let g = |j: GovernorJob|
        SampleView {
            name: "codesearch_index_governor_job_seconds"@,
            labels: seq![
                ("repo"@, alias_at(repos, j.label@)),
                ("priority"@, j.priority@),
                ("state"@, state),
            ],
            value: decimal(j.secs as nat),
        };
    assert forall|i: int| 0 <= i < jobs.len() implies ends_its_line(#[trigger] f(jobs[i]))
        && read_samples(f(jobs[i])) == seq![g(jobs[i])] by {
        let labels = seq![
            ("repo"@, alias_at(repos, jobs[i].label@)),
            ("priority"@, jobs[i].priority@),
            ("state"@, state),
        ];
        assert(are_labels(labels) && is_metric_name("codesearch_index_governor_job_seconds"@)) by {
            lemma_label_names();
            lemma_governor_names();
        }
        lemma_decimal_is_a_value(jobs[i].secs as nat);
        lemma_sample_reads(
            "codesearch_index_governor_job_seconds"@,
            labels,
            decimal(jobs[i].secs as nat),
        );
    }
    lemma_each_reads(jobs, f, g);
}

/// The jobs that are told: those that run, then those that wait.
pub proof fn lemma_told_job_seconds(s: Scrape)
    requires
        shows_numbers(s),
    ensures
        ({
            let t = told(s, "codesearch_index_governor_job_seconds"@);
            let running = s.governor.running@;
            let waiting = s.governor.waiting@;
            &&& t.len() == running.len() + waiting.len()
            &&& forall|i: int|
                0 <= i < running.len() ==> (#[trigger] t[i]).labels == seq![
                    ("repo"@, alias_at(s.repos@, running[i].label@)),
                    ("priority"@, running[i].priority@),
                    ("state"@, "running"@),
                ] && t[i].value == decimal(running[i].secs as nat)
            &&& forall|i: int|
                running.len() <= i < t.len() ==> (#[trigger] t[i]).labels == seq![
                    ("repo"@, alias_at(s.repos@, waiting[i - running.len()].label@)),
                    ("priority"@, waiting[i - running.len()].priority@),
                    ("state"@, "waiting"@),
                ] && t[i].value == decimal(waiting[i - running.len()].secs as nat)
        }),
{
    let n = "codesearch_index_governor_job_seconds"@;
    assert(stands_at(n, 13)) by {
        lemma_governor_names();
    }
    lemma_scrape_tells(s, n);
    lemma_governor_tells(s.governor, s.repos@, texts(s.pressure_levels@), n);
    lemma_jobs_read(s.repos@, "running"@, s.governor.running@);
    lemma_jobs_read(s.repos@, "waiting"@, s.governor.waiting@);
}

/// The paused jobs that are told, reason by reason.
pub proof fn lemma_told_paused(s: Scrape)
    requires
        shows_numbers(s),
    ensures
        ({
            let t = told(s, "codesearch_index_governor_paused_jobs"@);
            &&& t.len() == pause_categories().len()
            &&& forall|i: int|
                0 <= i < t.len() ==> (#[trigger] t[i]).labels == seq![
                    ("reason"@, pause_categories()[i]),
                ] && t[i].value == decimal(
                    s.governor.running@.filter(paused_for(pause_categories()[i])).len(),
                )
        }),
{
    let n = "codesearch_index_governor_paused_jobs"@;
    assert(stands_at(n, 14)) by {
        lemma_governor_names();
    }
    lemma_scrape_tells(s, n);
    lemma_governor_tells(s.governor, s.repos@, texts(s.pressure_levels@), n);
    let running = s.governor.running@;
    let f = paused_words(running);
    let g = |c: Seq<char>|
        SampleView {
            name: n,
            labels: seq![("reason"@, c)],
            value: decimal(running.filter(paused_for(c)).len()),
        };
    let all = pause_categories();
    assert forall|i: int| 0 <= i < all.len() implies ends_its_line(#[trigger] f(all[i]))
        && read_samples(f(all[i])) == seq![g(all[i])] by {
        let labels = seq![("reason"@, all[i])];
        assert(are_labels(labels)) by {
            lemma_label_names();
        }
        lemma_decimal_is_a_value(running.filter(paused_for(all[i])).len());
        lemma_sample_reads(n, labels, decimal(running.filter(paused_for(all[i])).len()));
    }
    lemma_each_reads(all, f, g);
}

/// What the governor goes by, as far as it is known.
pub proof fn lemma_told_inputs(s: Scrape)
    requires
        shows_numbers(s),
    ensures
        told(s, "codesearch_index_governor_recent_read_max_seconds"@) == (
        match s.governor.inputs.recent_read_max_ms {
            Some(ms) => plain(
                "codesearch_index_governor_recent_read_max_seconds"@,
                fraction(ms as nat, 3),
            ),
            None => Seq::empty(),
        }),
        told(s, "codesearch_index_governor_other_cpu_ratio"@) == (
        match s.governor.inputs.other_cpu_ratio {
            Some(t) => plain("codesearch_index_governor_other_cpu_ratio"@, t@),
            None => Seq::empty(),
        }),
        told(s, "codesearch_index_governor_on_battery"@) == (match s.governor.inputs.on_battery {
            Some(on) => plain("codesearch_index_governor_on_battery"@, flag_words(on)),
            None => Seq::empty(),
        }),
        s.governor.inputs.memory_pressure is None ==> told(
            s,
            "codesearch_index_governor_memory_pressure"@,
        ).len() == 0,
        s.governor.inputs.memory_pressure matches Some(current) ==> ({
            let t = told(s, "codesearch_index_governor_memory_pressure"@);
            let levels = s.pressure_levels@;
            &&& t.len() == levels.len()
            &&& forall|i: int|
                0 <= i < levels.len() ==> (#[trigger] t[i]).labels == seq![("level"@, levels[i]@)]
                    && t[i].value == flag_words(levels[i]@ == current@)
        }),
{
    let a = "codesearch_index_governor_recent_read_max_seconds"@;
    let b = "codesearch_index_governor_other_cpu_ratio"@;
    let c = "codesearch_index_governor_memory_pressure"@;
    let d = "codesearch_index_governor_on_battery"@;
    let g = s.governor.inputs;
    let levels = texts(s.pressure_levels@);
    assert(stands_at(a, 15) && stands_at(b, 16) && stands_at(c, 17) && stands_at(d, 18)) by {
        lemma_governor_names();
    }
    lemma_scrape_tells(s, a);
    lemma_governor_tells(s.governor, s.repos@, levels, a);
    lemma_inputs_tell(g, levels, a);
    lemma_scrape_tells(s, b);
    lemma_governor_tells(s.governor, s.repos@, levels, b);
    lemma_inputs_tell(g, levels, b);
    lemma_scrape_tells(s, c);
    lemma_governor_tells(s.governor, s.repos@, levels, c);
    lemma_inputs_tell(g, levels, c);
    lemma_scrape_tells(s, d);
    lemma_governor_tells(s.governor, s.repos@, levels, d);
    lemma_inputs_tell(g, levels, d);
}

/// The numbers of repositories, and what is told of each.
pub proof fn lemma_told_repos(s: Scrape)
    requires
        shows_numbers(s),
    ensures
        told(s, "codesearch_repos"@) == plain("codesearch_repos"@, decimal(s.repos@.len())),
        told(s, "codesearch_repos_indexing"@) == plain(
            "codesearch_repos_indexing"@,
            decimal(s.repos@.filter(has_status("indexing"@)).len()),
        ),
        told(s, "codesearch_repos_failing"@) == plain(
            "codesearch_repos_failing"@,
            decimal(s.repos@.filter(has_status("failing"@)).len()),
        ),
        told(s, "codesearch_repos_queued"@) == plain(
            "codesearch_repos_queued"@,
            decimal(s.repos@.filter(is_queued()).len()),
        ),
        ({
            let t = told(s, "codesearch_repo_info"@);
            &&& t.len() == s.repos@.len()
            &&& forall|i: int|
                0 <= i < t.len() ==> (#[trigger] t[i]).labels == seq![
                    ("repo"@, s.repos@[i].alias@),
                    ("path"@, s.repos@[i].path@),
                    ("status"@, s.repos@[i].status@),
                ] && t[i].value == decimal(1)
        }),
{
    let repos = s.repos@;
    let a = "codesearch_repos"@;
    let b = "codesearch_repos_indexing"@;
    let c = "codesearch_repos_failing"@;
    let d = "codesearch_repos_queued"@;
    let e = "codesearch_repo_info"@;
    assert(stands_at(a, 21) && stands_at(b, 22) && stands_at(c, 23) && stands_at(d, 24)
        && stands_at(e, 25)) by {
        lemma_repo_count_names();
    }
    lemma_scrape_tells(s, a);
    lemma_repos_tell(repos, a);
    lemma_scrape_tells(s, b);
    lemma_repos_tell(repos, b);
    lemma_scrape_tells(s, c);
    lemma_repos_tell(repos, c);
    lemma_scrape_tells(s, d);
    lemma_repos_tell(repos, d);
    lemma_scrape_tells(s, e);
    lemma_repos_tell(repos, e);
    let f = repo_info_words();
    let g = |r: RepoHealth|
        SampleView {
            name: e,
            labels: seq![("repo"@, r.alias@), ("path"@, r.path@), ("status"@, r.status@)],
            value: decimal(1),
        };
    assert forall|i: int| 0 <= i < repos.len() implies ends_its_line(#[trigger] f(repos[i]))
        && read_samples(f(repos[i])) == seq![g(repos[i])] by {
        let labels = seq![
            ("repo"@, repos[i].alias@),
            ("path"@, repos[i].path@),
            ("status"@, repos[i].status@),
        ];
        assert(are_labels(labels)) by {
            lemma_label_names();
        }
        lemma_decimal_is_a_value(1);
        lemma_sample_reads(e, labels, decimal(1));
    }
    lemma_each_reads(repos, f, g);
}

/// A number that is told of a repository is one that the repository has; and each that a
/// repository has is told.
pub proof fn lemma_told_repo_value(s: Scrape, v: RepoValue)
    requires
        shows_numbers(s),
    ensures
        forall|k: int|
            0 <= k < told(s, value_name(v)).len() ==> is_repo_value(
                s.repos@,
                v,
                #[trigger] told(s, value_name(v))[k],
            ),
        forall|i: int|
            0 <= i < s.repos@.len() && value_words(v, #[trigger] s.repos@[i]) is Some ==> told(
                s,
                value_name(v),
            ).contains(
                SampleView {
                    name: value_name(v),
                    labels: seq![("repo"@, s.repos@[i].alias@)],
                    value: value_words(v, s.repos@[i])->0,
                },
            ),
{
    let repos = s.repos@;
    let n = value_name(v);
    lemma_repo_value_names();
    lemma_scrape_tells(s, n);
    lemma_repos_tell(repos, n);
    let f = repo_value_words(v);
    assert forall|i: int| 0 <= i < repos.len() implies ends_its_line(#[trigger] f(repos[i])) by {
        lemma_repo_value_reads(v, repos[i]);
    }
    assert forall|k: int| 0 <= k < told(s, n).len() implies is_repo_value(
        repos,
        v,
        #[trigger] told(s, n)[k],
    ) by {
        let i = lemma_each_from(repos, f, k);
        lemma_repo_value_reads(v, repos[i]);
        assert(told(s, n)[k].value == value_words(v, repos[i])->0);
    }
    assert forall|i: int|
        0 <= i < repos.len() && value_words(v, #[trigger] repos[i]) is Some implies told(
        s,
        n,
    ).contains(
        SampleView {
            name: n,
            labels: seq![("repo"@, repos[i].alias@)],
            value: value_words(v, repos[i])->0,
        },
    ) by {
        lemma_repo_value_reads(v, repos[i]);
        lemma_each_holds(repos, f, i, 0);
    }
}

/// Whether a sample tells the number of one of the repositories.
pub open spec fn is_repo_value(repos: Seq<RepoHealth>, v: RepoValue, x: SampleView) -> bool {
    exists|i: int|
        0 <= i < repos.len() && x.labels == seq![("repo"@, (#[trigger] repos[i]).alias@)]
            && value_words(v, repos[i]) == Some(x.value)
}

proof fn lemma_repo_value_reads(v: RepoValue, r: RepoHealth)
    ensures
        ends_its_line(repo_value_words(v)(r)),
        value_words(v, r) is None ==> read_samples(repo_value_words(v)(r)) == Seq::<
            SampleView,
        >::empty(),
        value_words(v, r) matches Some(value) ==> read_samples(repo_value_words(v)(r)) == seq![
            SampleView { name: value_name(v), labels: seq![("repo"@, r.alias@)], value },
        ],
{
    match value_words(v, r) {
        Some(value) => {
            let labels = seq![("repo"@, r.alias@)];
            assert(are_labels(labels)) by {
                lemma_label_names();
            }
            assert(is_metric_name(value_name(v))) by {
                lemma_repo_value_names();
            }
            assert(is_value(value)) by {
                match v {
                    RepoValue::LastIndexed => {
                        lemma_fraction_is_a_value(r.outcome.indexed_at_ms->0 as nat, 3);
                    },
                    RepoValue::LastDuration => {
                        lemma_fraction_is_a_value(r.outcome.duration_ms->0 as nat, 3);
                    },
                    RepoValue::Failures => {
                        lemma_decimal_is_a_value(r.outcome.failures as nat);
                    },
                    RepoValue::PendingChanges => {
                        lemma_decimal_is_a_value(r.changes as nat);
                    },
                    RepoValue::Indexing => {
                        lemma_flag(r.status@ == "indexing"@);
                    },
                    RepoValue::Queued => {
                        lemma_flag(r.queued);
                    },
                }
            }
            lemma_sample_reads(value_name(v), labels, value);
        },
        None => {
            assert(read_samples(Seq::<char>::empty()) == Seq::<SampleView>::empty());
        },
    }
}

/// What a text tells it tells with another behind it, and what that one tells.
proof fn lemma_keeps(text: Seq<char>, piece: Seq<char>, x: SampleView)
    requires
        ends_its_line(text),
        ends_its_line(piece),
        read_samples(text).contains(x) || read_samples(piece).contains(x),
    ensures
        ends_its_line(text + piece),
        read_samples(text + piece).contains(x),
{
    lemma_read_both(text, piece);
    lemma_ends_both(text, piece);
    let a = read_samples(text);
    let b = read_samples(piece);
    if a.contains(x) {
        let k = choose|k: int| 0 <= k < a.len() && a[k] == x;
        assert((a + b)[k] == x);
    } else {
        let k = choose|k: int| 0 <= k < b.len() && b[k] == x;
        assert((a + b)[a.len() + k] == x);
    }
}

proof fn lemma_ends_all(text: Seq<char>, name: Seq<char>, kind: Kind)
    requires
        all_of(text, name, kind),
    ensures
        ends_its_line(text),
{
    reveal(all_of);
}

/// What is written of the durations of a tool stands among the families of the tool calls.
proof fn lemma_durations_stay(
    totals: Seq<ToolTotals>,
    rows: Seq<WindowRowView>,
    x: SampleView,
)
    requires
        read_samples(each(totals, durations_words())).contains(x),
    ensures
        read_samples(tool_calls_words(totals, rows)).contains(x),
{
    lemma_tool_call_names();
    lemma_totals(totals);
    lemma_latencies(rows);
    lemma_window_counts(rows);
    let d = "codesearch_tool_call_duration_seconds"@;
    let f = "codesearch_tool_call_failures_total"@;
    let l = "codesearch_tool_call_latency_seconds"@;
    let c = "codesearch_tool_call_window_calls"@;
    let w = "codesearch_tool_call_window_failures"@;
    let h1 = "Tool-call duration since serve started."@;
    let h2 = "Tool calls that returned an error since serve started."@;
    let h3 =
        "Nearest-rank tool-call latency percentile over a trailing window; tool=\"all\" is every call."@;
    let h4 = "Tool calls finished within a trailing window."@;
    let h5 = "Failed tool calls within a trailing window."@;
    let p1 = family_words(d, Kind::Histogram, h1);
    let p2 = each(totals, durations_words());
    let p3 = family_words(f, Kind::Counter, h2);
    let p4 = each(totals, failures_words());
    let p5 = family_words(l, Kind::Gauge, h3);
    let p6 = each(rows, latency_words());
    let p7 = family_words(c, Kind::Gauge, h4);
    let p8 = each(rows, calls_words());
    let p9 = family_words(w, Kind::Gauge, h5);
    let p10 = each(rows, window_failures_words());
    lemma_head_of(d, Kind::Histogram, h1);
    lemma_samples_of(p2, d, Kind::Histogram);
    lemma_head_of(f, Kind::Counter, h2);
    lemma_samples_of(p4, f, Kind::Counter);
    lemma_head_of(l, Kind::Gauge, h3);
    lemma_samples_of(p6, l, Kind::Gauge);
    lemma_head_of(c, Kind::Gauge, h4);
    lemma_samples_of(p8, c, Kind::Gauge);
    lemma_head_of(w, Kind::Gauge, h5);
    lemma_samples_of(p10, w, Kind::Gauge);
    lemma_ends_all(p1, d, Kind::Histogram);
    lemma_ends_all(p2, d, Kind::Histogram);
    lemma_ends_all(p3, f, Kind::Counter);
    lemma_ends_all(p4, f, Kind::Counter);
    lemma_ends_all(p5, l, Kind::Gauge);
    lemma_ends_all(p6, l, Kind::Gauge);
    lemma_ends_all(p7, c, Kind::Gauge);
    lemma_ends_all(p8, c, Kind::Gauge);
    lemma_ends_all(p9, w, Kind::Gauge);
    lemma_ends_all(p10, w, Kind::Gauge);
    let t2 = p1 + p2;
    let t3 = t2 + p3;
    let t4 = t3 + p4;
    let t5 = t4 + p5;
    let t6 = t5 + p6;
    let t7 = t6 + p7;
    let t8 = t7 + p8;
    let t9 = t8 + p9;
    lemma_keeps(p1, p2, x);
    lemma_keeps(t2, p3, x);
    lemma_keeps(t3, p4, x);
    lemma_keeps(t4, p5, x);
    lemma_keeps(t5, p6, x);
    lemma_keeps(t6, p7, x);
    lemma_keeps(t7, p8, x);
    lemma_keeps(t8, p9, x);
    lemma_keeps(t9, p10, x);
}

/// What stands among the families of the tool calls stands in the scrape.
proof fn lemma_tool_calls_stay(s: Scrape, x: SampleView)
    requires
        shows_numbers(s),
        read_samples(tool_calls_words(s.totals@, rows_of(s))).contains(x),
    ensures
        read_samples(scrape_words(s)).contains(x),
{
    let rows = rows_of(s);
    let levels = texts(s.pressure_levels@);
    lemma_last_names();
    lemma_server(s);
    lemma_tool_calls(s.totals@, rows);
    lemma_status(s.overall);
    lemma_governor(s.governor, s.repos@, levels);
    lemma_qos(s);
    lemma_repos(s.repos@);
    lemma_events(s.events@);
    lemma_process(s.usage);
    let p1 = server_words(s);
    let p2 = tool_calls_words(s.totals@, rows);
    let p3 = status_words(s.overall);
    let p4 = governor_words(s.governor, s.repos@, levels);
    let p5 = qos_words(s);
    let p6 = repos_words(s.repos@);
    let name = "codesearch_index_events_total"@;
    let help = "Index and governor events logged since serve started, by level."@;
    let p7 = family_words(name, Kind::Counter, help);
    let p8 = each(s.events@, event_words());
    let p9 = process_words(s.usage);
    lemma_ends(p1, 0, 4);
    lemma_ends(p2, 4, 9);
    lemma_ends(p3, 9, 11);
    lemma_ends(p4, 11, 19);
    lemma_ends(p5, 19, 21);
    lemma_ends(p6, 21, 32);
    lemma_head_of(name, Kind::Counter, help);
    lemma_samples_of(p8, name, Kind::Counter);
    lemma_ends_all(p7, name, Kind::Counter);
    lemma_ends_all(p8, name, Kind::Counter);
    lemma_ends(p9, 33, 35);
    let t2 = p1 + p2;
    let t3 = t2 + p3;
    let t4 = t3 + p4;
    let t5 = t4 + p5;
    let t6 = t5 + p6;
    let t7 = t6 + p7;
    let t8 = t7 + p8;
    lemma_keeps(p1, p2, x);
    lemma_keeps(t2, p3, x);
    lemma_keeps(t3, p4, x);
    lemma_keeps(t4, p5, x);
    lemma_keeps(t5, p6, x);
    lemma_keeps(t6, p7, x);
    lemma_keeps(t7, p8, x);
    lemma_keeps(t8, p9, x);
}

/// The histogram of the durations of each tool stands in the scrape.
pub proof fn lemma_told_durations(s: Scrape, i: int, j: int)
    requires
        shows_numbers(s),
        0 <= i < s.totals@.len(),
        0 <= j < read_samples(durations_words()(s.totals@[i])).len(),
    ensures
        read_samples(scrape_words(s)).contains(
            read_samples(durations_words()(s.totals@[i]))[j],
        ),
{
    let f = durations_words();
    let name = "codesearch_tool_call_duration_seconds"@;
    lemma_tool_call_names();
    assert forall|k: int| 0 <= k < s.totals@.len() implies ends_its_line(
        #[trigger] f(s.totals@[k]),
    ) by {
        let t = s.totals@[k];
        lemma_histogram(name, t.tool@, t.histogram@);
        lemma_samples_of(f(t), name, Kind::Histogram);
        lemma_ends_all(f(t), name, Kind::Histogram);
    }
    lemma_each_holds(s.totals@, f, i, j);
    let x = read_samples(f(s.totals@[i]))[j];
    lemma_durations_stay(s.totals@, rows_of(s), x);
    lemma_tool_calls_stay(s, x);
}

/// The name and the labels of the durations of a tool can be written.
pub proof fn lemma_duration_names(tool: Seq<char>)
    ensures
        is_metric_name("codesearch_tool_call_duration_seconds"@),
        are_labels(seq![("tool"@, tool)]),
        forall|v: Seq<char>| are_labels(#[trigger] seq![("tool"@, tool)].push(("le"@, v))),
{
    lemma_tool_call_names();
    lemma_label_names();
}

} // verus!
