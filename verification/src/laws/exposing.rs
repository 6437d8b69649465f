//! What an exposition and its histograms tell, read back from its text.
use crate::exposition::{
    at_most_ms, bucket_bounds, buckets_words, escape_label, escaped, fraction, format_value,
    histogram_words, label_views, law_labels_read_back, number_words, sample_words, single_words,
    tool_call_buckets_ms, total, unescaped, within_ms, Exposition, Histogram, Kind, Number,
};
use crate::grammar::{
    are_labels, is_label_name, is_metric_name, is_name_char, is_value, lemma_decimal_is_a_value,
    lemma_fraction_is_a_value, SampleView,
};
use crate::laws::scraping::lemma_sifted_alike;
use crate::metrics::{durations_words, render, Scrape};
use crate::reader::{
    ends_its_line, lemma_decimal_reads, lemma_fraction_reads, lemma_head_reads, lemma_read_both,
    lemma_sample_reads, read_samples, read_units,
};
use crate::scrape::{lemma_duration_names, lemma_told_durations, shows_numbers};
use crate::text::{decimal, digits_value};
use vstd::prelude::*;

verus! {

/// A number is written so that it reads back: a whole one in digits, thousandths and
/// billionths with as many places as they need.
pub proof fn law_numbers_read_back(n: Number, r: String)
    requires
        call_ensures(format_value, (&n,), r),
    ensures
        n matches Number::Whole(v) ==> digits_value(r@) == v && read_units(r@, 0) == v,
        n matches Number::Thousandths(v) ==> read_units(r@, 3) == v,
        n matches Number::Billionths(v) ==> read_units(r@, 9) == v,
        n matches Number::Shown(s) ==> r@ == s@,
        n is Infinite ==> r@ == "+Inf"@,
        n is NegativeInfinite ==> r@ == "-Inf"@,
        n is NotANumber ==> r@ == "NaN"@,
{
    match n {
        Number::Whole(v) => {
            lemma_decimal_reads(v as nat);
            lemma_fraction_reads(v as nat, 0);
        },
        Number::Thousandths(v) => {
            lemma_fraction_reads(v as nat, 3);
        },
        Number::Billionths(v) => {
            lemma_fraction_reads(v as nat, 9);
        },
        _ => {},
    }
}

/// A label reads back once it is unescaped, and stands on one line.
pub proof fn law_escaped_labels_read_back(value: &str, r: String)
    requires
        call_ensures(escape_label, (value,), r),
    ensures
        unescaped(r@) == value@,
        !r@.contains('\n'),
        !value@.contains('\\') && !value@.contains('"') && !value@.contains('\n') ==> r@ == value@,
{
    law_labels_read_back(value@);
    if !value@.contains('\\') && !value@.contains('"') && !value@.contains('\n') {
        lemma_plain(value@);
    }
}

proof fn lemma_plain(s: Seq<char>)
    requires
        !s.contains('\\') && !s.contains('"') && !s.contains('\n'),
    ensures
        escaped(s) == s,
    decreases s.len(),
{
    if s.len() > 0 {
        let rest = s.drop_last();
        assert forall|c: char| rest.contains(c) implies s.contains(c) by {
            let k = choose|k: int| 0 <= k < rest.len() && rest[k] == c;
            assert(s[k] == c);
        }
        lemma_plain(rest);
        assert(s.contains(s[s.len() - 1]));
        assert(escaped(s) =~= s);
    } else {
        assert(escaped(s) =~= s);
    }
}

/// A sample that is written is read back behind what stood before, with its name, its labels
/// and its number; the head of a family adds none.
pub proof fn law_samples_read_back(
    m: &mut Exposition,
    name: &str,
    labels: Vec<(&str, &str)>,
    value: Number,
)
    requires
        call_ensures(Exposition::sample, (m, name, &labels, &value), ()),
        ends_its_line(old(m)@),
        is_metric_name(name@),
        are_labels(label_views(labels@)),
        value is Whole || value is Thousandths || value is Billionths,
    ensures
        ({
            let before = read_samples(old(m)@);
            let after = read_samples(final(m)@);
            let n = before.len() as int;
            &&& ends_its_line(final(m)@)
            &&& after.len() == n + 1
            &&& after.take(n) == before
            &&& after[n].name == name@
            &&& after[n].labels.len() == labels@.len()
            &&& forall|i: int|
                0 <= i < labels@.len() ==> (#[trigger] after[n].labels[i]).0 == labels@[i].0@
                    && after[n].labels[i].1 == labels@[i].1@
            &&& value matches Number::Whole(v) ==> digits_value(after[n].value) == v
            &&& value matches Number::Thousandths(v) ==> read_units(after[n].value, 3) == v
            &&& value matches Number::Billionths(v) ==> read_units(after[n].value, 9) == v
        }),
{
    match value {
        Number::Whole(v) => {
            lemma_decimal_is_a_value(v as nat);
            lemma_decimal_reads(v as nat);
        },
        Number::Thousandths(v) => {
            lemma_fraction_is_a_value(v as nat, 3);
            lemma_fraction_reads(v as nat, 3);
        },
        Number::Billionths(v) => {
            lemma_fraction_is_a_value(v as nat, 9);
            lemma_fraction_reads(v as nat, 9);
        },
        _ => {},
    }
    let words = sample_words(name@, label_views(labels@), number_words(value));
    lemma_sample_reads(name@, label_views(labels@), number_words(value));
    lemma_read_both(old(m)@, words);
    lemma_ends_after(old(m)@, words);
    let before = read_samples(old(m)@);
    assert(read_samples(final(m)@).take(before.len() as int) =~= before);
}

proof fn lemma_ends_after(a: Seq<char>, b: Seq<char>)
    requires
        ends_its_line(b),
        ends_its_line(a),
    ensures
        ends_its_line(a + b),
{
    if b.len() > 0 {
        assert((a + b).last() == b.last());
    } else {
        assert(a + b =~= a);
    }
}

/// The head of a family adds no sample; a family of one sample adds that one, without labels.
pub proof fn law_families_read_back(
    m: &mut Exposition,
    k: &mut Exposition,
    name: &str,
    kind: Kind,
    help: &str,
    v: u64,
)
    requires
        call_ensures(Exposition::family, (m, name, kind, help), ()),
        call_ensures(Exposition::single, (k, name, kind, help, &Number::Whole(v)), ()),
        ends_its_line(old(m)@),
        ends_its_line(old(k)@),
        is_metric_name(name@),
    ensures
        ends_its_line(final(m)@),
        read_samples(final(m)@) == read_samples(old(m)@),
        ({
            let before = read_samples(old(k)@);
            let after = read_samples(final(k)@);
            let n = before.len() as int;
            &&& ends_its_line(final(k)@)
            &&& after.len() == n + 1
            &&& after.take(n) == before
            &&& after[n].name == name@
            &&& after[n].labels.len() == 0
            &&& digits_value(after[n].value) == v
        }),
{
    lemma_head_reads(name@, kind, help@);
    let head = crate::exposition::family_words(name@, kind, help@);
    lemma_read_both(old(m)@, head);
    lemma_ends_after(old(m)@, head);
    assert(read_samples(old(m)@) + Seq::<SampleView>::empty() =~= read_samples(old(m)@));
    reveal(single_words);
    lemma_decimal_is_a_value(v as nat);
    lemma_decimal_reads(v as nat);
    let words = sample_words(name@, Seq::empty(), decimal(v as nat));
    lemma_sample_reads(name@, Seq::empty(), decimal(v as nat));
    lemma_read_both(head, words);
    lemma_ends_after(head, words);
    lemma_read_both(old(k)@, head + words);
    lemma_ends_after(old(k)@, head + words);
    let before = read_samples(old(k)@);
    assert(read_samples(final(k)@).take(before.len() as int) =~= before);
}

/// The buckets of tool calls end at these milliseconds.
pub proof fn law_bucket_bounds(r: Vec<u64>)
    requires
        call_ensures(tool_call_buckets_ms, (), r),
    ensures
        r@ == seq![10u64, 25, 50, 100, 250, 500, 1_000, 2_500, 5_000, 10_000, 30_000],
{
}

/// A histogram counts each duration once, adds it up, and counts it in every bucket that ends
/// at or behind it.
pub proof fn law_observing(
    h: &mut Histogram,
    nanos: u64,
    before: Vec<u64>,
    n: u64,
    s: u128,
    t: Histogram,
    after: Vec<u64>,
    n2: u64,
    s2: u128,
    bounds: Vec<u64>,
    i: int,
)
    requires
        old(h)@.len() < u64::MAX,
        call_ensures(Histogram::observe, (h, nanos), ()),
        t@ == final(h)@,
        call_ensures(Histogram::cumulative, (&*h,), before),
        call_ensures(Histogram::count, (&*h,), n),
        call_ensures(Histogram::sum, (&*h,), s),
        call_ensures(Histogram::cumulative, (&t,), after),
        call_ensures(Histogram::count, (&t,), n2),
        call_ensures(Histogram::sum, (&t,), s2),
        call_ensures(tool_call_buckets_ms, (), bounds),
    ensures
        n2 == n + 1,
        s2 == s + nanos,
        after@.len() == bounds@.len(),
        before@.len() == bounds@.len(),
        0 <= i < bounds@.len() && nanos <= bounds@[i] * 1_000_000 ==> after@[i] == before@[i] + 1,
        0 <= i < bounds@.len() && nanos > bounds@[i] * 1_000_000 ==> after@[i] == before@[i],
{
    assert(final(h)@.drop_last() =~= old(h)@);
    if 0 <= i < bounds@.len() {
        reveal(Seq::filter);
        let f = within_ms(bounds@[i]);
        assert(final(h)@.filter(f).len() == old(h)@.filter(f).len() + (if f(nanos) {
            1int
        } else {
            0
        }));
        assert(after@[i] == at_most_ms(t@, bucket_bounds()[i]));
        assert(before@[i] == at_most_ms(old(h)@, bucket_bounds()[i]));
    }
}

/// A new histogram has counted nothing.
pub proof fn law_a_new_histogram(h: Histogram, n: u64, s: u128, below: Vec<u64>, i: int)
    requires
        call_ensures(Histogram::new, (), h),
        call_ensures(Histogram::count, (&h,), n),
        call_ensures(Histogram::sum, (&h,), s),
        call_ensures(Histogram::cumulative, (&h,), below),
    ensures
        n == 0,
        s == 0,
        0 <= i < below@.len() ==> below@[i] == 0,
{
    reveal(Seq::filter);
    if 0 <= i < below@.len() {
        assert(below@[i] == at_most_ms(h@, bucket_bounds()[i]));
    }
}

proof fn lemma_ending(name: Seq<char>, ending: Seq<char>)
    requires
        is_metric_name(name),
        forall|i: int| 0 <= i < ending.len() ==> is_name_char(#[trigger] ending[i]),
    ensures
        is_metric_name(name + ending),
{
    let s = name + ending;
    assert forall|i: int| 0 <= i < s.len() implies is_name_char(#[trigger] s[i]) by {
        if i < name.len() {
            assert(s[i] == name[i]);
        } else {
            assert(s[i] == ending[i - name.len()]);
        }
    }
}

proof fn lemma_buckets_read(
    name: Seq<char>,
    labels: Seq<(Seq<char>, Seq<char>)>,
    observed: Seq<u64>,
    n: nat,
)
    requires
        is_metric_name(name + "_bucket"@),
        forall|v: Seq<char>| are_labels(#[trigger] labels.push(("le"@, v))),
        n <= bucket_bounds().len(),
    ensures
        ends_its_line(buckets_words(name, labels, observed, n)),
        read_samples(buckets_words(name, labels, observed, n)).len() == n,
        forall|i: int|
            0 <= i < n ==> #[trigger] read_samples(buckets_words(name, labels, observed, n))[i] == (
            SampleView {
                name: name + "_bucket"@,
                labels: labels.push(("le"@, fraction(bucket_bounds()[i] as nat, 3))),
                value: decimal(at_most_ms(observed, bucket_bounds()[i])),
            }),
    decreases n,
{
    if n == 0 {
        assert(read_samples(Seq::<char>::empty()) == Seq::<SampleView>::empty());
    } else {
        let k = (n - 1) as nat;
        lemma_buckets_read(name, labels, observed, k);
        let bound = bucket_bounds()[n - 1];
        let l = labels.push(("le"@, fraction(bound as nat, 3)));
        let v = decimal(at_most_ms(observed, bound));
        lemma_decimal_is_a_value(at_most_ms(observed, bound));
        assert(are_labels(l));
        lemma_sample_reads(name + "_bucket"@, l, v);
        let head = buckets_words(name, labels, observed, k);
        let last = sample_words(name + "_bucket"@, l, v);
        lemma_read_both(head, last);
        lemma_ends_after(head, last);
        let all = read_samples(head + last);
        assert forall|i: int| 0 <= i < n implies #[trigger] all[i] == (SampleView {
            name: name + "_bucket"@,
            labels: labels.push(("le"@, fraction(bucket_bounds()[i] as nat, 3))),
            value: decimal(at_most_ms(observed, bucket_bounds()[i])),
        }) by {
            if i < k {
                assert(all[i] == read_samples(head)[i]);
            }
        }
    }
}

proof fn lemma_histogram_reads(
    name: Seq<char>,
    labels: Seq<(Seq<char>, Seq<char>)>,
    observed: Seq<u64>,
)
    requires
        is_metric_name(name),
        are_labels(labels),
        forall|v: Seq<char>| are_labels(#[trigger] labels.push(("le"@, v))),
    ensures
        ends_its_line(histogram_words(name, labels, observed)),
        ({
            let all = read_samples(histogram_words(name, labels, observed));
            &&& all.len() == 14
            &&& forall|i: int|
                0 <= i < 11 ==> #[trigger] all[i] == (SampleView {
                    name: name + "_bucket"@,
                    labels: labels.push(("le"@, fraction(bucket_bounds()[i] as nat, 3))),
                    value: decimal(at_most_ms(observed, bucket_bounds()[i])),
                })
            &&& all[11] == (SampleView {
                name: name + "_bucket"@,
                labels: labels.push(("le"@, "+Inf"@)),
                value: decimal(observed.len()),
            })
            &&& all[12] == (SampleView {
                name: name + "_sum"@,
                labels,
                value: fraction(total(observed), 9),
            })
            &&& all[13] == (SampleView {
                name: name + "_count"@,
                labels,
                value: decimal(observed.len()),
            })
        }),
{
    reveal(histogram_words);
    reveal_strlit("_bucket");
    reveal_strlit("_sum");
    reveal_strlit("_count");
    lemma_ending(name, "_bucket"@);
    lemma_ending(name, "_sum"@);
    lemma_ending(name, "_count"@);
    lemma_buckets_read(name, labels, observed, 11);
    lemma_decimal_is_a_value(observed.len());
    lemma_fraction_is_a_value(total(observed), 9);
    assert(are_labels(labels.push(("le"@, "+Inf"@))));
    let below = buckets_words(name, labels, observed, 11);
    let a = sample_words(name + "_bucket"@, labels.push(("le"@, "+Inf"@)), decimal(observed.len()));
    let b = sample_words(name + "_sum"@, labels, fraction(total(observed), 9));
    let c = sample_words(name + "_count"@, labels, decimal(observed.len()));
    lemma_sample_reads(
        name + "_bucket"@,
        labels.push(("le"@, "+Inf"@)),
        decimal(observed.len()),
    );
    lemma_sample_reads(name + "_sum"@, labels, fraction(total(observed), 9));
    lemma_sample_reads(name + "_count"@, labels, decimal(observed.len()));
    lemma_read_both(below, a);
    lemma_ends_after(below, a);
    lemma_read_both(below + a, b);
    lemma_ends_after(below + a, b);
    lemma_read_both(below + a + b, c);
    lemma_ends_after(below + a + b, c);
}

/// A histogram that is written tells, behind what stood before, for each of its eleven bounds
/// how many durations are no longer, then how many there are, their sum in seconds, and once
/// more how many there are; each with the labels.
pub proof fn law_histograms_read_back(
    m: &mut Exposition,
    name: &str,
    labels: Vec<(&str, &str)>,
    h: Histogram,
    n: u64,
    s: u128,
    below: Vec<u64>,
    bounds: Vec<u64>,
    i: int,
)
    requires
        call_ensures(Exposition::histogram, (m, name, &labels, &h), ()),
        call_ensures(Histogram::count, (&h,), n),
        call_ensures(Histogram::sum, (&h,), s),
        call_ensures(Histogram::cumulative, (&h,), below),
        call_ensures(tool_call_buckets_ms, (), bounds),
        ends_its_line(old(m)@),
        is_metric_name(name@),
        are_labels(label_views(labels@)),
        forall|v: Seq<char>| are_labels(#[trigger] label_views(labels@).push(("le"@, v))),
        0 <= i < 11,
    ensures
        ({
            let k = read_samples(old(m)@).len() as int;
            let all = read_samples(final(m)@);
            let given = label_views(labels@);
            &&& all.len() == k + 14
            &&& all.take(k) == read_samples(old(m)@)
            &&& all[k + i].name == name@ + "_bucket"@
            &&& all[k + i].labels.drop_last() == given
            &&& all[k + i].labels.last().0 == "le"@
            &&& read_units(all[k + i].labels.last().1, 3) == bounds@[i]
            &&& digits_value(all[k + i].value) == below@[i]
            &&& all[k + 11].name == name@ + "_bucket"@
            &&& all[k + 11].labels == given.push(("le"@, "+Inf"@))
            &&& digits_value(all[k + 11].value) == n
            &&& all[k + 12].name == name@ + "_sum"@
            &&& all[k + 12].labels == given
            &&& read_units(all[k + 12].value, 9) == s
            &&& all[k + 13].name == name@ + "_count"@
            &&& all[k + 13].labels == given
            &&& digits_value(all[k + 13].value) == n
        }),
{
    let given = label_views(labels@);
    let words = histogram_words(name@, given, h@);
    lemma_histogram_reads(name@, given, h@);
    lemma_read_both(old(m)@, words);
    let k = read_samples(old(m)@).len() as int;
    let all = read_samples(final(m)@);
    assert(all.take(k) =~= read_samples(old(m)@));
    assert(all[k + i] == read_samples(words)[i]);
    assert(all[k + 11] == read_samples(words)[11]);
    assert(all[k + 12] == read_samples(words)[12]);
    assert(all[k + 13] == read_samples(words)[13]);
    assert(all[k + i].labels.drop_last() =~= given);
    lemma_fraction_reads(bucket_bounds()[i] as nat, 3);
    lemma_decimal_reads(at_most_ms(h@, bucket_bounds()[i]));
    lemma_decimal_reads(h@.len());
    lemma_fraction_reads(total(h@), 9);
    assert(below@[i] == at_most_ms(h@, bucket_bounds()[i]));
}

/// Whether a text tells a number, in units of a power of ten, under a name and labels.
pub open spec fn tells_number(
    text: Seq<char>,
    name: Seq<char>,
    labels: Seq<(Seq<char>, Seq<char>)>,
    digits: nat,
    value: int,
) -> bool {
    exists|k: int|
        0 <= k < read_samples(text).len() && (#[trigger] read_samples(text)[k]).name == name
            && read_samples(text)[k].labels == labels && if digits == 0 {
            digits_value(read_samples(text)[k].value) == value
        } else {
            read_units(read_samples(text)[k].value, digits) == value
        }
}

/// A scrape tells of each tool how many of its calls took no longer than each bound, how many
/// there were, and what they took together, in seconds.
pub proof fn law_durations_are_told(
    s: Scrape,
    text: String,
    i: int,
    j: int,
    n: u64,
    sum: u128,
    below: Vec<u64>,
    bounds: Vec<u64>,
)
    requires
        shows_numbers(s),
        call_ensures(render, (&s,), text),
        0 <= i < s.totals@.len(),
        call_ensures(Histogram::count, (&s.totals@[i].histogram,), n),
        call_ensures(Histogram::sum, (&s.totals@[i].histogram,), sum),
        call_ensures(Histogram::cumulative, (&s.totals@[i].histogram,), below),
        call_ensures(tool_call_buckets_ms, (), bounds),
        0 <= j < 11,
    ensures
        ({
            let tool = ("tool"@, s.totals@[i].tool@);
            let all = read_samples(text@);
            &&& tells_number(
                text@,
                "codesearch_tool_call_duration_seconds"@ + "_count"@,
                seq![tool],
                0,
                n as int,
            )
            &&& tells_number(
                text@,
                "codesearch_tool_call_duration_seconds"@ + "_sum"@,
                seq![tool],
                9,
                sum as int,
            )
            &&& tells_number(
                text@,
                "codesearch_tool_call_duration_seconds"@ + "_bucket"@,
                seq![tool, ("le"@, "+Inf"@)],
                0,
                n as int,
            )
            &&& exists|k: int|
                0 <= k < all.len() && (#[trigger] all[k]).name
                    == "codesearch_tool_call_duration_seconds"@ + "_bucket"@
                    && all[k].labels.len() == 2 && all[k].labels[0] == tool
                    && all[k].labels[1].0 == "le"@ && read_units(all[k].labels[1].1, 3)
                    == bounds@[j] && digits_value(all[k].value) == below@[j]
        }),
{
    let t = s.totals@[i];
    let name = "codesearch_tool_call_duration_seconds"@;
    let given = seq![("tool"@, t.tool@)];
    let observed = t.histogram@;
    lemma_duration_names(t.tool@);
    lemma_histogram_reads(name, given, observed);
    let told = read_samples(durations_words()(t));
    let all = read_samples(text@);
    lemma_told_durations(s, i, j);
    lemma_told_durations(s, i, 11);
    lemma_told_durations(s, i, 12);
    lemma_told_durations(s, i, 13);
    lemma_fraction_reads(bucket_bounds()[j] as nat, 3);
    lemma_decimal_reads(at_most_ms(observed, bucket_bounds()[j]));
    lemma_decimal_reads(observed.len());
    lemma_fraction_reads(total(observed), 9);
    let a = choose|k: int| 0 <= k < all.len() && all[k] == told[j];
    let b = choose|k: int| 0 <= k < all.len() && all[k] == told[11];
    let c = choose|k: int| 0 <= k < all.len() && all[k] == told[12];
    let d = choose|k: int| 0 <= k < all.len() && all[k] == told[13];
    assert(given.push(("le"@, "+Inf"@)) =~= seq![("tool"@, t.tool@), ("le"@, "+Inf"@)]);
    assert(read_samples(text@)[b].labels == seq![("tool"@, t.tool@), ("le"@, "+Inf"@)]);
    assert(read_samples(text@)[c].labels == given);
    assert(read_samples(text@)[d].labels == given);
    assert(all[a].labels[0] == given[0]);
}

} // verus!
