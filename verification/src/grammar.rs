//! Which texts are expositions.
use crate::exposition::{
    family_words, fraction, help_text, last_digits, sample_words, without_digits, Kind,
};
use crate::text::{all_digits, decimal, lemma_decimal_value};
use vstd::prelude::*;

verus! {

/// A sample of an exposition.
pub struct SampleView {
    pub name: Seq<char>,
    pub labels: Seq<(Seq<char>, Seq<char>)>,
    pub value: Seq<char>,
}

/// A family of an exposition: its head, and the samples behind it.
pub struct FamilyView {
    pub name: Seq<char>,
    pub kind: Kind,
    pub help: Seq<char>,
    pub samples: Seq<SampleView>,
}

/// Whether a character may stand in the name of a metric.
pub open spec fn is_name_char(c: char) -> bool {
    'a' <= c <= 'z' || 'A' <= c <= 'Z' || '0' <= c <= '9' || c == '_' || c == ':'
}

/// Whether a text is the name of a metric.
pub open spec fn is_metric_name(s: Seq<char>) -> bool {
    &&& s.len() > 0
    &&& !('0' <= s[0] <= '9')
    &&& forall|i: int| 0 <= i < s.len() ==> is_name_char(#[trigger] s[i])
}

/// Whether a text is the name of a label.
pub open spec fn is_label_name(s: Seq<char>) -> bool {
    is_metric_name(s) && !s.contains(':')
}

/// Whether a text is a row of digits.
pub open spec fn is_digits(s: Seq<char>) -> bool {
    s.len() > 0 && all_digits(s)
}

/// Whether a text is a whole number or a decimal fraction, without a sign.
pub open spec fn is_unsigned(s: Seq<char>) -> bool {
    is_digits(s) || exists|w: Seq<char>, f: Seq<char>|
        is_digits(w) && is_digits(f) && s == #[trigger] (w + "."@ + f)
}

/// Whether a text is the value of a sample.
pub open spec fn is_value(s: Seq<char>) -> bool {
    ||| s == "+Inf"@
    ||| s == "-Inf"@
    ||| s == "NaN"@
    ||| is_unsigned(s)
    ||| s.len() > 0 && s[0] == '-' && is_unsigned(s.skip(1))
}

/// Whether a list of labels has names that can stand, each once.
pub open spec fn are_labels(labels: Seq<(Seq<char>, Seq<char>)>) -> bool {
    &&& forall|i: int| 0 <= i < labels.len() ==> is_label_name((#[trigger] labels[i]).0)
    &&& forall|i: int, j: int|
        0 <= i < j < labels.len() ==> (#[trigger] labels[i]).0 != (#[trigger] labels[j]).0
}

/// Whether a sample belongs to a family: it has the name of the family, or, in a histogram,
/// that name with an ending.
pub open spec fn is_sample_of(s: SampleView, name: Seq<char>, kind: Kind) -> bool {
    &&& match kind {
        Kind::Histogram => s.name == name + "_bucket"@ || s.name == name + "_sum"@ || s.name == name
            + "_count"@,
        _ => s.name == name,
    }
    &&& are_labels(s.labels)
    &&& is_value(s.value)
}

/// Whether a family can stand in an exposition.
pub open spec fn is_family(f: FamilyView) -> bool {
    &&& is_metric_name(f.name)
    &&& forall|i: int|
        0 <= i < f.samples.len() ==> is_sample_of(#[trigger] f.samples[i], f.name, f.kind)
}

/// The text of samples, each on its line.
pub open spec fn samples_text(ss: Seq<SampleView>) -> Seq<char>
    decreases ss.len(),
{
    if ss.len() == 0 {
        Seq::empty()
    } else {
        samples_text(ss.drop_last()) + sample_words(
            ss.last().name,
            ss.last().labels,
            ss.last().value,
        )
    }
}

/// The text of a family: one line of help, one with its type, and then its samples.
pub open spec fn family_text(f: FamilyView) -> Seq<char> {
    family_words(f.name, f.kind, f.help) + samples_text(f.samples)
}

/// The text of families.
pub open spec fn families_text(fs: Seq<FamilyView>) -> Seq<char>
    decreases fs.len(),
{
    if fs.len() == 0 {
        Seq::empty()
    } else {
        families_text(fs.drop_last()) + family_text(fs.last())
    }
}

/// Whether a text writes these families, each once.
pub open spec fn exposes(text: Seq<char>, fs: Seq<FamilyView>) -> bool {
    &&& text == families_text(fs)
    &&& forall|i: int| 0 <= i < fs.len() ==> is_family(#[trigger] fs[i])
    &&& forall|i: int, j: int|
        0 <= i < j < fs.len() ==> (#[trigger] fs[i]).name != (#[trigger] fs[j]).name
}

/// Whether a text is an exposition: families one after another, none twice, each with one line
/// of help and one with its type before its samples, and with names, labels and values that can
/// stand.
pub open spec fn is_exposition(text: Seq<char>) -> bool {
    exists|fs: Seq<FamilyView>| exposes(text, fs)
}

/// A help text stays on its line: it holds no raw newline.
pub proof fn law_help_stays_on_its_line(s: Seq<char>)
    ensures
        !help_text(s).contains('\n'),
    decreases s.len(),
{
    if s.len() > 0 {
        law_help_stays_on_its_line(s.drop_last());
        let h = help_text(s);
        let rest = help_text(s.drop_last());
        assert forall|i: int| 0 <= i < h.len() implies h[i] != '\n' by {
            if i < rest.len() {
                assert(h[i] == rest[i]);
                assert(rest.contains(rest[i]));
            }
        }
    }
}

/// A name, and a value, stays on its line: it holds no newline and no space.
pub proof fn law_names_and_values_are_words(s: Seq<char>)
    requires
        is_metric_name(s) || is_value(s),
    ensures
        !s.contains('\n'),
        !s.contains(' '),
{
    reveal_strlit("+Inf");
    reveal_strlit("-Inf");
    reveal_strlit("NaN");
    if is_metric_name(s) {
        assert forall|i: int| 0 <= i < s.len() implies s[i] != '\n' && s[i] != ' ' by {
            assert(is_name_char(s[i]));
        }
    } else if is_unsigned(s) {
        lemma_unsigned_is_a_word(s);
    } else if s.len() > 0 && s[0] == '-' && is_unsigned(s.skip(1)) {
        lemma_unsigned_is_a_word(s.skip(1));
        assert forall|i: int| 0 <= i < s.len() implies s[i] != '\n' && s[i] != ' ' by {
            if i > 0 {
                assert(s.skip(1)[i - 1] == s[i]);
                assert(s.skip(1).contains(s[i]));
            }
        }
    }
}

proof fn lemma_unsigned_is_a_word(s: Seq<char>)
    requires
        is_unsigned(s),
    ensures
        !s.contains('\n'),
        !s.contains(' '),
{
    reveal_strlit(".");
    if !is_digits(s) {
        let (w, f) = choose|w: Seq<char>, f: Seq<char>|
            is_digits(w) && is_digits(f) && s == #[trigger] (w + "."@ + f);
        assert forall|i: int| 0 <= i < s.len() implies s[i] != '\n' && s[i] != ' ' by {
            if i < w.len() {
                assert(s[i] == w[i]);
            } else if i > w.len() {
                assert(s[i] == f[i - w.len() - 1]);
            }
        }
    }
}

proof fn lemma_last_digits(n: nat, places: nat)
    ensures
        last_digits(n, places).len() == places,
        all_digits(last_digits(n, places)),
    decreases places,
{
    if places > 0 {
        lemma_last_digits(n / 10, (places - 1) as nat);
    }
}

/// A whole number in decimal is a value.
pub proof fn lemma_decimal_is_a_value(n: nat)
    ensures
        is_value(decimal(n)),
{
    lemma_decimal_value(n);
    assert(is_digits(decimal(n)));
}

/// A decimal fraction is a value.
pub proof fn lemma_fraction_is_a_value(n: nat, places: nat)
    ensures
        is_value(fraction(n, places)),
    decreases places,
{
    if places == 0 {
        lemma_decimal_is_a_value(n);
    } else if n % 10 == 0 {
        lemma_fraction_is_a_value(n / 10, (places - 1) as nat);
    } else {
        let w = decimal(without_digits(n, places));
        let f = last_digits(n, places);
        lemma_decimal_value(without_digits(n, places));
        lemma_last_digits(n, places);
        assert(is_digits(w) && is_digits(f));
        assert(fraction(n, places) == w + "."@ + f);
        assert(is_unsigned(fraction(n, places)));
    }
}

/// Whether the characters of `s` from `i` on can stand in the name of a label.
pub open spec fn names_from(s: Seq<char>, i: int) -> bool
    decreases s.len() - i,
{
    i >= s.len() || (is_name_char(s[i]) && s[i] != ':' && names_from(s, i + 1))
}

proof fn lemma_names_from(s: Seq<char>, i: int)
    requires
        names_from(s, i),
    ensures
        forall|k: int| i <= k < s.len() ==> is_name_char(#[trigger] s[k]) && s[k] != ':',
    decreases s.len() - i,
{
    if i < s.len() {
        lemma_names_from(s, i + 1);
    }
}

/// A text that begins with no digit, and whose characters can stand in the name of a label one
/// after another, is the name of a label.
pub proof fn lemma_is_name(s: Seq<char>)
    requires
        s.len() > 0,
        !('0' <= s[0] <= '9'),
        names_from(s, 0),
    ensures
        is_metric_name(s),
        is_label_name(s),
{
    lemma_names_from(s, 0);
}

/// Whether `text` writes samples of a family.
pub open spec fn writes_samples(text: Seq<char>, name: Seq<char>, kind: Kind) -> bool {
    exists|ss: Seq<SampleView>| #[trigger]
        samples_text(ss) == text && forall|i: int|
            0 <= i < ss.len() ==> is_sample_of(#[trigger] ss[i], name, kind)
}

/// No samples.
pub proof fn lemma_no_samples(name: Seq<char>, kind: Kind)
    ensures
        writes_samples(Seq::empty(), name, kind),
{
    assert(samples_text(Seq::<SampleView>::empty()) == Seq::<char>::empty());
}

/// One sample.
pub proof fn lemma_one_sample(s: SampleView, name: Seq<char>, kind: Kind)
    requires
        is_sample_of(s, name, kind),
    ensures
        writes_samples(sample_words(s.name, s.labels, s.value), name, kind),
{
    let ss = seq![s];
    assert(ss.drop_last() =~= Seq::empty());
    assert(samples_text(ss.drop_last()) == Seq::<char>::empty());
    let words = sample_words(s.name, s.labels, s.value);
    assert(Seq::<char>::empty() + words =~= words);
    assert(samples_text(ss) == words);
}

proof fn lemma_samples_join(a: Seq<SampleView>, b: Seq<SampleView>)
    ensures
        samples_text(a + b) == samples_text(a) + samples_text(b),
    decreases b.len(),
{
    if b.len() == 0 {
        assert(a + b =~= a);
        assert(samples_text(a) + Seq::<char>::empty() =~= samples_text(a));
    } else {
        lemma_samples_join(a, b.drop_last());
        assert((a + b).drop_last() =~= a + b.drop_last());
        assert((a + b).last() == b.last());
        let last = sample_words(b.last().name, b.last().labels, b.last().value);
        assert((samples_text(a) + samples_text(b.drop_last())) + last =~= samples_text(a) + (
        samples_text(b.drop_last()) + last));
    }
}

/// Samples behind samples.
pub proof fn lemma_more_samples(a: Seq<char>, b: Seq<char>, name: Seq<char>, kind: Kind)
    requires
        writes_samples(a, name, kind),
        writes_samples(b, name, kind),
    ensures
        writes_samples(a + b, name, kind),
{
    let x = choose|ss: Seq<SampleView>| #[trigger]
        samples_text(ss) == a && forall|i: int|
            0 <= i < ss.len() ==> is_sample_of(#[trigger] ss[i], name, kind);
    let y = choose|ss: Seq<SampleView>| #[trigger]
        samples_text(ss) == b && forall|i: int|
            0 <= i < ss.len() ==> is_sample_of(#[trigger] ss[i], name, kind);
    lemma_samples_join(x, y);
    assert(samples_text(x + y) == a + b);
}

/// Families behind families.
pub proof fn lemma_families_join(a: Seq<FamilyView>, b: Seq<FamilyView>)
    ensures
        families_text(a + b) == families_text(a) + families_text(b),
    decreases b.len(),
{
    if b.len() == 0 {
        assert(a + b =~= a);
        assert(families_text(a) + Seq::<char>::empty() =~= families_text(a));
    } else {
        lemma_families_join(a, b.drop_last());
        assert((a + b).drop_last() =~= a + b.drop_last());
        assert((a + b).last() == b.last());
        let last = family_text(b.last());
        assert((families_text(a) + families_text(b.drop_last())) + last =~= families_text(a) + (
        families_text(b.drop_last()) + last));
    }
}

/// Samples behind the last of some families.
pub proof fn lemma_samples_behind(fs: Seq<FamilyView>, ss: Seq<SampleView>)
    requires
        fs.len() > 0,
    ensures
        families_text(
            fs.drop_last().push(
                FamilyView { samples: fs.last().samples + ss, ..fs.last() },
            ),
        ) == families_text(fs) + samples_text(ss),
{
    let f = fs.last();
    let g = FamilyView { samples: f.samples + ss, ..f };
    let gs = fs.drop_last().push(g);
    assert(gs.drop_last() =~= fs.drop_last());
    lemma_samples_join(f.samples, ss);
    let before = families_text(fs.drop_last());
    let head = family_words(f.name, f.kind, f.help);
    assert(before + (head + (samples_text(f.samples) + samples_text(ss))) =~= (before + (head
        + samples_text(f.samples))) + samples_text(ss));
}

} // verus!
