//! Reading an exposition back: the samples that stand in a text.
use crate::exposition::{
    bare_quote, escaped, family_words, fraction, help_text, kind_name, label_list, label_words,
    labels_words, last_digits, law_labels_read_back, law_value_ends_at_the_bare_quote, sample_words,
    unescaped, without_digits, Kind,
};
use crate::grammar::{
    are_labels, families_text, family_text, is_family, is_label_name, is_metric_name, is_sample_of,
    is_value, law_help_stays_on_its_line, law_names_and_values_are_words, samples_text, FamilyView,
    SampleView,
};
use crate::text::{all_digits, decimal, digits_value, joined, lemma_decimal_value};
use vstd::arithmetic::power::{lemma_pow0, lemma_pow1, lemma_pow_adds, pow};
use vstd::prelude::*;

verus! {

/// Where the first of two characters stands in a text; its length when neither does.
pub open spec fn first_of(t: Seq<char>, a: char, b: char) -> int
    decreases t.len(),
{
    if t.len() == 0 || t[0] == a || t[0] == b {
        0
    } else {
        1 + first_of(t.skip(1), a, b)
    }
}

/// Reads labels up to the closing brace; what is left is what follows the brace.
pub open spec fn read_labels(t: Seq<char>) -> Option<(Seq<(Seq<char>, Seq<char>)>, Seq<char>)>
    decreases t.len(),
{
    if t.len() == 0 {
        None
    } else if t[0] == '}' {
        Some((Seq::empty(), t.skip(1)))
    } else {
        let k = first_of(t, '=', '=');
        if k + 2 > t.len() || t[k + 1] != '"' || k < 0 {
            None
        } else {
            let body = t.skip(k + 2);
            match bare_quote(body) {
                None => None,
                Some(q) => if q + 1 > body.len() {
                    None
                } else {
                    let after = body.skip(q as int + 1);
                    let rest = if after.len() > 0 && after[0] == ',' {
                        after.skip(1)
                    } else {
                        after
                    };
                    match read_labels(rest) {
                        None => None,
                        Some((more, left)) => Some(
                            (seq![(t.take(k), unescaped(body.take(q as int)))] + more, left),
                        ),
                    }
                },
            }
        }
    }
}

/// The sample on a line, if there is one: a comment and an empty line have none.
pub open spec fn read_sample(line: Seq<char>) -> Option<SampleView> {
    if line.len() == 0 || line[0] == '#' {
        None
    } else {
        let k = first_of(line, '{', ' ');
        if k >= line.len() {
            None
        } else if line[k] == ' ' {
            Some(SampleView { name: line.take(k), labels: Seq::empty(), value: line.skip(k + 1) })
        } else {
            match read_labels(line.skip(k + 1)) {
                None => None,
                Some((labels, left)) => if left.len() > 0 && left[0] == ' ' {
                    Some(SampleView { name: line.take(k), labels, value: left.skip(1) })
                } else {
                    None
                },
            }
        }
    }
}

/// A sample, or none, as a list.
pub open spec fn listed_sample(s: Option<SampleView>) -> Seq<SampleView> {
    match s {
        Some(x) => seq![x],
        None => Seq::empty(),
    }
}

/// The samples of a text, line by line.
pub open spec fn read_samples(t: Seq<char>) -> Seq<SampleView>
    decreases t.len(),
{
    if t.len() == 0 {
        Seq::empty()
    } else {
        let n = first_of(t, '\n', '\n');
        if 0 <= n < t.len() {
            listed_sample(read_sample(t.take(n))) + read_samples(t.skip(n + 1))
        } else {
            listed_sample(read_sample(t))
        }
    }
}

/// The samples of a text that have a name.
#[verifier::opaque]
pub open spec fn samples_named(t: Seq<char>, name: Seq<char>) -> Seq<SampleView> {
    read_samples(t).filter(|x: SampleView| x.name == name)
}

/// The number that a decimal fraction writes, in units of its `places`-th decimal place.
pub open spec fn read_units(t: Seq<char>, places: nat) -> int {
    let k = first_of(t, '.', '.');
    if k >= t.len() {
        digits_value(t) * pow(10, places)
    } else {
        digits_value(t.take(k)) * pow(10, places) + digits_value(t.skip(k + 1)) * pow(
            10,
            (places - (t.len() - k - 1)) as nat,
        )
    }
}

/// Whether a text ends with its last line, or is empty.
pub open spec fn ends_its_line(t: Seq<char>) -> bool {
    t.len() == 0 || t.last() == '\n'
}

pub proof fn lemma_first_of(t: Seq<char>, a: char, b: char)
    ensures
        0 <= first_of(t, a, b) <= t.len(),
        forall|i: int| 0 <= i < first_of(t, a, b) ==> #[trigger] t[i] != a && t[i] != b,
        first_of(t, a, b) < t.len() ==> t[first_of(t, a, b)] == a || t[first_of(t, a, b)] == b,
    decreases t.len(),
{
    if !(t.len() == 0 || t[0] == a || t[0] == b) {
        lemma_first_of(t.skip(1), a, b);
        let k = first_of(t.skip(1), a, b);
        assert forall|i: int| 0 <= i < 1 + k implies #[trigger] t[i] != a && t[i] != b by {
            if i > 0 {
                assert(t.skip(1)[i - 1] == t[i]);
            }
        }
        if k < t.skip(1).len() {
            assert(t.skip(1)[k] == t[k + 1]);
        }
    }
}

/// Where a text without the two characters is followed by one of them.
pub proof fn lemma_first_of_is(t: Seq<char>, a: char, b: char, n: int)
    requires
        0 <= n <= t.len(),
        forall|i: int| 0 <= i < n ==> #[trigger] t[i] != a && t[i] != b,
        n < t.len() ==> t[n] == a || t[n] == b,
    ensures
        first_of(t, a, b) == n,
{
    lemma_first_of(t, a, b);
    let k = first_of(t, a, b);
    if k < n {
        assert(t[k] != a && t[k] != b);
    }
}

/// The first line of a text, and the rest.
pub proof fn lemma_read_line(line: Seq<char>, rest: Seq<char>)
    requires
        !line.contains('\n'),
    ensures
        read_samples(line + seq!['\n'] + rest) == listed_sample(read_sample(line)) + read_samples(
            rest,
        ),
{
    let t = line + seq!['\n'] + rest;
    assert forall|i: int| 0 <= i < line.len() implies #[trigger] t[i] != '\n' by {
        assert(line.contains(line[i]));
    }
    lemma_first_of_is(t, '\n', '\n', line.len() as int);
    assert(t.take(line.len() as int) =~= line);
    assert(t.skip(line.len() as int + 1) =~= rest);
}

/// What is read of two texts, the first of which ends its line.
pub proof fn lemma_read_both(a: Seq<char>, b: Seq<char>)
    requires
        ends_its_line(a),
    ensures
        read_samples(a + b) == read_samples(a) + read_samples(b),
    decreases a.len(),
{
    if a.len() == 0 {
        assert(a + b =~= b);
        assert(read_samples(a) + read_samples(b) =~= read_samples(b));
    } else {
        let t = a + b;
        lemma_first_of(a, '\n', '\n');
        let n = first_of(a, '\n', '\n');
        if n >= a.len() {
            assert(a[a.len() - 1] != '\n');
        }
        assert forall|i: int| 0 <= i < n implies #[trigger] t[i] != '\n' by {
            assert(a[i] != '\n');
        }
        lemma_first_of_is(t, '\n', '\n', n);
        let rest = a.skip(n + 1);
        if rest.len() > 0 {
            assert(rest.last() == a.last());
        }
        lemma_read_both(rest, b);
        assert(t.take(n) =~= a.take(n));
        assert(t.skip(n + 1) =~= rest + b);
        let one = listed_sample(read_sample(a.take(n)));
        assert((one + read_samples(rest)) + read_samples(b) =~= one + (read_samples(rest)
            + read_samples(b)));
    }
}

proof fn lemma_joined_front(parts: Seq<Seq<char>>, sep: Seq<char>)
    requires
        parts.len() >= 2,
    ensures
        joined(parts, sep) == parts[0] + sep + joined(parts.skip(1), sep),
    decreases parts.len(),
{
    if parts.len() == 2 {
        assert(parts.drop_last().len() == 1);
        assert(joined(parts.drop_last(), sep) == parts[0]);
        assert(joined(parts.skip(1), sep) == parts[1]);
    } else {
        lemma_joined_front(parts.drop_last(), sep);
        assert(parts.drop_last().skip(1) =~= parts.skip(1).drop_last());
        assert(parts.skip(1).last() == parts.last());
        assert(joined(parts, sep) =~= parts[0] + sep + joined(parts.skip(1), sep));
    }
}

/// Labels read back, whatever their values hold.
pub proof fn lemma_labels_read(labels: Seq<(Seq<char>, Seq<char>)>, after: Seq<char>)
    requires
        are_labels(labels),
        labels.len() > 0,
    ensures
        read_labels(label_list(labels) + "}"@ + after) == Some((labels, after)),
    decreases labels.len(),
{
    reveal_strlit("}");
    reveal_strlit(",");
    reveal_strlit("=\"");
    reveal_strlit("\"");
    let words = labels.map_values(|l: (Seq<char>, Seq<char>)| label_words(l));
    let t = label_list(labels) + "}"@ + after;
    let name = labels[0].0;
    let value = labels[0].1;
    assert(is_label_name(labels[0].0));
    let more = labels.skip(1);
    let tail = if labels.len() == 1 {
        "}"@ + after
    } else {
        label_list(more) + "}"@ + after
    };
    let comma = if labels.len() == 1 {
        Seq::<char>::empty()
    } else {
        ","@
    };
    let rest_words = more.map_values(|l: (Seq<char>, Seq<char>)| label_words(l));
    assert(words.skip(1) =~= rest_words);
    if labels.len() > 1 {
        lemma_joined_front(words, ","@);
    }
    assert(t =~= name + "=\""@ + escaped(value) + "\""@ + comma + tail);
    let k = name.len() as int;
    assert forall|i: int| 0 <= i < k implies #[trigger] t[i] != '=' by {
        assert(t[i] == name[i]);
        assert(crate::grammar::is_name_char(name[i]));
    }
    assert(t[k] == '=');
    assert(t[k + 1] == '"');
    lemma_first_of_is(t, '=', '=', k);
    assert(t[0] == name[0] && crate::grammar::is_name_char(name[0]));
    let body = t.skip(k + 2);
    let behind = comma + tail;
    assert(body =~= escaped(value) + seq!['"'] + behind);
    law_value_ends_at_the_bare_quote(value, behind);
    let q = escaped(value).len();
    law_labels_read_back(value);
    assert(body.take(q as int) =~= escaped(value));
    assert(body.skip(q as int + 1) =~= behind);
    assert(t.take(k) =~= name);
    if labels.len() == 1 {
        assert(behind =~= "}"@ + after);
        assert(behind[0] == '}');
        assert(behind.skip(1) =~= after);
        assert(seq![(name, value)] + Seq::<(Seq<char>, Seq<char>)>::empty() =~= labels);
    } else {
        assert(behind[0] == ',');
        assert(behind.skip(1) =~= tail);
        assert(are_labels(more)) by {
            assert forall|i: int| 0 <= i < more.len() implies is_label_name(
                (#[trigger] more[i]).0,
            ) by {
                assert(more[i] == labels[i + 1]);
            }
            assert forall|i: int, j: int| 0 <= i < j < more.len() implies (#[trigger] more[i]).0 != (
            #[trigger] more[j]).0 by {
                assert(more[i] == labels[i + 1]);
                assert(more[j] == labels[j + 1]);
            }
        }
        lemma_labels_read(more, after);
        assert(seq![(name, value)] + more =~= labels);
    }
}

/// A sample reads back from its line.
pub proof fn lemma_sample_reads(name: Seq<char>, labels: Seq<(Seq<char>, Seq<char>)>, value: Seq<char>)
    requires
        is_metric_name(name),
        are_labels(labels),
        is_value(value),
    ensures
        ends_its_line(sample_words(name, labels, value)),
        read_samples(sample_words(name, labels, value)) == seq![SampleView { name, labels, value }],
{
    reveal(sample_words);
    reveal_strlit(" ");
    reveal_strlit("{");
    reveal_strlit("}");
    reveal_strlit("\n");
    let line = name + labels_words(labels) + " "@ + value;
    let text = sample_words(name, labels, value);
    assert(text =~= line + seq!['\n'] + Seq::empty());
    law_names_and_values_are_words(name);
    law_names_and_values_are_words(value);
    assert(!line.contains('\n')) by {
        lemma_labels_have_no_newline(labels);
        assert forall|i: int| 0 <= i < line.len() implies line[i] != '\n' by {
            let a = name.len();
            let b = a + labels_words(labels).len();
            if i < a {
                assert(line[i] == name[i]);
                assert(name.contains(name[i]));
            } else if i < b {
                assert(line[i] == labels_words(labels)[i - a]);
                assert(labels_words(labels).contains(labels_words(labels)[i - a]));
            } else if i > b {
                assert(line[i] == value[i - b - 1]);
                assert(value.contains(value[i - b - 1]));
            }
        }
    }
    lemma_read_line(line, Seq::empty());
    assert(read_samples(Seq::<char>::empty()) == Seq::<SampleView>::empty());
    let k = name.len() as int;
    assert forall|i: int| 0 <= i < k implies #[trigger] line[i] != '{' && line[i] != ' ' by {
        assert(line[i] == name[i]);
        assert(crate::grammar::is_name_char(name[i]));
    }
    assert(line[0] == name[0] && crate::grammar::is_name_char(name[0]));
    if labels.len() == 0 {
        assert(line[k] == ' ');
        lemma_first_of_is(line, '{', ' ', k);
        assert(line.take(k) =~= name);
        assert(line.skip(k + 1) =~= value);
        assert(labels =~= Seq::empty());
    } else {
        assert(line[k] == '{');
        lemma_first_of_is(line, '{', ' ', k);
        assert(line.take(k) =~= name);
        let after = " "@ + value;
        assert(line.skip(k + 1) =~= label_list(labels) + "}"@ + after);
        lemma_labels_read(labels, after);
        assert(after[0] == ' ');
        assert(after.skip(1) =~= value);
    }
    let one = seq![SampleView { name, labels, value }];
    assert(one + Seq::<SampleView>::empty() =~= one);
}

proof fn lemma_labels_have_no_newline(labels: Seq<(Seq<char>, Seq<char>)>)
    requires
        are_labels(labels),
    ensures
        !labels_words(labels).contains('\n'),
{
    reveal_strlit("{");
    reveal_strlit("}");
    lemma_list_has_no_newline(labels);
    let t = labels_words(labels);
    assert forall|i: int| 0 <= i < t.len() implies t[i] != '\n' by {
        if 0 < i < t.len() - 1 {
            assert(t[i] == label_list(labels)[i - 1]);
            assert(label_list(labels).contains(t[i]));
        }
    }
}

proof fn lemma_list_has_no_newline(labels: Seq<(Seq<char>, Seq<char>)>)
    requires
        are_labels(labels),
    ensures
        !label_list(labels).contains('\n'),
    decreases labels.len(),
{
    reveal_strlit(",");
    let words = labels.map_values(|l: (Seq<char>, Seq<char>)| label_words(l));
    if labels.len() > 0 {
        let last = labels.last();
        assert(is_label_name(labels[labels.len() - 1].0));
        lemma_label_has_no_newline(last);
        assert(words.last() == label_words(last));
        if labels.len() == 1 {
            assert(label_list(labels) =~= label_words(last));
        } else {
            let rest = labels.drop_last();
            assert(are_labels(rest)) by {
                assert forall|i: int| 0 <= i < rest.len() implies is_label_name(
                    (#[trigger] rest[i]).0,
                ) by {
                    assert(rest[i] == labels[i]);
                }
                assert forall|i: int, j: int| 0 <= i < j < rest.len() implies (#[trigger] rest[i]).0
                    != (#[trigger] rest[j]).0 by {
                    assert(rest[i] == labels[i]);
                    assert(rest[j] == labels[j]);
                }
            }
            lemma_list_has_no_newline(rest);
            let rest_words = rest.map_values(|l: (Seq<char>, Seq<char>)| label_words(l));
            assert(words.drop_last() =~= rest_words);
            let t = label_list(labels);
            let front = label_list(rest);
            assert(t =~= front + ","@ + label_words(last));
            assert forall|i: int| 0 <= i < t.len() implies t[i] != '\n' by {
                if i < front.len() {
                    assert(front.contains(front[i]));
                } else if i > front.len() {
                    assert(t[i] == label_words(last)[i - front.len() - 1]);
                    assert(label_words(last).contains(t[i]));
                }
            }
        }
    }
}

proof fn lemma_label_has_no_newline(l: (Seq<char>, Seq<char>))
    requires
        is_label_name(l.0),
    ensures
        !label_words(l).contains('\n'),
{
    reveal_strlit("=\"");
    reveal_strlit("\"");
    law_labels_read_back(l.1);
    law_names_and_values_are_words(l.0);
    let t = label_words(l);
    let a = l.0.len();
    let b = escaped(l.1).len();
    assert forall|i: int| 0 <= i < t.len() implies t[i] != '\n' by {
        if i < a {
            assert(t[i] == l.0[i]);
            assert(l.0.contains(l.0[i]));
        } else if a + 2 <= i < a + 2 + b {
            assert(t[i] == escaped(l.1)[i - a - 2]);
            assert(escaped(l.1).contains(t[i]));
        }
    }
}

/// The head of a family has no samples.
pub proof fn lemma_head_reads(name: Seq<char>, kind: Kind, help: Seq<char>)
    requires
        is_metric_name(name),
    ensures
        ends_its_line(family_words(name, kind, help)),
        read_samples(family_words(name, kind, help)) == Seq::<SampleView>::empty(),
{
    reveal(family_words);
    reveal_strlit("# HELP ");
    reveal_strlit("\n# TYPE ");
    reveal_strlit(" ");
    reveal_strlit("\n");
    reveal_strlit("counter");
    reveal_strlit("gauge");
    reveal_strlit("histogram");
    law_names_and_values_are_words(name);
    law_help_stays_on_its_line(help);
    let h = help_text(help);
    let first = "# HELP "@ + name + " "@ + h;
    let typed = seq!['#', ' ', 'T', 'Y', 'P', 'E', ' '];
    let second = typed + name + " "@ + kind_name(kind);
    let text = family_words(name, kind, help);
    assert(text =~= first + seq!['\n'] + (second + seq!['\n'] + Seq::empty()));
    assert(!first.contains('\n')) by {
        assert forall|i: int| 0 <= i < first.len() implies first[i] != '\n' by {
            if 7 <= i < 7 + name.len() {
                assert(first[i] == name[i - 7]);
                assert(name.contains(name[i - 7]));
            } else if i >= 8 + name.len() {
                assert(first[i] == h[i - 8 - name.len()]);
                assert(h.contains(first[i]));
            }
        }
    }
    assert(!second.contains('\n')) by {
        assert forall|i: int| 0 <= i < second.len() implies second[i] != '\n' by {
            if 7 <= i < 7 + name.len() {
                assert(second[i] == name[i - 7]);
                assert(name.contains(name[i - 7]));
            } else if i >= 8 + name.len() {
                assert(second[i] == kind_name(kind)[i - 8 - name.len()]);
            }
        }
    }
    lemma_read_line(first, second + seq!['\n'] + Seq::empty());
    lemma_read_line(second, Seq::empty());
    assert(first[0] == '#' && second[0] == '#');
    assert(read_samples(text) =~= Seq::<SampleView>::empty());
}

/// Samples read back from their lines, in order.
pub proof fn lemma_samples_read(ss: Seq<SampleView>, name: Seq<char>, kind: Kind)
    requires
        is_metric_name(name),
        forall|i: int| 0 <= i < ss.len() ==> is_sample_of(#[trigger] ss[i], name, kind),
    ensures
        ends_its_line(samples_text(ss)),
        read_samples(samples_text(ss)) == ss,
    decreases ss.len(),
{
    if ss.len() > 0 {
        let rest = ss.drop_last();
        assert forall|i: int| 0 <= i < rest.len() implies is_sample_of(
            #[trigger] rest[i],
            name,
            kind,
        ) by {
            assert(rest[i] == ss[i]);
        }
        lemma_samples_read(rest, name, kind);
        let x = ss.last();
        assert(is_sample_of(ss[ss.len() - 1], name, kind));
        lemma_sample_names(x, name, kind);
        lemma_sample_reads(x.name, x.labels, x.value);
        let words = sample_words(x.name, x.labels, x.value);
        lemma_read_both(samples_text(rest), words);
        let all = samples_text(rest) + words;
        assert(words.len() > 0) by {
            if words.len() == 0 {
                assert(read_samples(words).len() == 0);
            }
        }
        assert(all.last() == words.last());
        assert(rest + seq![x] =~= ss);
    } else {
        assert(read_samples(samples_text(ss)) =~= ss);
    }
}

proof fn lemma_sample_names(x: SampleView, name: Seq<char>, kind: Kind)
    requires
        is_metric_name(name),
        is_sample_of(x, name, kind),
    ensures
        is_metric_name(x.name),
{
    reveal_strlit("_bucket");
    reveal_strlit("_sum");
    reveal_strlit("_count");
    assert forall|i: int| 0 <= i < x.name.len() implies crate::grammar::is_name_char(
        #[trigger] x.name[i],
    ) by {
        if i < name.len() {
            assert(x.name[i] == name[i]);
        }
    }
}

/// A family reads back: its samples, in order.
pub proof fn lemma_family_reads(f: FamilyView)
    requires
        is_family(f),
    ensures
        ends_its_line(family_text(f)),
        read_samples(family_text(f)) == f.samples,
{
    let head = family_words(f.name, f.kind, f.help);
    let body = samples_text(f.samples);
    lemma_head_reads(f.name, f.kind, f.help);
    lemma_samples_read(f.samples, f.name, f.kind);
    lemma_read_both(head, body);
    assert(Seq::<SampleView>::empty() + f.samples =~= f.samples);
    let all = head + body;
    if body.len() > 0 {
        assert(all.last() == body.last());
    } else {
        assert(all =~= head);
    }
}

/// The samples of families, family by family.
pub open spec fn all_samples(fs: Seq<FamilyView>) -> Seq<SampleView>
    decreases fs.len(),
{
    if fs.len() == 0 {
        Seq::empty()
    } else {
        all_samples(fs.drop_last()) + fs.last().samples
    }
}

/// Families read back: the samples of each, in order.
pub proof fn lemma_families_read(fs: Seq<FamilyView>)
    requires
        forall|i: int| 0 <= i < fs.len() ==> is_family(#[trigger] fs[i]),
    ensures
        ends_its_line(families_text(fs)),
        read_samples(families_text(fs)) == all_samples(fs),
    decreases fs.len(),
{
    if fs.len() > 0 {
        let rest = fs.drop_last();
        assert forall|i: int| 0 <= i < rest.len() implies is_family(#[trigger] rest[i]) by {
            assert(rest[i] == fs[i]);
        }
        lemma_families_read(rest);
        assert(is_family(fs[fs.len() - 1]));
        lemma_family_reads(fs.last());
        lemma_read_both(families_text(rest), family_text(fs.last()));
        let all = families_text(rest) + family_text(fs.last());
        if family_text(fs.last()).len() > 0 {
            assert(all.last() == family_text(fs.last()).last());
        } else {
            assert(all =~= families_text(rest));
        }
    }
}

/// Every sample of some families is a sample of one of them.
pub proof fn lemma_sample_of_some(fs: Seq<FamilyView>, k: int)
    requires
        0 <= k < all_samples(fs).len(),
    ensures
        exists|i: int|
            0 <= i < fs.len() && (#[trigger] fs[i]).samples.contains(all_samples(fs)[k]),
    decreases fs.len(),
{
    if fs.len() > 0 {
        let rest = fs.drop_last();
        let n = all_samples(rest).len();
        if k < n {
            lemma_sample_of_some(rest, k);
            let i = choose|i: int|
                0 <= i < rest.len() && (#[trigger] rest[i]).samples.contains(all_samples(rest)[k]);
            assert(fs[i].samples.contains(all_samples(fs)[k]));
        } else {
            assert(fs.last().samples[k - n] == all_samples(fs)[k]);
            assert(fs[fs.len() - 1].samples.contains(all_samples(fs)[k]));
        }
    }
}

proof fn lemma_last_digits_value(n: nat, places: nat)
    ensures
        last_digits(n, places).len() == places,
        all_digits(last_digits(n, places)),
        digits_value(last_digits(n, places)) + without_digits(n, places) * pow(10, places) == n,
    decreases places,
{
    if places == 0 {
        lemma_pow0(10);
    } else {
        let p = (places - 1) as nat;
        lemma_last_digits_value(n / 10, p);
        let ld = last_digits(n / 10, p);
        assert(last_digits(n, places).drop_last() =~= ld);
        let a = digits_value(ld);
        let w = without_digits(n / 10, p);
        let t = pow(10, p);
        lemma_pow_adds(10, 1, p);
        lemma_pow1(10);
        assert(pow(10, places) == 10 * t);
        assert((a + w * t) * 10 == a * 10 + w * (10 * t)) by (nonlinear_arith);
        assert(n == (n / 10) * 10 + n % 10);
    }
}

proof fn lemma_digits_are_no_points(t: Seq<char>)
    requires
        all_digits(t),
    ensures
        forall|i: int| 0 <= i < t.len() ==> #[trigger] t[i] != '.',
{
    assert forall|i: int| 0 <= i < t.len() implies #[trigger] t[i] != '.' by {
        assert('0' <= t[i] <= '9');
    }
}

/// A decimal fraction reads back, with at most so many digits behind the point.
pub proof fn lemma_fraction_reads(n: nat, places: nat)
    ensures
        read_units(fraction(n, places), places) == n,
        fraction(n, places).len() - first_of(fraction(n, places), '.', '.') - 1 <= places,
    decreases places,
{
    let t = fraction(n, places);
    if places == 0 {
        lemma_decimal_value(n);
        lemma_digits_are_no_points(t);
        lemma_first_of_is(t, '.', '.', t.len() as int);
        lemma_pow0(10);
    } else if n % 10 == 0 {
        let p = (places - 1) as nat;
        lemma_fraction_reads(n / 10, p);
        lemma_first_of(t, '.', '.');
        lemma_pow_adds(10, 1, p);
        lemma_pow1(10);
        let k = first_of(t, '.', '.');
        if k >= t.len() {
            let d = digits_value(t) as int;
            let w = pow(10, p);
            assert(d * (10 * w) == 10 * (d * w)) by (nonlinear_arith);
        } else {
            let q = (p - (t.len() - k - 1)) as nat;
            lemma_pow_adds(10, 1, q);
            let a = digits_value(t.take(k)) as int;
            let b = digits_value(t.skip(k + 1)) as int;
            let w = pow(10, p);
            let v = pow(10, q);
            assert(a * (10 * w) + b * (10 * v) == 10 * (a * w + b * v)) by (nonlinear_arith);
        }
    } else {
        reveal_strlit(".");
        let whole = decimal(without_digits(n, places));
        let part = last_digits(n, places);
        lemma_decimal_value(without_digits(n, places));
        lemma_last_digits_value(n, places);
        lemma_digits_are_no_points(whole);
        let k = whole.len() as int;
        assert forall|i: int| 0 <= i < k implies #[trigger] t[i] != '.' by {
            assert(t[i] == whole[i]);
        }
        assert(t[k] == '.');
        lemma_first_of_is(t, '.', '.', k);
        assert(t.take(k) =~= whole);
        assert(t.skip(k + 1) =~= part);
        lemma_pow0(10);
    }
}

/// A whole number reads back.
pub proof fn lemma_decimal_reads(n: nat)
    ensures
        digits_value(decimal(n)) == n,
        all_digits(decimal(n)),
{
    lemma_decimal_value(n);
}

} // verus!
