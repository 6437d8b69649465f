//! The Prometheus text exposition format 0.0.4.
use crate::text::{decimal, digit, joined};
use vstd::prelude::*;

verus! {

/// The content type of an exposition.
pub const CONTENT_TYPE: &'static str = "text/plain; version=0.0.4; charset=utf-8";

/// The kind of a family of samples.
#[derive(Debug, Clone, Copy, PartialEq, Eq, Structural)]
pub enum Kind {
    Counter,
    Gauge,
    Histogram,
}

/// The name of a kind.
pub open spec fn kind_name(k: Kind) -> Seq<char> {
    match k {
        Kind::Counter => "counter"@,
        Kind::Gauge => "gauge"@,
        Kind::Histogram => "histogram"@,
    }
}

impl Kind {
    /// The name of the kind.
    pub fn as_str(&self) -> (r: &'static str)
        ensures
            r@ == kind_name(*self),
    {
        match self {
            Kind::Counter => "counter",
            Kind::Gauge => "gauge",
            Kind::Histogram => "histogram",
        }
    }
}

/// The value of a sample.
pub enum Number {
    Whole(u64),
    /// A number of thousandths, as milliseconds are of seconds.
    Thousandths(u64),
    /// A number of billionths, as nanoseconds are of seconds.
    Billionths(u128),
    /// A number as it is to be shown.
    Shown(String),
    /// Positive infinity.
    Infinite,
    /// Negative infinity.
    NegativeInfinite,
    /// No number.
    NotANumber,
}

/// `n` without its last `places` decimal digits.
pub open spec fn without_digits(n: nat, places: nat) -> nat
    decreases places,
{
    if places == 0 {
        n
    } else {
        without_digits(n / 10, (places - 1) as nat)
    }
}

/// The last `places` decimal digits of `n`.
pub open spec fn last_digits(n: nat, places: nat) -> Seq<char>
    decreases places,
{
    if places == 0 {
        Seq::empty()
    } else {
        last_digits(n / 10, (places - 1) as nat).push(digit(n % 10))
    }
}

/// `n` units of the `places`-th decimal place in decimal, without trailing zeros behind the
/// point, and without a point before nothing.
pub open spec fn fraction(n: nat, places: nat) -> Seq<char>
    decreases places,
{
    if places == 0 {
        decimal(n)
    } else if n % 10 == 0 {
        fraction(n / 10, (places - 1) as nat)
    } else {
        decimal(without_digits(n, places)) + "."@ + last_digits(n, places)
    }
}

/// The text of a value.
pub open spec fn number_words(n: Number) -> Seq<char> {
    match n {
        Number::Whole(v) => decimal(v as nat),
        Number::Thousandths(v) => fraction(v as nat, 3),
        Number::Billionths(v) => fraction(v as nat, 9),
        Number::Shown(s) => s@,
        Number::Infinite => "+Inf"@,
        Number::NegativeInfinite => "-Inf"@,
        Number::NotANumber => "NaN"@,
    }
}

fn decimal_string(n: u128) -> (r: String)
    ensures
        r@ == decimal(n as nat),
    decreases n,
{
    if n < 10 {
        let mut s: String = String::new();
        s.push((48 + n as u8) as char);
        s
    } else {
        let mut s: String = decimal_string(n / 10);
        s.push((48 + (n % 10) as u8) as char);
        s
    }
}

fn digits_string(n: u128, places: u32) -> (r: String)
    ensures
        r@ == last_digits(n as nat, places as nat),
    decreases places,
{
    if places == 0 {
        String::new()
    } else {
        let mut s: String = digits_string(n / 10, places - 1);
        s.push((48 + (n % 10) as u8) as char);
        s
    }
}

fn drop_digits(n: u128, places: u32) -> (r: u128)
    ensures
        r == without_digits(n as nat, places as nat),
    decreases places,
{
    if places == 0 {
        n
    } else {
        drop_digits(n / 10, places - 1)
    }
}

fn fraction_string(n: u128, places: u32) -> (r: String)
    ensures
        r@ == fraction(n as nat, places as nat),
    decreases places,
{
    if places == 0 {
        decimal_string(n)
    } else if n % 10 == 0 {
        fraction_string(n / 10, places - 1)
    } else {
        let mut s: String = decimal_string(drop_digits(n, places));
        s.push_str(".");
        let digits: String = digits_string(n, places);
        s.push_str(digits.as_str());
        s
    }
}

/// The text of a value.
pub fn format_value(value: &Number) -> (r: String)
    ensures
        r@ == number_words(*value),
{
    match value {
        Number::Whole(v) => decimal_string(*v as u128),
        Number::Thousandths(v) => fraction_string(*v as u128, 3),
        Number::Billionths(v) => fraction_string(*v, 9),
        Number::Shown(s) => s.clone(),
        Number::Infinite => "+Inf".to_owned(),
        Number::NegativeInfinite => "-Inf".to_owned(),
        Number::NotANumber => "NaN".to_owned(),
    }
}

/// A character of a label value.
pub open spec fn escaped_char(c: char) -> Seq<char> {
    if c == '\\' {
        seq!['\\', '\\']
    } else if c == '"' {
        seq!['\\', '"']
    } else if c == '\n' {
        seq!['\\', 'n']
    } else {
        seq![c]
    }
}

/// A label value: backslash, quote and newline are escaped.
pub open spec fn escaped(s: Seq<char>) -> Seq<char>
    decreases s.len(),
{
    if s.len() == 0 {
        Seq::empty()
    } else {
        escaped(s.drop_last()) + escaped_char(s.last())
    }
}

/// A character of a help text.
pub open spec fn help_char(c: char) -> Seq<char> {
    if c == '\\' {
        seq!['\\', '\\']
    } else if c == '\n' {
        seq!['\\', 'n']
    } else {
        seq![c]
    }
}

/// A help text: backslash and newline are escaped.
pub open spec fn help_text(s: Seq<char>) -> Seq<char>
    decreases s.len(),
{
    if s.len() == 0 {
        Seq::empty()
    } else {
        help_text(s.drop_last()) + help_char(s.last())
    }
}

/// Escapes a label value.
pub fn escape_label(value: &str) -> (r: String)
    ensures
        r@ == escaped(value@),
{
    let mut out: String = String::new();
    for c in it: value.chars()
        invariant
            it.seq() == value@,
            out@ == escaped(value@.take(it.index() as int)),
    {
        proof {
            let i = it.index() as int;
            assert(value@.take(i + 1).drop_last() =~= value@.take(i));
            assert(value@.take(i + 1).last() == c);
        }
        let ghost before = out@;
        if c == '\\' {
            out.push('\\');
            out.push('\\');
        } else if c == '"' {
            out.push('\\');
            out.push('"');
        } else if c == '\n' {
            out.push('\\');
            out.push('n');
        } else {
            out.push(c);
        }
        assert(out@ =~= before + escaped_char(c));
    }
    assert(value@.take(value@.len() as int) =~= value@);
    out
}

fn escape_help(help: &str) -> (r: String)
    ensures
        r@ == help_text(help@),
{
    let mut out: String = String::new();
    for c in it: help.chars()
        invariant
            it.seq() == help@,
            out@ == help_text(help@.take(it.index() as int)),
    {
        proof {
            let i = it.index() as int;
            assert(help@.take(i + 1).drop_last() =~= help@.take(i));
            assert(help@.take(i + 1).last() == c);
        }
        let ghost before = out@;
        if c == '\\' {
            out.push('\\');
            out.push('\\');
        } else if c == '\n' {
            out.push('\\');
            out.push('n');
        } else {
            out.push(c);
        }
        assert(out@ =~= before + help_char(c));
    }
    assert(help@.take(help@.len() as int) =~= help@);
    out
}

/// What an escaped label value stands for.
pub open spec fn unescaped(s: Seq<char>) -> Seq<char>
    decreases s.len(),
{
    if s.len() == 0 {
        Seq::empty()
    } else if s[0] == '\\' && s.len() >= 2 {
        seq![
            if s[1] == 'n' {
                '\n'
            } else {
                s[1]
            },
        ] + unescaped(s.skip(2))
    } else {
        seq![s[0]] + unescaped(s.skip(1))
    }
}

proof fn lemma_escaped_front(s: Seq<char>)
    requires
        s.len() > 0,
    ensures
        escaped(s) == escaped_char(s[0]) + escaped(s.skip(1)),
    decreases s.len(),
{
    if s.len() == 1 {
        assert(s.drop_last() =~= Seq::empty());
        assert(s.skip(1) =~= Seq::empty());
        assert(escaped(s) =~= escaped_char(s[0]) + escaped(s.skip(1)));
    } else {
        lemma_escaped_front(s.drop_last());
        assert(s.drop_last().skip(1) =~= s.skip(1).drop_last());
        assert(escaped(s) =~= escaped_char(s[0]) + escaped(s.skip(1)));
    }
}

/// A label value reads back: unescaping what was escaped gives the value, and the escaped text
/// holds no raw newline, so that a sample stays on its line.
pub proof fn law_labels_read_back(s: Seq<char>)
    ensures
        unescaped(escaped(s)) == s,
        !escaped(s).contains('\n'),
    decreases s.len(),
{
    if s.len() > 0 {
        lemma_escaped_front(s);
        let rest = s.skip(1);
        law_labels_read_back(rest);
        let e = escaped(s);
        let first = escaped_char(s[0]);
        assert(e.skip(first.len() as int) =~= escaped(rest));
        assert(s =~= seq![s[0]] + rest);
        assert forall|i: int| 0 <= i < e.len() implies e[i] != '\n' by {
            if i >= first.len() {
                assert(e[i] == escaped(rest)[i - first.len()]);
                assert(escaped(rest).contains(escaped(rest)[i - first.len()]));
            }
        }
    }
}

/// Where the first quote stands that no backslash escapes, reading from the front: each
/// backslash takes the character behind it with it.
pub open spec fn bare_quote(s: Seq<char>) -> Option<nat>
    decreases s.len(),
{
    if s.len() == 0 {
        None
    } else if s[0] == '"' {
        Some(0)
    } else {
        let step: nat = if s[0] == '\\' && s.len() >= 2 {
            2
        } else {
            1
        };
        match bare_quote(s.skip(step as int)) {
            Some(i) => Some(i + step),
            None => None,
        }
    }
}

/// In an escaped label value every quote stands behind its backslash: the first bare quote is
/// the one that closes the value, whatever comes after it.
pub proof fn law_value_ends_at_the_bare_quote(s: Seq<char>, after: Seq<char>)
    ensures
        bare_quote(escaped(s) + seq!['"'] + after) == Some(escaped(s).len()),
    decreases s.len(),
{
    let text = escaped(s) + seq!['"'] + after;
    if s.len() > 0 {
        lemma_escaped_front(s);
        let rest = s.skip(1);
        law_value_ends_at_the_bare_quote(rest, after);
        let first = escaped_char(s[0]);
        assert(text.skip(first.len() as int) =~= escaped(rest) + seq!['"'] + after);
        assert(text[0] == first[0]);
    } else {
        assert(text[0] == '"');
    }
}

/// The label of a sample.
pub open spec fn label_words(l: (Seq<char>, Seq<char>)) -> Seq<char> {
    l.0 + "=\""@ + escaped(l.1) + "\""@
}

/// The labels of a sample: none at all, or a list in braces.
pub open spec fn labels_words(labels: Seq<(Seq<char>, Seq<char>)>) -> Seq<char> {
    if labels.len() == 0 {
        Seq::empty()
    } else {
        "{"@ + label_list(labels) + "}"@
    }
}

/// The labels of a sample, with commas between them.
pub open spec fn label_list(labels: Seq<(Seq<char>, Seq<char>)>) -> Seq<char> {
    joined(labels.map_values(|l: (Seq<char>, Seq<char>)| label_words(l)), ","@)
}

/// What a list of labels holds.
pub open spec fn label_views(labels: Seq<(&str, &str)>) -> Seq<(Seq<char>, Seq<char>)> {
    labels.map_values(|l: (&str, &str)| (l.0@, l.1@))
}

/// The head of a family of samples.
#[verifier::opaque]
pub open spec fn family_words(name: Seq<char>, kind: Kind, help: Seq<char>) -> Seq<char> {
    "# HELP "@ + name + " "@ + help_text(help) + "\n# TYPE "@ + name + " "@ + kind_name(kind)
        + "\n"@
}

/// A sample.
#[verifier::opaque]
pub open spec fn sample_words(
    name: Seq<char>,
    labels: Seq<(Seq<char>, Seq<char>)>,
    value: Seq<char>,
) -> Seq<char> {
    name + labels_words(labels) + " "@ + value + "\n"@
}

/// The bounds of the buckets of tool-call durations, in milliseconds.
pub open spec fn bucket_bounds() -> Seq<u64> {
    seq![10u64, 25, 50, 100, 250, 500, 1_000, 2_500, 5_000, 10_000, 30_000]
}

/// The bounds of the buckets of tool-call durations, in milliseconds.
pub fn tool_call_buckets_ms() -> (r: Vec<u64>)
    ensures
        r@ == bucket_bounds(),
{
    let mut r: Vec<u64> = Vec::new();
    r.push(10);
    r.push(25);
    r.push(50);
    r.push(100);
    r.push(250);
    r.push(500);
    r.push(1_000);
    r.push(2_500);
    r.push(5_000);
    r.push(10_000);
    r.push(30_000);
    assert(r@ =~= bucket_bounds());
    r
}

/// Whether an observation in nanoseconds is at most `ms` milliseconds.
pub open spec fn within_ms(ms: u64) -> spec_fn(u64) -> bool {
    |nanos: u64| nanos <= ms * 1_000_000
}

/// How many observations are at most `ms` milliseconds.
pub open spec fn at_most_ms(observed: Seq<u64>, ms: u64) -> nat {
    observed.filter(within_ms(ms)).len()
}

/// The sum of the observations.
pub open spec fn total(observed: Seq<u64>) -> nat
    decreases observed.len(),
{
    if observed.len() == 0 {
        0
    } else {
        total(observed.drop_last()) + observed.last() as nat
    }
}

/// A histogram of durations. It stands for the durations observed, in nanoseconds.
pub struct Histogram {
    below: Vec<u64>,
    count: u64,
    sum: u128,
    observed: Ghost<Seq<u64>>,
}

impl View for Histogram {
    type V = Seq<u64>;

    closed spec fn view(&self) -> Seq<u64> {
        self.observed@
    }
}

proof fn lemma_total_is_bounded(observed: Seq<u64>)
    ensures
        total(observed) <= observed.len() * u64::MAX,
    decreases observed.len(),
{
    if observed.len() > 0 {
        lemma_total_is_bounded(observed.drop_last());
        let n = observed.len();
        assert((n - 1) * u64::MAX + u64::MAX == n * u64::MAX) by (nonlinear_arith);
    }
}

proof fn lemma_at_most_step(observed: Seq<u64>, nanos: u64, ms: u64)
    ensures
        at_most_ms(observed.push(nanos), ms) == at_most_ms(observed, ms) + (if nanos <= ms
            * 1_000_000 {
            1nat
        } else {
            0
        }),
        at_most_ms(observed, ms) <= observed.len(),
{
    reveal(Seq::filter);
    assert(observed.push(nanos).drop_last() =~= observed);
    lemma_at_most_is_bounded(observed, ms);
}

proof fn lemma_at_most_is_bounded(observed: Seq<u64>, ms: u64)
    ensures
        at_most_ms(observed, ms) <= observed.len(),
    decreases observed.len(),
{
    reveal(Seq::filter);
    if observed.len() > 0 {
        lemma_at_most_is_bounded(observed.drop_last(), ms);
    }
}

impl Histogram {
    #[verifier::type_invariant]
    spec fn well_formed(self) -> bool {
        &&& self.below@.len() == bucket_bounds().len()
        &&& forall|i: int|
            0 <= i < self.below@.len() ==> #[trigger] self.below@[i] == at_most_ms(
                self.observed@,
                bucket_bounds()[i],
            )
        &&& self.count == self.observed@.len()
        &&& self.sum == total(self.observed@)
    }

    /// A histogram without observations.
    pub fn new() -> (r: Histogram)
        ensures
            r@ == Seq::<u64>::empty(),
    {
        let mut below: Vec<u64> = Vec::new();
        let mut i: usize = 0;
        while i < 11
            invariant
                i <= 11,
                below@.len() == i,
                forall|j: int| 0 <= j < i ==> #[trigger] below@[j] == 0,
            decreases 11 - i,
        {
            below.push(0);
            i += 1;
        }
        proof {
            reveal(Seq::filter);
        }
        Histogram { below, count: 0, sum: 0, observed: Ghost(Seq::empty()) }
    }

    /// A duration was observed.
    pub fn observe(&mut self, nanos: u64)
        requires
            old(self)@.len() < u64::MAX,
        ensures
            final(self)@ == old(self)@.push(nanos),
    {
        proof {
            use_type_invariant(&*self);
        }
        let ghost was = self.observed@;
        let bounds: Vec<u64> = tool_call_buckets_ms();
        let mut below: Vec<u64> = Vec::new();
        let mut i: usize = 0;
        while i < bounds.len()
            invariant
                i <= bounds@.len(),
                bounds@ == bucket_bounds(),
                self.observed@ == was,
                self.below@.len() == bucket_bounds().len(),
                was.len() < u64::MAX,
                forall|j: int|
                    0 <= j < self.below@.len() ==> #[trigger] self.below@[j] == at_most_ms(
                        was,
                        bucket_bounds()[j],
                    ),
                below@.len() == i,
                forall|j: int|
                    0 <= j < i ==> #[trigger] below@[j] == at_most_ms(
                        was.push(nanos),
                        bucket_bounds()[j],
                    ),
            decreases bounds.len() - i,
        {
            proof {
                lemma_at_most_step(was, nanos, bounds@[i as int]);
            }
            let held: u64 = self.below[i];
            assert(held == at_most_ms(was, bucket_bounds()[i as int]));
            assert(bounds@[i as int] <= 30_000) by {
                assert(bounds@[i as int] == bucket_bounds()[i as int]);
            }
            if nanos <= bounds[i] * 1_000_000 {
                below.push(held + 1);
            } else {
                below.push(held);
            }
            i += 1;
        }
        proof {
            lemma_total_is_bounded(was);
            let n = was.len();
            assert(n * u64::MAX + u64::MAX <= u128::MAX) by (nonlinear_arith)
                requires
                    n < u64::MAX,
            ;
            assert(was.push(nanos).drop_last() =~= was);
        }
        *self = Histogram {
            below,
            count: self.count + 1,
            sum: self.sum + nanos as u128,
            observed: Ghost(was.push(nanos)),
        };
    }

    /// For each bound, how many observations are at most that.
    pub fn cumulative(&self) -> (r: Vec<u64>)
        ensures
            r@.len() == bucket_bounds().len(),
            forall|i: int|
                0 <= i < r@.len() ==> #[trigger] r@[i] == at_most_ms(self@, bucket_bounds()[i]),
    {
        proof {
            use_type_invariant(self);
        }
        let mut r: Vec<u64> = Vec::new();
        let mut i: usize = 0;
        while i < self.below.len()
            invariant
                i <= self.below@.len(),
                r@ == self.below@.take(i as int),
            decreases self.below.len() - i,
        {
            r.push(self.below[i]);
            assert(self.below@.take(i + 1) =~= self.below@.take(i as int).push(
                self.below@[i as int],
            ));
            i += 1;
        }
        r
    }

    /// How many durations were observed.
    pub fn count(&self) -> (r: u64)
        ensures
            r == self@.len(),
    {
        proof {
            use_type_invariant(self);
        }
        self.count
    }

    /// The sum of the durations observed.
    pub fn sum(&self) -> (r: u128)
        ensures
            r == total(self@),
    {
        proof {
            use_type_invariant(self);
        }
        self.sum
    }
}

/// The buckets of a histogram grow from bound to bound, and none holds more than all.
pub proof fn law_buckets_are_cumulative(observed: Seq<u64>, a: u64, b: u64)
    requires
        a <= b,
    ensures
        at_most_ms(observed, a) <= at_most_ms(observed, b) <= observed.len(),
    decreases observed.len(),
{
    reveal(Seq::filter);
    if observed.len() > 0 {
        law_buckets_are_cumulative(observed.drop_last(), a, b);
    }
}

/// The first `n` buckets of a histogram.
pub open spec fn buckets_words(
    name: Seq<char>,
    labels: Seq<(Seq<char>, Seq<char>)>,
    observed: Seq<u64>,
    n: nat,
) -> Seq<char>
    decreases n,
{
    if n == 0 {
        Seq::empty()
    } else {
        let bound = bucket_bounds()[n - 1];
        buckets_words(name, labels, observed, (n - 1) as nat) + sample_words(
            name + "_bucket"@,
            labels.push(("le"@, fraction(bound as nat, 3))),
            decimal(at_most_ms(observed, bound)),
        )
    }
}

/// One labelled histogram: cumulative `_bucket` lines through `+Inf`, then `_sum` and `_count`.
#[verifier::opaque]
pub open spec fn histogram_words(
    name: Seq<char>,
    labels: Seq<(Seq<char>, Seq<char>)>,
    observed: Seq<u64>,
) -> Seq<char> {
    buckets_words(name, labels, observed, bucket_bounds().len()) + sample_words(
        name + "_bucket"@,
        labels.push(("le"@, "+Inf"@)),
        decimal(observed.len()),
    ) + sample_words(name + "_sum"@, labels, fraction(total(observed), 9)) + sample_words(
        name + "_count"@,
        labels,
        decimal(observed.len()),
    )
}

/// An exposition that is being written: a family head, then its samples.
pub struct Exposition {
    out: String,
}

impl View for Exposition {
    type V = Seq<char>;

    closed spec fn view(&self) -> Seq<char> {
        self.out@
    }
}

fn name_with(name: &str, suffix: &str) -> (r: String)
    ensures
        r@ == name@ + suffix@,
{
    let mut r: String = name.to_owned();
    r.push_str(suffix);
    r
}

fn with<'a>(labels: &Vec<(&'a str, &'a str)>, key: &'a str, value: &'a str) -> (r: Vec<
    (&'a str, &'a str),
>)
    ensures
        label_views(r@) == label_views(labels@).push((key@, value@)),
{
    let mut r: Vec<(&'a str, &'a str)> = Vec::new();
    let mut i: usize = 0;
    while i < labels.len()
        invariant
            i <= labels@.len(),
            r@ == labels@.take(i as int),
        decreases labels.len() - i,
    {
        r.push(labels[i]);
        assert(labels@.take(i + 1) =~= labels@.take(i as int).push(labels@[i as int]));
        i += 1;
    }
    assert(labels@.take(labels@.len() as int) =~= labels@);
    r.push((key, value));
    assert(label_views(r@) =~= label_views(labels@).push((key@, value@)));
    r
}

fn labels_text(labels: &Vec<(&str, &str)>) -> (r: String)
    ensures
        r@ == label_list(label_views(labels@)),
{
    let ghost words = label_views(labels@).map_values(
        |l: (Seq<char>, Seq<char>)| label_words(l),
    );
    let mut r: String = String::new();
    let mut i: usize = 0;
    while i < labels.len()
        invariant
            i <= labels@.len(),
            words == label_views(labels@).map_values(
                |l: (Seq<char>, Seq<char>)| label_words(l),
            ),
            r@ == joined(words.take(i as int), ","@),
        decreases labels.len() - i,
    {
        let ghost before = r@;
        proof {
            assert(words.take(i + 1).drop_last() =~= words.take(i as int));
            assert(words[i as int] == label_words((labels@[i as int].0@, labels@[i as int].1@)));
        }
        if i > 0 {
            r.push_str(",");
        }
        let ghost led = r@;
        r.push_str(labels[i].0);
        r.push_str("=\"");
        let value: String = escape_label(labels[i].1);
        r.push_str(value.as_str());
        r.push_str("\"");
        proof {
            assert(r@ =~= led + words[i as int]);
            assert(Seq::<char>::empty() + words[i as int] =~= words[i as int]);
        }
        i += 1;
    }
    assert(words.take(labels@.len() as int) =~= words);
    r
}

impl Exposition {
    /// An empty exposition.
    pub fn new() -> (r: Exposition)
        ensures
            r@ == Seq::<char>::empty(),
    {
        Exposition { out: String::new() }
    }

    /// Begins a family of samples.
    pub fn family(&mut self, name: &str, kind: Kind, help: &str)
        ensures
            final(self)@ == old(self)@ + family_words(name@, kind, help@),
    {
        let ghost before = self.out@;
        proof {
            reveal(family_words);
        }
        let help: String = escape_help(help);
        self.out.push_str("# HELP ");
        self.out.push_str(name);
        self.out.push_str(" ");
        self.out.push_str(help.as_str());
        self.out.push_str("\n# TYPE ");
        self.out.push_str(name);
        self.out.push_str(" ");
        self.out.push_str(kind.as_str());
        self.out.push_str("\n");
        assert(self.out@ =~= before + ("# HELP "@ + name@ + " "@ + help@ + "\n# TYPE "@ + name@
            + " "@ + kind_name(kind) + "\n"@));
    }

    /// Writes a sample.
    pub fn sample(&mut self, name: &str, labels: &Vec<(&str, &str)>, value: &Number)
        ensures
            final(self)@ == old(self)@ + sample_words(
                name@,
                label_views(labels@),
                number_words(*value),
            ),
    {
        let ghost before = self.out@;
        proof {
            reveal(sample_words);
        }
        self.out.push_str(name);
        if labels.len() > 0 {
            let list: String = labels_text(labels);
            self.out.push_str("{");
            self.out.push_str(list.as_str());
            self.out.push_str("}");
        }
        let shown: String = format_value(value);
        self.out.push_str(" ");
        self.out.push_str(shown.as_str());
        self.out.push_str("\n");
        assert(self.out@ =~= before + sample_words(
            name@,
            label_views(labels@),
            number_words(*value),
        ));
    }

    /// Writes one labelled histogram: cumulative `_bucket` lines through `+Inf`, then `_sum`
    /// and `_count`.
    pub fn histogram(&mut self, name: &str, labels: &Vec<(&str, &str)>, h: &Histogram)
        ensures
            final(self)@ == old(self)@ + histogram_words(name@, label_views(labels@), h@),
    {
        let ghost before = self@;
        let bucket: String = name_with(name, "_bucket");
        let bounds: Vec<u64> = tool_call_buckets_ms();
        let counts: Vec<u64> = h.cumulative();
        let mut i: usize = 0;
        assert(before + Seq::<char>::empty() =~= before);
        while i < bounds.len()
            invariant
                i <= bounds@.len(),
                bounds@ == bucket_bounds(),
                bucket@ == name@ + "_bucket"@,
                counts@.len() == bounds@.len(),
                forall|j: int|
                    0 <= j < counts@.len() ==> #[trigger] counts@[j] == at_most_ms(
                        h@,
                        bucket_bounds()[j],
                    ),
                self@ == before + buckets_words(name@, label_views(labels@), h@, i as nat),
            decreases bounds.len() - i,
        {
            let le: String = format_value(&Number::Thousandths(bounds[i]));
            let all: Vec<(&str, &str)> = with(labels, "le", le.as_str());
            self.sample(bucket.as_str(), &all, &Number::Whole(counts[i]));
            assert(self@ =~= before + buckets_words(
                name@,
                label_views(labels@),
                h@,
                (i + 1) as nat,
            ));
            i += 1;
        }
        let all: Vec<(&str, &str)> = with(labels, "le", "+Inf");
        self.sample(bucket.as_str(), &all, &Number::Whole(h.count()));
        let sum: String = name_with(name, "_sum");
        self.sample(sum.as_str(), labels, &Number::Billionths(h.sum()));
        let count: String = name_with(name, "_count");
        self.sample(count.as_str(), labels, &Number::Whole(h.count()));
        proof {
            reveal(histogram_words);
            assert(self@ =~= before + histogram_words(name@, label_views(labels@), h@));
        }
    }

    /// A family with a single unlabelled sample.
    pub fn single(&mut self, name: &str, kind: Kind, help: &str, value: &Number)
        ensures
            final(self)@ == old(self)@ + single_words(name@, kind, help@, number_words(*value)),
    {
        let ghost before = self@;
        self.family(name, kind, help);
        let none: Vec<(&str, &str)> = Vec::new();
        self.sample(name, &none, value);
        assert(label_views(none@) =~= Seq::empty());
        proof {
            reveal(single_words);
            assert(self@ =~= before + single_words(name@, kind, help@, number_words(*value)));
        }
    }

    /// The text of the exposition.
    pub fn finish(self) -> (r: String)
        ensures
            r@ == self@,
    {
        self.out
    }
}

/// A family with a single unlabelled sample.
#[verifier::opaque]
pub open spec fn single_words(
    name: Seq<char>,
    kind: Kind,
    help: Seq<char>,
    value: Seq<char>,
) -> Seq<char> {
    family_words(name, kind, help) + sample_words(name, Seq::empty(), value)
}

} // verus!
