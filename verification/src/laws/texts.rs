//! What is done to texts.
use crate::order::{
    lemma_ascending, lemma_number_order_is_onto, lemma_text_order_is_whole, lists, number_order,
    sort_numbers, text_before, text_less, text_order,
};
use crate::stamps::Stamps;
use crate::text::{
    ascii_lower, contains_text, decimal, decimal_text, digits_value, join_texts, joined,
    law_decimal_round_trip, lemma_decimal_value, lower_char, occurs_at, occurs_in, parse_u64,
    parsed_u64, position_of, same_text, same_text_ignoring_case, split, split_on,
    starts_with_text, substring, texts, to_ascii_lower, trim_end_char, trim_text, trimmed,
    white_space, without_trailing,
};
use vstd::prelude::*;

verus! {

/// A text holds another that stands somewhere in it, and begins with one that stands first.
pub proof fn law_holding(
    hay: &str,
    needle: &str,
    holds: bool,
    begins: bool,
    before: Seq<char>,
    after: Seq<char>,
)
    requires
        call_ensures(contains_text, (hay, needle), holds),
        call_ensures(starts_with_text, (hay, needle), begins),
    ensures
        hay@ == before + needle@ + after ==> holds,
        hay@ == needle@ + after ==> begins && holds,
        needle@.len() > hay@.len() ==> !holds && !begins,
        begins ==> holds,
        holds ==> exists|b: Seq<char>, a: Seq<char>| hay@ == #[trigger] (b + needle@ + a),
{
    if hay@ == before + needle@ + after {
        let n = before.len() as int;
        assert(hay@.subrange(n, n + needle@.len()) =~= needle@);
        assert(occurs_at(hay@, needle@, n));
    }
    if hay@ == needle@ + after {
        assert(hay@.take(needle@.len() as int) =~= needle@);
    }
    if begins {
        assert(hay@.subrange(0, needle@.len() as int) =~= hay@.take(needle@.len() as int));
        assert(occurs_at(hay@, needle@, 0));
    }
    if holds {
        let i = choose|i: int| occurs_at(hay@, needle@, i);
        let b = hay@.take(i);
        let a = hay@.skip(i + needle@.len());
        assert(hay@.subrange(i, i + needle@.len()) == needle@);
        assert(hay@ =~= b + needle@ + a) by {
            assert forall|k: int| 0 <= k < hay@.len() implies hay@[k] == (b + needle@ + a)[k] by {
                if i <= k < i + needle@.len() {
                    assert(hay@.subrange(i, i + needle@.len())[k - i] == hay@[k]);
                }
            }
        }
    }
}

proof fn lemma_split(s: Seq<char>, sep: char)
    ensures
        split(s, sep).len() > 0,
        joined(split(s, sep), seq![sep]) == s,
        forall|i: int| 0 <= i < split(s, sep).len() ==> !(#[trigger] split(s, sep)[i]).contains(sep),
    decreases s.len(),
{
    let p = split(s, sep);
    if s.len() == 0 {
        assert(joined(p, seq![sep]) =~= s);
        assert(p[0] =~= Seq::<char>::empty());
    } else {
        let rest = s.drop_last();
        let before = split(rest, sep);
        lemma_split(rest, sep);
        if s.last() == sep {
            assert(p.drop_last() =~= before);
            assert(joined(p, seq![sep]) == joined(before, seq![sep]) + seq![sep] + Seq::<
                char,
            >::empty());
            assert(s =~= rest + seq![sep] + Seq::<char>::empty());
            assert forall|i: int| 0 <= i < p.len() implies !(#[trigger] p[i]).contains(sep) by {
                if i < before.len() {
                    assert(p[i] == before[i]);
                }
            }
        } else {
            let last = before.last().push(s.last());
            assert(p.drop_last() =~= before.drop_last());
            assert(p.last() == last);
            assert(s =~= rest.push(s.last()));
            if before.len() == 1 {
                assert(joined(p, seq![sep]) == last);
                assert(joined(before, seq![sep]) == before[0]);
            } else {
                let head = joined(before.drop_last(), seq![sep]) + seq![sep];
                assert(joined(before, seq![sep]) == head + before.last());
                assert(joined(p, seq![sep]) == head + last);
                assert(head + last =~= (head + before.last()).push(s.last()));
            }
            assert forall|i: int| 0 <= i < p.len() implies !(#[trigger] p[i]).contains(sep) by {
                if i < before.len() - 1 {
                    assert(p[i] == before[i]);
                } else {
                    assert(!before[before.len() - 1].contains(sep));
                    if last.contains(sep) {
                        let k = choose|k: int| 0 <= k < last.len() && last[k] == sep;
                        assert(before.last()[k] == sep);
                    }
                }
            }
        }
    }
}

/// What is split and joined again is as it was; no piece holds what it was split at.
pub proof fn law_splitting(s: &str, sep: char, r: Vec<String>, mark: &str, t: String, i: int)
    requires
        call_ensures(split_on, (s, sep), r),
        mark@ == seq![sep],
        call_ensures(join_texts, (&r, mark), t),
    ensures
        t@ == s@,
        r@.len() > 0,
        0 <= i < r@.len() ==> !r@[i]@.contains(sep),
{
    lemma_split(s@, sep);
    assert(texts(r@).len() == r@.len());
    if 0 <= i < r@.len() {
        assert(texts(r@)[i] == r@[i]@);
    }
}

proof fn lemma_trimmed(s: Seq<char>) -> (r: (int, int))
    ensures
        0 <= r.0 <= r.1 <= s.len(),
        trimmed(s) == s.subrange(r.0, r.1),
        forall|k: int| 0 <= k < r.0 ==> white_space(#[trigger] s[k]),
        forall|k: int| r.1 <= k < s.len() ==> white_space(#[trigger] s[k]),
        r.0 < r.1 ==> !white_space(s[r.0]) && !white_space(s[r.1 - 1]),
    decreases s.len(),
{
    if s.len() == 0 {
        assert(trimmed(s) =~= s.subrange(0, 0));
        (0, 0)
    } else if white_space(s[0]) {
        let rest = s.drop_first();
        let (a, b) = lemma_trimmed(rest);
        assert(rest.subrange(a, b) =~= s.subrange(a + 1, b + 1));
        assert forall|k: int| 0 <= k < a + 1 implies white_space(#[trigger] s[k]) by {
            if k > 0 {
                assert(white_space(rest[k - 1]));
            }
        }
        assert forall|k: int| b + 1 <= k < s.len() implies white_space(#[trigger] s[k]) by {
            assert(white_space(rest[k - 1]));
        }
        (a + 1, b + 1)
    } else if white_space(s.last()) {
        let rest = s.drop_last();
        let (a, b) = lemma_trimmed(rest);
        assert(rest.subrange(a, b) =~= s.subrange(a, b));
        assert forall|k: int| 0 <= k < a implies white_space(#[trigger] s[k]) by {
            assert(white_space(rest[k]));
        }
        assert forall|k: int| b <= k < s.len() implies white_space(#[trigger] s[k]) by {
            if k < s.len() - 1 {
                assert(white_space(rest[k]));
            }
        }
        (a, b)
    } else {
        assert(s.subrange(0, s.len() as int) =~= s);
        (0, s.len() as int)
    }
}

/// A trimmed text is the text without the blanks round it, and without no more than those.
pub proof fn law_trimming(s: &str, r: String) -> (p: (int, int))
    requires
        call_ensures(trim_text, (s,), r),
    ensures
        0 <= p.0 <= p.1 <= s@.len(),
        r@ == s@.subrange(p.0, p.1),
        forall|k: int| 0 <= k < p.0 ==> white_space(#[trigger] s@[k]),
        forall|k: int| p.1 <= k < s@.len() ==> white_space(#[trigger] s@[k]),
        r@.len() > 0 ==> !white_space(r@[0]) && !white_space(r@[r@.len() - 1]),
{
    lemma_trimmed(s@)
}

proof fn lemma_without_trailing(s: Seq<char>, c: char)
    ensures
        without_trailing(s, c).len() <= s.len(),
        without_trailing(s, c) == s.take(without_trailing(s, c).len() as int),
        forall|k: int| without_trailing(s, c).len() <= k < s.len() ==> #[trigger] s[k] == c,
        without_trailing(s, c).len() > 0 ==> without_trailing(s, c).last() != c,
    decreases s.len(),
{
    if s.len() > 0 && s.last() == c {
        let rest = s.drop_last();
        lemma_without_trailing(rest, c);
        let n = without_trailing(rest, c).len() as int;
        assert(rest.take(n) =~= s.take(n));
        assert forall|k: int| n <= k < s.len() implies #[trigger] s[k] == c by {
            if k < s.len() - 1 {
                assert(rest[k] == c);
            }
        }
    } else {
        assert(s.take(s.len() as int) =~= s);
    }
}

/// A text without a character at its end is the text up to its last other character.
pub proof fn law_trimming_an_end(s: &str, c: char, r: String)
    requires
        call_ensures(trim_end_char, (s, c), r),
    ensures
        r@.len() <= s@.len(),
        r@ == s@.take(r@.len() as int),
        forall|k: int| r@.len() <= k < s@.len() ==> #[trigger] s@[k] == c,
        r@.len() > 0 ==> r@.last() != c,
{
    lemma_without_trailing(s@, c);
}

/// In lower case the letters from A to Z are small, and all else is as it was; two texts are
/// the same but for case when they are the same in lower case.
pub proof fn law_lower_case(s: &str, r: String, t: &str, q: String, same: bool, i: int)
    requires
        call_ensures(to_ascii_lower, (s,), r),
        call_ensures(to_ascii_lower, (t,), q),
        call_ensures(same_text_ignoring_case, (s, t), same),
    ensures
        r@.len() == s@.len(),
        0 <= i < s@.len() && 'A' <= s@[i] <= 'Z' ==> r@[i] as u32 == s@[i] as u32 + 32,
        0 <= i < s@.len() && !('A' <= s@[i] <= 'Z') ==> r@[i] == s@[i],
        same <==> r@ == q@,
{
}

/// A number that is written is read back; what holds anything but digits is none.
pub proof fn law_numbers(n: u64, t: String, s: &str, r: Option<u64>, i: int)
    requires
        call_ensures(decimal_text, (n,), t),
        call_ensures(parse_u64, (s,), r),
    ensures
        s@ == t@ ==> r == Some(n),
        s@.len() == 0 ==> r is None,
        1 <= i < s@.len() && !('0' <= s@[i] <= '9') ==> r is None,
        r matches Some(v) ==> s@[0] != '+' ==> digits_value(s@) == v,
        t@.len() > 0,
        n > 0 ==> t@[0] != '0',
{
    law_decimal_round_trip(n);
    lemma_decimal_value(n as nat);
    if 1 <= i < s@.len() && !('0' <= s@[i] <= '9') {
        let d = crate::text::unsigned_part(s@);
        if s@[0] == '+' {
            assert(d[i - 1] == s@[i]);
        } else {
            assert(d[i] == s@[i]);
        }
    }
    if n > 0 {
        lemma_no_leading_zero(n as nat);
    }
}

proof fn lemma_no_leading_zero(n: nat)
    requires
        n > 0,
    ensures
        decimal(n).len() > 0,
        decimal(n)[0] != '0',
    decreases n,
{
    if n >= 10 {
        lemma_no_leading_zero(n / 10);
    }
}

/// A text is found at its first place in a list, where it is found.
pub proof fn law_places(list: Vec<String>, s: &str, r: Option<usize>, j: int)
    requires
        call_ensures(position_of, (&list, s), r),
    ensures
        r matches Some(i) ==> i < list@.len() && list@[i as int]@ == s@,
        r is Some && 0 <= j < list@.len() && list@[j]@ == s@ ==> r->0 <= j,
{
    if 0 <= j < list@.len() && list@[j]@ == s@ {
        if let Some(i) = r {
            if j < i {
                assert(list@[j]@ != s@);
            }
        }
    }
}

/// The order of texts is that of their first difference; a beginning stands first.
pub proof fn law_the_order_of_texts(
    a: &str,
    b: &str,
    r: bool,
    same: Seq<char>,
    x: char,
    y: char,
    p: Seq<char>,
    q: Seq<char>,
)
    requires
        call_ensures(text_before, (a, b), r),
    ensures
        a@ == same + seq![x] + p && b@ == same + seq![y] + q && x != y ==> (r <==> x < y),
        b@ == a@ + seq![x] + p ==> r,
        a@ == b@ ==> !r,
{
    if a@ == same + seq![x] + p && b@ == same + seq![y] + q && x != y {
        lemma_differ(same, x, y, p, q);
    }
    if b@ == a@ + seq![x] + p {
        lemma_beginning(a@, x, p);
    }
    if a@ == b@ {
        crate::order::lemma_text_less_total(a@, b@);
    }
}

proof fn lemma_differ(same: Seq<char>, x: char, y: char, p: Seq<char>, q: Seq<char>)
    requires
        x != y,
    ensures
        text_less(same + seq![x] + p, same + seq![y] + q) <==> x < y,
    decreases same.len(),
{
    let a = same + seq![x] + p;
    let b = same + seq![y] + q;
    if same.len() > 0 {
        let rest = same.drop_first();
        lemma_differ(rest, x, y, p, q);
        assert(a.drop_first() =~= rest + seq![x] + p);
        assert(b.drop_first() =~= rest + seq![y] + q);
        assert(a[0] == b[0]);
    } else {
        assert(a[0] == x && b[0] == y);
    }
}

proof fn lemma_beginning(a: Seq<char>, x: char, p: Seq<char>)
    ensures
        text_less(a, a + seq![x] + p),
    decreases a.len(),
{
    let b = a + seq![x] + p;
    if a.len() > 0 {
        lemma_beginning(a.drop_first(), x, p);
        assert(b.drop_first() =~= a.drop_first() + seq![x] + p);
        assert(a[0] == b[0]);
    }
}

/// An instant that is put under a name is got from it, and the others are as they were.
pub proof fn law_stamps(
    s: &mut Stamps,
    name: &str,
    at: u64,
    t: Stamps,
    r: Option<u64>,
    other: &str,
    was: Option<u64>,
    is: Option<u64>,
    empty: Stamps,
    none: Option<u64>,
)
    requires
        call_ensures(Stamps::put, (s, name, at), ()),
        t@ == final(s)@,
        call_ensures(Stamps::get, (&t, name), r),
        call_ensures(Stamps::get, (&*s, other), was),
        call_ensures(Stamps::get, (&t, other), is),
        call_ensures(Stamps::new, (), empty),
        call_ensures(Stamps::get, (&empty, name), none),
    ensures
        r == Some(at),
        other@ != name@ ==> is == was,
        none is None,
{
}

/// Sorted numbers are those that were given, the smaller first.
pub proof fn law_sorting_numbers(v: Vec<u64>, r: Vec<u64>, i: int, j: int)
    requires
        call_ensures(sort_numbers, (&v,), r),
    ensures
        r@.to_multiset() == v@.to_multiset(),
        0 <= i <= j < r@.len() ==> r@[i] <= r@[j],
{
    lemma_ascending(v@);
}

/// The order of numbers names every place once, that of the smaller number first, and of
/// equal numbers the first place first.
pub proof fn law_ordering_numbers(v: Vec<u64>, r: Vec<usize>, i: int, j: int, k: int)
    requires
        call_ensures(number_order, (&v,), r),
    ensures
        r@.len() == v@.len(),
        0 <= k < v@.len() ==> lists(r@, k),
        0 <= i < j < r@.len() ==> r@[i] < v@.len() && r@[j] < v@.len() && v@[r@[i] as int]
            <= v@[r@[j] as int] && (v@[r@[i] as int] == v@[r@[j] as int] ==> r@[i] < r@[j]),
{
    if 0 <= k < v@.len() {
        lemma_number_order_is_onto(v@, r@, k);
    }
}

/// The order of texts names every place once, that of the lesser text first, and of equal
/// texts the first place first.
pub proof fn law_ordering_texts(v: Vec<String>, r: Vec<usize>, i: int, j: int, k: int)
    requires
        call_ensures(text_order, (&v,), r),
    ensures
        r@.len() == v@.len(),
        0 <= k < v@.len() ==> lists(r@, k),
        0 <= i < j < r@.len() ==> r@[i] < v@.len() && r@[j] < v@.len() && (text_less(
            v@[r@[i] as int]@,
            v@[r@[j] as int]@,
        ) || (v@[r@[i] as int]@ == v@[r@[j] as int]@ && r@[i] < r@[j])),
{
    lemma_text_order_is_whole(texts(v@), r@);
}

} // verus!
