//! The `metadata.json` of a database: what is read from it, and how a setting is merged
//! into it.
use crate::text::{
    all_digits, decimal, decimal_text, lemma_decimal_value, occurs_at, occurs_in, parsed_u64,
};
use serde_json::Value;
use vstd::prelude::*;

verus! {

/// `serde_json::Value`, a JSON document.
#[verifier::external_type_specification]
#[verifier::external_body]
pub struct ExValue(Value);

/// What a document holds: the members of an object, each with its value as compact JSON text,
/// or the compact JSON text of any other document.
pub uninterp spec fn members(v: Value) -> Result<Map<Seq<char>, Seq<char>>, Seq<char>>;

/// What `serde_json::from_str` reads from a text: `None` when it reads no document, or else
/// what the document holds as [`members`] gives it.
pub uninterp spec fn document(text: Seq<char>) -> Option<
    Result<Map<Seq<char>, Seq<char>>, Seq<char>>,
>;

/// The text that `serde_json::to_string_pretty` writes of what a document holds.
pub uninterp spec fn pretty_text(d: Result<Map<Seq<char>, Seq<char>>, Seq<char>>) -> Seq<char>;

/// A hexadecimal digit below sixteen.
pub open spec fn hex_digit(d: int) -> char {
    if d < 10 {
        (48 + d) as char
    } else {
        (87 + d) as char
    }
}

/// A character of a JSON string: quotes, backslashes and control characters are escaped.
pub open spec fn json_char(c: char) -> Seq<char> {
    let n = c as int;
    if c == '"' || c == '\\' {
        seq!['\\', c]
    } else if n == 8 {
        seq!['\\', 'b']
    } else if n == 9 {
        seq!['\\', 't']
    } else if n == 10 {
        seq!['\\', 'n']
    } else if n == 12 {
        seq!['\\', 'f']
    } else if n == 13 {
        seq!['\\', 'r']
    } else if n < 32 {
        seq!['\\', 'u', '0', '0', hex_digit(n / 16), hex_digit(n % 16)]
    } else {
        seq![c]
    }
}

/// The characters of a JSON string, between its quotes.
pub open spec fn json_chars(s: Seq<char>) -> Seq<char>
    decreases s.len(),
{
    if s.len() == 0 {
        Seq::empty()
    } else {
        json_char(s[0]) + json_chars(s.skip(1))
    }
}

/// The compact JSON text of a string.
pub open spec fn json_string(s: Seq<char>) -> Seq<char> {
    seq!['"'] + json_chars(s) + seq!['"']
}

proof fn lemma_hex_digits_differ(d: int, e: int)
    requires
        0 <= d < 16,
        0 <= e < 16,
        hex_digit(d) == hex_digit(e),
    ensures
        d == e,
{
    assert(hex_digit(d) as int == if d < 10 {
        48 + d
    } else {
        87 + d
    });
    assert(hex_digit(e) as int == if e < 10 {
        48 + e
    } else {
        87 + e
    });
}

proof fn lemma_escaped_alike(c: char, d: char)
    requires
        json_char(c).len() == 6,
        json_char(d).len() == 6,
        json_char(c)[4] == json_char(d)[4],
        json_char(c)[5] == json_char(d)[5],
    ensures
        c == d,
{
    let x = c as int;
    let y = d as int;
    assert(0 <= x < 32 && 0 <= y < 32);
    lemma_hex_digits_differ(x / 16, y / 16);
    lemma_hex_digits_differ(x % 16, y % 16);
    assert(x == y);
}

proof fn lemma_json_chars(s: Seq<char>, t: Seq<char>)
    requires
        json_chars(s) == json_chars(t),
    ensures
        s == t,
    decreases s.len(),
{
    let text = json_chars(s);
    if s.len() == 0 || t.len() == 0 {
        if s.len() > 0 {
            assert(text.len() >= json_char(s[0]).len());
        }
        if t.len() > 0 {
            assert(text.len() >= json_char(t[0]).len());
        }
        assert(s =~= t);
    } else {
        let a = json_char(s[0]);
        let b = json_char(t[0]);
        assert forall|i: int| 0 <= i < a.len() implies a[i] == text[i] by {}
        assert forall|i: int| 0 <= i < b.len() implies b[i] == text[i] by {}
        assert(a[0] == b[0]);
        if a.len() > 1 {
            assert(a[1] == text[1] && b[1] == text[1]);
        }
        assert(a.len() == b.len());
        if a.len() == 6 {
            assert(a[4] == b[4] && a[5] == b[5]);
            lemma_escaped_alike(s[0], t[0]);
        }
        assert(s[0] == t[0]);
        assert(text.skip(a.len() as int) =~= json_chars(s.skip(1)));
        assert(text.skip(a.len() as int) =~= json_chars(t.skip(1)));
        lemma_json_chars(s.skip(1), t.skip(1));
        assert(s =~= seq![s[0]] + s.skip(1));
        assert(t =~= seq![t[0]] + t.skip(1));
    }
}

/// No two strings have the same JSON text.
pub proof fn law_json_strings_differ(s: Seq<char>, t: Seq<char>)
    requires
        json_string(s) == json_string(t),
    ensures
        s == t,
{
    let text = json_string(s);
    assert(text.len() == json_chars(s).len() + 2);
    assert(json_string(t).len() == json_chars(t).len() + 2);
    assert(text.subrange(1, text.len() - 1) =~= json_chars(s));
    assert(json_string(t).subrange(1, text.len() - 1) =~= json_chars(t));
    lemma_json_chars(s, t);
}

/// The deepest nesting of containers that `serde_json` reads.
pub const MAX_NESTING: usize = 127;

/// The key that `serde_json` keeps for itself: an object that begins with it is read as the
/// document that the string under it writes.
pub open spec fn raw_key() -> Seq<char> {
    "$serde_json::private::RawValue"@
}

/// How [`raw_key`] stands as a key in a compact JSON text.
pub open spec fn raw_member() -> Seq<char> {
    "\"$serde_json::private::RawValue\":"@
}

/// Whether a JSON text may hold [`raw_key`], written out or with escapes.
pub open spec fn may_spell_raw_key(text: Seq<char>) -> bool {
    occurs_in(raw_key(), text) || occurs_in("\\u"@, text)
}

/// How deep the containers of a compact JSON text are nested, when `open` of them are open at
/// its start, which stands inside a string or not.
pub open spec fn deepest(t: Seq<char>, open: int, in_string: bool) -> int
    decreases t.len(),
{
    if t.len() == 0 {
        open
    } else if in_string {
        if t[0] == '\\' && t.len() >= 2 {
            deepest(t.skip(2), open, true)
        } else {
            deepest(t.skip(1), open, t[0] != '"')
        }
    } else if t[0] == '[' || t[0] == '{' {
        deepest(t.skip(1), open + 1, false)
    } else if t[0] == ']' || t[0] == '}' {
        let rest = deepest(t.skip(1), open - 1, false);
        if rest > open {
            rest
        } else {
            open
        }
    } else {
        deepest(t.skip(1), open, t[0] == '"')
    }
}

/// Whether a compact JSON text has no [`raw_key`] among its keys, and no more than `room`
/// containers inside one another.
pub open spec fn tame_text(t: Seq<char>, room: int) -> bool {
    !occurs_in(raw_member(), t) && deepest(t, 0, false) <= room
}

/// Whether a document has no [`raw_key`] among its keys, at any depth, and is nested no deeper
/// than `serde_json` reads.
pub open spec fn tame(d: Result<Map<Seq<char>, Seq<char>>, Seq<char>>) -> bool {
    match d {
        Ok(m) => forall|k: Seq<char>| #[trigger]
            m.contains_key(k) ==> k != raw_key() && tame_text(m[k], MAX_NESTING - 1),
        Err(t) => tame_text(t, MAX_NESTING as int),
    }
}

/// The members of a document that is an object.
pub open spec fn object_in(d: Result<Map<Seq<char>, Seq<char>>, Seq<char>>) -> Option<
    Map<Seq<char>, Seq<char>>,
> {
    match d {
        Ok(m) => Some(m),
        Err(_) => None,
    }
}

/// The unsigned number that a compact JSON text writes, if it writes one.
pub open spec fn json_number(t: Seq<char>) -> Option<u64> {
    match parsed_u64(t) {
        Some(n) => if decimal(n as nat) == t {
            Some(n)
        } else {
            None
        },
        None => None,
    }
}

/// The unsigned number under `key`, if the document is an object and holds one there.
pub open spec fn number_member(m: Option<Map<Seq<char>, Seq<char>>>, key: Seq<char>) -> Option<u64> {
    match m {
        Some(fields) => if fields.contains_key(key) {
            json_number(fields[key])
        } else {
            None
        },
        None => None,
    }
}

/// Whether the document is an object that holds the string `s` under `key`.
pub open spec fn holds_text(m: Option<Map<Seq<char>, Seq<char>>>, key: Seq<char>, s: Seq<char>) -> bool {
    m matches Some(fields) && fields.contains_key(key) && fields[key] == json_string(s)
}

/// `serde_json::from_str`: the document that a text writes, or nothing when it reads none. The
/// documents that it reads are nested no deeper than [`MAX_NESTING`], and hold no key that the
/// text does not spell; a text that may spell [`raw_key`] can have another document, with a
/// nesting of its own, in a string under that key.
#[verifier::external_body]
fn parse_document(text: &str) -> (r: Option<Value>)
    ensures
        match r {
            Some(v) => document(text@) == Some(members(v)) && (!may_spell_raw_key(text@) ==> tame(
                members(v),
            )),
            None => document(text@) is None,
        },
{
    serde_json::from_str::<Value>(text).ok()
}

/// `serde_json::Value::Object` of an empty map: an object without members.
#[verifier::external_body]
fn empty_object() -> (r: Value)
    ensures
        members(r) is Ok,
        members(r)->Ok_0.is_empty(),
{
    Value::Object(serde_json::Map::new())
}

/// `serde_json::Map::insert` on the members of an object: the key gets the number, the other
/// members keep their values. A document that is no object stays as it is.
#[verifier::external_body]
fn put_number(v: &mut Value, key: &str, n: u64)
    ensures
        members(*final(v)) == (match members(*old(v)) {
            Ok(m) => Ok(m.insert(key@, decimal(n as nat))),
            Err(t) => Err(t),
        }),
{
    if let Some(fields) = v.as_object_mut() {
        fields.insert(key.to_string(), Value::from(n));
    }
}

/// `serde_json::Value::get` and `Value::as_u64`: the unsigned number under a key.
#[verifier::external_body]
fn get_number(v: &Value, key: &str) -> (r: Option<u64>)
    ensures
        r == number_member(object_in(members(*v)), key@),
{
    v.get(key).and_then(|x| x.as_u64())
}

/// `serde_json::Value::get` and `Value::as_str`: the string under a key. No other value has the
/// JSON text of a string.
#[verifier::external_body]
fn get_text(v: &Value, key: &str) -> (r: Option<String>)
    ensures
        match r {
            Some(s) => holds_text(object_in(members(*v)), key@, s@),
            None => forall|s: Seq<char>| !(#[trigger] holds_text(object_in(members(*v)), key@, s)),
        },
{
    v.get(key).and_then(|x| x.as_str()).map(|s| s.to_string())
}

/// `serde_json::to_string_pretty`: a text of the document, with the members of an object in the
/// order of their keys. Writing a document into memory does not fail. Reading the text back
/// gives the same members, and the same values for numbers and strings; fractional numbers may
/// come back rounded. Nothing is said of what is read back from a document that holds
/// [`raw_key`] as a key or is nested deeper than [`MAX_NESTING`].
#[verifier::external_body]
fn pretty(v: &Value) -> (r: Option<String>)
    ensures
        r is Some,
        r->0@ == pretty_text(members(*v)),
        wrote(r->0@, members(*v)),
{
    serde_json::to_string_pretty(v).ok()
}

/// Whether `text` is what is written of `d`: read back, it gives what a tame `d` holds.
pub open spec fn wrote(text: Seq<char>, d: Result<Map<Seq<char>, Seq<char>>, Seq<char>>) -> bool {
    &&& text == pretty_text(d)
    &&& tame(d) ==> (document(text) matches Some(back) && reads_back(d, back))
}

/// Whether `back` gives what `written` holds: the same keys, and the same numbers and
/// strings, or else a document that is no object either.
pub open spec fn reads_back(
    written: Result<Map<Seq<char>, Seq<char>>, Seq<char>>,
    back: Result<Map<Seq<char>, Seq<char>>, Seq<char>>,
) -> bool {
    match written {
        Ok(w) => back matches Ok(b) && same_fields(w, b),
        Err(_) => back is Err,
    }
}

/// Whether `b` has the keys of `w`, and its numbers and strings.
pub open spec fn same_fields(w: Map<Seq<char>, Seq<char>>, b: Map<Seq<char>, Seq<char>>) -> bool {
    &&& forall|k: Seq<char>| #[trigger] w.contains_key(k) <==> b.contains_key(k)
    &&& forall|k: Seq<char>| w.contains_key(k) && json_number(#[trigger] w[k]) is Some ==> b[k] == w[k]
    &&& forall|k: Seq<char>, s: Seq<char>|
        w.contains_key(k) && #[trigger] w[k] == #[trigger] json_string(s) ==> b[k] == w[k]
}

/// The members that the text of a `metadata.json` holds, if it is there and holds an object.
pub open spec fn stored(text: Option<Seq<char>>) -> Option<Map<Seq<char>, Seq<char>>> {
    match text {
        Some(t) => match document(t) {
            Some(d) => object_in(d),
            None => None,
        },
        None => None,
    }
}

/// The members that a text of a `metadata.json` holds.
pub open spec fn stored_str(text: Option<&str>) -> Option<Map<Seq<char>, Seq<char>>> {
    stored(crate::text::opt_str(text))
}

/// Reads an unsigned number from the text of a `metadata.json`; `None` when there is no
/// text, or no such number in it.
pub fn read_number(text: Option<&str>, key: &str) -> (r: Option<u64>)
    ensures
        r == number_member(stored_str(text), key@),
{
    match text {
        Some(t) => match parse_document(t) {
            Some(v) => get_number(&v, key),
            None => None,
        },
        None => None,
    }
}

/// Reads a metadata field as a 32-bit number: the largest such number for a larger one, so
/// that it is never taken for a smaller one.
pub fn read_metadata_u32(text: Option<&str>, key: &str) -> (r: Option<u32>)
    ensures
        r == (match number_member(stored_str(text), key@) {
            Some(n) => Some(
                if n <= u32::MAX {
                    n as u32
                } else {
                    u32::MAX
                },
            ),
            None => None,
        }),
{
    match read_number(text, key) {
        Some(n) => Some(
            if n <= u32::MAX as u64 {
                n as u32
            } else {
                u32::MAX
            },
        ),
        None => None,
    }
}

/// What is read from a `metadata.json` to describe an index.
pub struct IndexMetadata {
    pub model: Option<String>,
    pub dimensions: Option<u64>,
    pub total_chunks: Option<u64>,
    pub total_files: Option<u64>,
    pub indexed_at: Option<String>,
}

/// Whether `r` is the string under `key`, if there is one.
pub open spec fn is_text_member(
    m: Option<Map<Seq<char>, Seq<char>>>,
    key: Seq<char>,
    r: Option<String>,
) -> bool {
    match r {
        Some(s) => holds_text(m, key, s@) && forall|t: Seq<char>| #[trigger]
            holds_text(m, key, t) ==> t == s@,
        None => forall|s: Seq<char>| !(#[trigger] holds_text(m, key, s)),
    }
}

fn text_member(v: &Value, key: &str) -> (r: Option<String>)
    ensures
        is_text_member(object_in(members(*v)), key@, r),
{
    let r: Option<String> = get_text(v, key);
    proof {
        let m = object_in(members(*v));
        if r is Some {
            assert forall|t: Seq<char>| #[trigger] holds_text(m, key@, t) implies t == r->0@ by {
                law_json_strings_differ(t, r->0@);
            }
        }
    }
    r
}

/// Reads the description of an index from the text of its `metadata.json`; `None` when there
/// is no text or it is not JSON.
pub fn read_index_metadata(text: Option<&str>) -> (r: Option<IndexMetadata>)
    ensures
        match r {
            Some(d) => {
                &&& text matches Some(t) && document(t@) is Some
                &&& is_text_member(stored_str(text), "model_short_name"@, d.model)
                &&& d.dimensions == number_member(stored_str(text), "dimensions"@)
                &&& d.total_chunks == number_member(stored_str(text), "total_chunks"@)
                &&& d.total_files == number_member(stored_str(text), "total_files"@)
                &&& is_text_member(stored_str(text), "indexed_at"@, d.indexed_at)
            },
            None => text matches Some(t) ==> document(t@) is None,
        },
{
    match text {
        Some(t) => match parse_document(t) {
            Some(v) => Some(
                IndexMetadata {
                    model: text_member(&v, "model_short_name"),
                    dimensions: get_number(&v, "dimensions"),
                    total_chunks: get_number(&v, "total_chunks"),
                    total_files: get_number(&v, "total_files"),
                    indexed_at: text_member(&v, "indexed_at"),
                },
            ),
            None => None,
        },
        None => None,
    }
}

/// What a number is merged into: the document that a text writes, or an empty object when
/// there is no text or no document in it.
pub open spec fn base_of(text: Option<Seq<char>>) -> Result<Map<Seq<char>, Seq<char>>, Seq<char>> {
    match text {
        Some(t) => match document(t) {
            Some(d) => d,
            None => Ok(Map::empty()),
        },
        None => Ok(Map::empty()),
    }
}

/// What a number merged into `text` gives: the members of the text with the number under its
/// key. A document that is no object stays as it is.
pub open spec fn merged(text: Option<Seq<char>>, key: Seq<char>, n: u64) -> Result<
    Map<Seq<char>, Seq<char>>,
    Seq<char>,
> {
    match base_of(text) {
        Ok(m) => Ok(m.insert(key, decimal(n as nat))),
        Err(t) => Err(t),
    }
}

/// The text of a `metadata.json` with a number merged into it. It reads back as what was
/// merged, for every text and key that do not spell the key that `serde_json` keeps for itself.
pub fn merge_metadata_number(text: Option<&str>, key: &str, n: u64) -> (r: Option<String>)
    ensures
        r matches Some(s) && wrote(s@, merged(crate::text::opt_str(text), key@, n)),
        key@ != raw_key() && (text matches Some(t) ==> document(t@) is None || !may_spell_raw_key(
            t@,
        )) ==> tame(merged(crate::text::opt_str(text), key@, n)),
{
    let ghost base = base_of(crate::text::opt_str(text));
    let mut v: Value = match text {
        Some(t) => match parse_document(t) {
            Some(v) => v,
            None => empty_object(),
        },
        None => empty_object(),
    };
    proof {
        if members(v) is Ok && members(v)->Ok_0.is_empty() {
            assert(members(v)->Ok_0 =~= Map::<Seq<char>, Seq<char>>::empty());
        }
        assert(members(v) == base);
        if key@ != raw_key() && tame(base) {
            law_merging_keeps_documents_tame(crate::text::opt_str(text), key@, n);
        }
    }
    put_number(&mut v, key, n);
    pretty(&v)
}

proof fn lemma_digits_are_flat(t: Seq<char>, open: int)
    requires
        all_digits(t),
    ensures
        deepest(t, open, false) == open,
    decreases t.len(),
{
    if t.len() > 0 {
        assert('0' <= t[0] <= '9');
        assert forall|i: int| 0 <= i < t.skip(1).len() implies '0' <= #[trigger] t.skip(1)[i]
            <= '9' by {
            assert(t.skip(1)[i] == t[i + 1]);
        }
        lemma_digits_are_flat(t.skip(1), open);
    }
}

/// Merging a number under an ordinary key into a document that reads back gives a document
/// that reads back.
pub proof fn law_merging_keeps_documents_tame(text: Option<Seq<char>>, key: Seq<char>, n: u64)
    requires
        tame(base_of(text)),
        key != raw_key(),
    ensures
        tame(merged(text, key, n)),
{
    let d = decimal(n as nat);
    lemma_decimal_value(n as nat);
    lemma_digits_are_flat(d, 0);
    assert(!occurs_in(raw_member(), d)) by {
        reveal_strlit("\"$serde_json::private::RawValue\":");
        if occurs_in(raw_member(), d) {
            let i = choose|i: int| occurs_at(d, raw_member(), i);
            assert(d.subrange(i, i + raw_member().len())[0] == d[i]);
            assert(raw_member()[0] == '"');
            assert(false);
        }
    }
    if let Ok(m) = base_of(text) {
        let w = merged(text, key, n)->Ok_0;
        assert forall|k: Seq<char>| #[trigger] w.contains_key(k) implies k != raw_key()
            && tame_text(w[k], MAX_NESTING - 1) by {
            if k != key {
                assert(m.contains_key(k));
            }
        }
    }
}

/// What is read back after a number was merged into a `metadata.json` that holds an object:
/// that number under its key, and every other number as it was.
pub proof fn law_merged_number_reads_back(
    text: Option<Seq<char>>,
    key: Seq<char>,
    n: u64,
    written: Seq<char>,
    other: Seq<char>,
)
    requires
        merged(text, key, n) is Ok,
        tame(merged(text, key, n)),
        wrote(written, merged(text, key, n)),
    ensures
        number_member(stored(Some(written)), key) == Some(n),
        other != key && number_member(stored(text), other) is Some ==> number_member(
            stored(Some(written)),
            other,
        ) == number_member(stored(text), other),
{
    crate::text::law_decimal_round_trip(n);
    let w = merged(text, key, n)->Ok_0;
    assert(w[key] == decimal(n as nat));
    assert(json_number(w[key]) == Some(n));
    let back = document(written)->0->Ok_0;
    assert(same_fields(w, back));
    assert(w.contains_key(key));
    assert(back.contains_key(key));
    assert(back[key] == w[key]);
    if other != key && number_member(stored(text), other) is Some {
        assert(w.contains_key(other));
        assert(back.contains_key(other));
        assert(back[other] == w[other]);
    }
}

/// The version of the on-disk format.
pub const SCHEMA_VERSION: u32 = 1;

/// What the recorded format version asks for.
pub enum SchemaCheck {
    /// Nothing: it is the current one.
    Current,
    /// None is recorded: the current one is to be recorded.
    Record,
    /// The database cannot be used; this is why.
    Refuse(String),
}

/// The error for a database of an older format.
pub open spec fn outdated_text(v: u64) -> Seq<char> {
    "Database schema outdated: found v"@ + decimal(v as nat) + ", need v"@ + decimal(
        SCHEMA_VERSION as nat,
    ) + ". Run `codesearch index --force` to rebuild."@
}

/// The error for a database of a newer format.
pub open spec fn too_new_text(v: u64) -> Seq<char> {
    "Database schema v"@ + decimal(v as nat) + " is newer than supported v"@ + decimal(
        SCHEMA_VERSION as nat,
    ) + ". Upgrade codesearch."@
}

/// Whether `r` is what the recorded format version asks for: a database without one counts as
/// current, an older one needs a rebuild, a newer one a newer program.
pub open spec fn is_schema_answer(r: SchemaCheck, recorded: Option<u64>) -> bool {
    match recorded {
        None => r is Record,
        Some(v) => if v == SCHEMA_VERSION {
            r is Current
        } else if v < SCHEMA_VERSION {
            r matches SchemaCheck::Refuse(e) && e@ == outdated_text(v)
        } else {
            r matches SchemaCheck::Refuse(e) && e@ == too_new_text(v)
        },
    }
}

/// Checks the format version that the text of a `metadata.json` records.
pub fn recorded_schema(text: Option<&str>) -> (r: SchemaCheck)
    ensures
        is_schema_answer(r, number_member(stored_str(text), "schema_version"@)),
{
    ensure_schema_version(read_number(text, "schema_version"))
}

/// Ensure the recorded format version matches the current one.
pub fn ensure_schema_version(recorded: Option<u64>) -> (r: SchemaCheck)
    ensures
        is_schema_answer(r, recorded),
{
    match recorded {
        None => SchemaCheck::Record,
        Some(v) => {
            if v == SCHEMA_VERSION as u64 {
                return SchemaCheck::Current;
            }
            let found: String = decimal_text(v);
            let need: String = decimal_text(SCHEMA_VERSION as u64);
            if v < SCHEMA_VERSION as u64 {
                let mut e: String = "Database schema outdated: found v".to_owned();
                e.push_str(found.as_str());
                e.push_str(", need v");
                e.push_str(need.as_str());
                e.push_str(". Run `codesearch index --force` to rebuild.");
                SchemaCheck::Refuse(e)
            } else {
                let mut e: String = "Database schema v".to_owned();
                e.push_str(found.as_str());
                e.push_str(" is newer than supported v");
                e.push_str(need.as_str());
                e.push_str(". Upgrade codesearch.");
                SchemaCheck::Refuse(e)
            }
        },
    }
}

} // verus!
