//! Shared vocabulary: error kinds, stable identifiers and action metadata.
use vstd::prelude::*;
use crate::text::{ascii_alnum, ascii_lower_char, chars_of, is_ascii_alnum, join, join_strings, lemma_split_join, split_on, string_from, string_of_range, to_ascii_lower_char};

use crate::json_value::{json_entries_model, JsonValue, JsonView};
use crate::mcp_json::{jo_get, object_get};

verus! {

#[derive(Clone, Copy, Debug, PartialEq, Eq, Structural)]
pub enum CoreErrorKind {
    InvalidInput,
    NotFound,
    Conflict,
    Unavailable,
    Internal,
}

#[derive(Clone, Debug, PartialEq, Eq)]
pub struct ErrorInfo {
    pub kind: CoreErrorKind,
    pub message: String,
}

pub open spec fn core_kind_str(k: CoreErrorKind) -> Seq<char> {
    match k {
        CoreErrorKind::InvalidInput => "invalid_input"@,
        CoreErrorKind::NotFound => "not_found"@,
        CoreErrorKind::Conflict => "conflict"@,
        CoreErrorKind::Unavailable => "unavailable"@,
        CoreErrorKind::Internal => "internal"@,
    }
}

impl ErrorInfo {
    pub fn new(kind: CoreErrorKind, message: String) -> (r: ErrorInfo)
        ensures
            r.kind == kind,
            r.message == message,
    {
        ErrorInfo { kind, message }
    }

    /// The stable name of the error's kind.
    pub fn kind_str(&self) -> (r: &'static str)
        ensures
            r@ == core_kind_str(self.kind),
    {
        match self.kind {
            CoreErrorKind::InvalidInput => "invalid_input",
            CoreErrorKind::NotFound => "not_found",
            CoreErrorKind::Conflict => "conflict",
            CoreErrorKind::Unavailable => "unavailable",
            CoreErrorKind::Internal => "internal",
        }
    }
}

/// An identifier made of lowercase ASCII words joined by `:`.
#[derive(Clone, Debug, PartialEq, Eq, PartialOrd, Ord, Hash)]
pub struct StableId(String);

impl View for StableId {
    type V = Seq<char>;

    closed spec fn view(&self) -> Seq<char> {
        self.0@
    }
}

impl StableId {
    pub fn new(value: String) -> (r: StableId)
        ensures
            r@ == value@,
    {
        StableId(value)
    }

    pub fn as_str(&self) -> (r: &str)
        ensures
            r@ == self@,
    {
        self.0.as_str()
    }
}

/// A character of an id word: ASCII letters and digits lowercased, anything
/// else `_`.
pub open spec fn slug_char(c: char) -> char {
    if is_ascii_alnum(c) {
        ascii_lower_char(c)
    } else {
        '_'
    }
}

pub open spec fn trim_underscore_start(s: Seq<char>) -> Seq<char>
    decreases s.len(),
{
    if s.len() > 0 && s[0] == '_' {
        trim_underscore_start(s.drop_first())
    } else {
        s
    }
}

pub open spec fn trim_underscore_end(s: Seq<char>) -> Seq<char>
    decreases s.len(),
{
    if s.len() > 0 && s.last() == '_' {
        trim_underscore_end(s.drop_last())
    } else {
        s
    }
}

/// The id word of one part: its characters mapped by `slug_char`, with
/// `_` trimmed from both ends.
pub open spec fn slug(p: Seq<char>) -> Seq<char> {
    trim_underscore_end(trim_underscore_start(p.map_values(|c: char| slug_char(c))))
}

/// The non-empty words of the parts, in order.
pub open spec fn slugs(parts: Seq<Seq<char>>) -> Seq<Seq<char>>
    decreases parts.len(),
{
    if parts.len() == 0 {
        Seq::empty()
    } else if slug(parts.last()).len() > 0 {
        slugs(parts.drop_last()).push(slug(parts.last()))
    } else {
        slugs(parts.drop_last())
    }
}

fn slug_of(p: &str) -> (r: String)
    ensures
        r@ == slug(p@),
{
    let v = chars_of(p);
    let mut m: Vec<char> = Vec::new();
    let mut i: usize = 0;
    while i < v.len()
        invariant
            i <= v@.len(),
            v@ == p@,
            m@ == v@.subrange(0, i as int).map_values(|c: char| slug_char(c)),
        decreases v@.len() - i,
    {
        let c = v[i];
        let s = if ascii_alnum(c) {
            to_ascii_lower_char(c)
        } else {
            '_'
        };
        m.push(s);
        assert(v@.subrange(0, i + 1).map_values(|c: char| slug_char(c)) =~= v@.subrange(
            0,
            i as int,
        ).map_values(|c: char| slug_char(c)).push(slug_char(c)));
        i = i + 1;
    }
    assert(v@.subrange(0, v@.len() as int) =~= v@);
    let ghost full = m@;
    assert(full.subrange(0, full.len() as int) =~= full);
    let mut a: usize = 0;
    while a < m.len() && m[a] == '_'
        invariant
            a <= m@.len(),
            m@ == full,
            trim_underscore_start(full) == trim_underscore_start(full.subrange(a as int, full.len() as int)),
        decreases m@.len() - a,
    {
        assert(full.subrange(a as int, full.len() as int).drop_first() =~= full.subrange(
            a + 1,
            full.len() as int,
        ));
        a = a + 1;
    }
    assert(full.subrange(0, full.len() as int) =~= full);
    let mut b: usize = m.len();
    while b > a && m[b - 1] == '_'
        invariant
            a <= b <= m@.len(),
            m@ == full,
            trim_underscore_end(full.subrange(a as int, full.len() as int)) == trim_underscore_end(
                full.subrange(a as int, b as int),
            ),
        decreases b - a,
    {
        assert(full.subrange(a as int, b as int).drop_last() =~= full.subrange(a as int, b - 1));
        b = b - 1;
    }
    proof {
        let t = full.subrange(a as int, full.len() as int);
        if a < full.len() {
            assert(full.subrange(a as int, full.len() as int)[0] == full[a as int]);
        }
        assert(trim_underscore_start(full.subrange(a as int, full.len() as int)) == t);
    }
    string_of_range(&m, a, b)
}

/// The stable id of some parts: the non-empty id words of the parts, joined
/// by `:`.
pub fn stable_id(parts: &Vec<String>) -> (r: StableId)
    ensures
        r@ == join(slugs(parts@.map_values(|x: String| x@)), ":"@),
{
    let ghost w = parts@.map_values(|x: String| x@);
    let mut words: Vec<String> = Vec::new();
    let mut i: usize = 0;
    while i < parts.len()
        invariant
            i <= parts@.len(),
            w == parts@.map_values(|x: String| x@),
            words@.map_values(|x: String| x@) == slugs(w.take(i as int)),
        decreases parts@.len() - i,
    {
        let s = slug_of(parts[i].as_str());
        let ghost t = w.take(i + 1);
        assert(t.drop_last() =~= w.take(i as int));
        assert(t.last() == parts@[i as int]@);
        if s.unicode_len() > 0 {
            let ghost old_words = words@;
            words.push(s);
            assert(words@.map_values(|x: String| x@) =~= old_words.map_values(|x: String| x@).push(
                slug(parts@[i as int]@),
            ));
        }
        i = i + 1;
    }
    assert(w.take(parts@.len() as int) =~= w);
    StableId(join_strings(&words, ":"))
}

#[derive(Clone, Debug, PartialEq, Eq)]
pub enum ActionCategory {
    Filesystem,
    Network,
    Registry,
    Marketplace,
    Runtime,
    Other(String),
}

#[derive(Clone, Copy, Debug, PartialEq, Eq, Structural)]
pub enum ActionRisk {
    ReadOnly,
    WritesConfig,
    RunsProcess,
    UsesNetwork,
}

impl Default for ActionRisk {
    /// Read-only unless said otherwise.
    fn default() -> (r: ActionRisk)
        ensures
            r == ActionRisk::ReadOnly,
    {
        ActionRisk::ReadOnly
    }
}

#[derive(Clone, Debug, PartialEq, Eq)]
pub struct ActionMetadata {
    pub action_id: String,
    pub title: String,
    pub description: Option<String>,
    pub category: Option<ActionCategory>,
    pub risk: ActionRisk,
}

/// Why a JSON value does not have the expected shape.
#[derive(Clone, Copy, Debug, PartialEq, Eq, Structural)]
pub enum Error {
    ExpectedObject,
    ExpectedString,
}

impl Error {
    pub fn message(&self) -> (r: String)
        ensures
            r@ == match self {
                Error::ExpectedObject => "expected JSON object"@,
                Error::ExpectedString => "expected JSON string"@,
            },
    {
        match self {
            Error::ExpectedObject => string_from("expected JSON object"),
            Error::ExpectedString => string_from("expected JSON string"),
        }
    }
}


/// The entries of a JSON object; any other value is refused.
pub fn expect_json_object(value: JsonValue) -> (r: Result<Vec<(String, JsonValue)>, Error>)
    ensures
        match value@ {
            JsonView::Object(o) => r matches Ok(v) && json_entries_model(v@) == o,
            _ => r == Err::<Vec<(String, JsonValue)>, Error>(Error::ExpectedObject),
        },
{
    match value {
        JsonValue::Object(object) => Ok(object),
        _ => Err(Error::ExpectedObject),
    }
}

/// The string under `key` in a JSON object: nothing where the key is
/// missing or null, an error where it holds anything but a string.
pub fn optional_json_string<'a>(object: &'a Vec<(String, JsonValue)>, key: &str) -> (r: Result<
    Option<&'a str>,
    Error,
>)
    ensures
        match jo_get(json_entries_model(object@), key@) {
            None => r == Ok::<Option<&str>, Error>(None),
            Some(JsonView::Null) => r == Ok::<Option<&str>, Error>(None),
            Some(JsonView::String(s)) => r matches Ok(Some(x)) && x@ == s,
            Some(_) => r == Err::<Option<&str>, Error>(Error::ExpectedString),
        },
{
    match object_get(object, key) {
        None => Ok(None),
        Some(JsonValue::Null) => Ok(None),
        Some(JsonValue::String(value)) => Ok(Some(value.as_str())),
        Some(_) => Err(Error::ExpectedString),
    }
}


// ---------------------------------------------------------------------------
// The shape of stable ids.
/// A character of an id word: a lowercase ASCII letter, a digit or `_`.
pub open spec fn id_word_char(c: char) -> bool {
    ('a' <= c && c <= 'z') || ('0' <= c && c <= '9') || c == '_'
}

pub open spec fn all_id_word_chars(s: Seq<char>) -> bool {
    forall|k: int| 0 <= k < s.len() ==> id_word_char(#[trigger] s[k])
}

proof fn lemma_slug_char(c: char)
    ensures
        id_word_char(slug_char(c)),
        slug_char(c) != '_' ==> is_ascii_alnum(slug_char(c)),
{
    if 'A' <= c && c <= 'Z' {
        let x = c as u32;
        assert(65 <= x <= 90);
        assert(('a' <= ascii_lower_char(c) && ascii_lower_char(c) <= 'z'));
    }
}

proof fn lemma_trim_start(s: Seq<char>)
    requires
        all_id_word_chars(s),
    ensures
        all_id_word_chars(trim_underscore_start(s)),
        trim_underscore_start(s).len() > 0 ==> trim_underscore_start(s)[0] != '_',
    decreases s.len(),
{
    if s.len() > 0 && s[0] == '_' {
        assert forall|k: int| 0 <= k < s.drop_first().len() implies id_word_char(
            #[trigger] s.drop_first()[k],
        ) by {
            assert(s.drop_first()[k] == s[k + 1]);
        }
        lemma_trim_start(s.drop_first());
    }
}

proof fn lemma_trim_end(s: Seq<char>)
    requires
        all_id_word_chars(s),
        s.len() > 0 ==> s[0] != '_',
    ensures
        all_id_word_chars(trim_underscore_end(s)),
        trim_underscore_end(s).len() > 0 ==> trim_underscore_end(s)[0] == s[0],
    decreases s.len(),
{
    if s.len() > 0 && s.last() == '_' {
        let d = s.drop_last();
        assert forall|k: int| 0 <= k < d.len() implies id_word_char(#[trigger] d[k]) by {
            assert(d[k] == s[k]);
        }
        if d.len() > 0 {
            assert(d[0] == s[0]);
        }
        lemma_trim_end(d);
    }
}

proof fn lemma_slug_shape(p: Seq<char>)
    ensures
        all_id_word_chars(slug(p)),
        slug(p).len() > 0 ==> is_ascii_alnum(slug(p)[0]),
{
    let m = p.map_values(|c: char| slug_char(c));
    assert forall|k: int| 0 <= k < m.len() implies id_word_char(#[trigger] m[k]) by {
        lemma_slug_char(p[k]);
    }
    lemma_trim_start(m);
    lemma_trim_end(trim_underscore_start(m));
    let t = trim_underscore_start(m);
    if slug(p).len() > 0 {
        let c = t[0];
        assert(id_word_char(c));
        assert(c != '_');
    }
}

proof fn lemma_slugs_shape(parts: Seq<Seq<char>>)
    ensures
        forall|j: int|
            0 <= j < slugs(parts).len() ==> (#[trigger] slugs(parts)[j]).len() > 0
                && all_id_word_chars(slugs(parts)[j]) && is_ascii_alnum(slugs(parts)[j][0]),
    decreases parts.len(),
{
    if parts.len() > 0 {
        let d = slugs(parts.drop_last());
        lemma_slugs_shape(parts.drop_last());
        lemma_slug_shape(parts.last());
        let v = slugs(parts);
        assert forall|j: int| 0 <= j < v.len() implies (#[trigger] v[j]).len() > 0
            && all_id_word_chars(v[j]) && is_ascii_alnum(v[j][0]) by {
            if j < d.len() {
                assert(v[j] == d[j]);
            } else {
                assert(v[j] == slug(parts.last()));
            }
        }
    }
}

proof fn lemma_join_chars(v: Seq<Seq<char>>)
    requires
        forall|j: int| 0 <= j < v.len() ==> all_id_word_chars(#[trigger] v[j]),
    ensures
        forall|k: int|
            0 <= k < join(v, seq![':']).len() ==> id_word_char(#[trigger] join(v, seq![':'])[k])
                || join(v, seq![':'])[k] == ':',
    decreases v.len(),
{
    if v.len() > 1 {
        let rest = v.drop_first();
        assert forall|j: int| 0 <= j < rest.len() implies all_id_word_chars(#[trigger] rest[j]) by {
            assert(rest[j] == v[j + 1]);
        }
        lemma_join_chars(rest);
        let a = v[0];
        let b = join(rest, seq![':']);
        assert(join(v, seq![':']) == a + seq![':'] + b);
        assert forall|k: int| 0 <= k < (a + seq![':'] + b).len() implies id_word_char(
            #[trigger] (a + seq![':'] + b)[k],
        ) || (a + seq![':'] + b)[k] == ':' by {
            assert(all_id_word_chars(v[0]));
            if k < a.len() {
                assert((a + seq![':'] + b)[k] == a[k]);
            } else if k > a.len() {
                assert((a + seq![':'] + b)[k] == b[k - a.len() - 1]);
            }
        }
    } else if v.len() == 1 {
        assert(all_id_word_chars(v[0]));
    }
}

/// A stable id uses only lowercase ASCII letters, digits, `_` and `:`; its
/// `:`-separated segments are the non-empty id words of the parts, in order,
/// each beginning with a letter or digit.
pub proof fn law_stable_id_shape(parts: Seq<Seq<char>>)
    ensures
        forall|k: int|
            0 <= k < join(slugs(parts), ":"@).len() ==> id_word_char(
                #[trigger] join(slugs(parts), ":"@)[k],
            ) || join(slugs(parts), ":"@)[k] == ':',
        forall|j: int|
            0 <= j < slugs(parts).len() ==> (#[trigger] slugs(parts)[j]).len() > 0
                && is_ascii_alnum(slugs(parts)[j][0]) && all_id_word_chars(slugs(parts)[j]),
        slugs(parts).len() > 0 ==> split_on(join(slugs(parts), ":"@), ':') == slugs(parts),
{
    reveal_strlit(":");
    assert(":"@ =~= seq![':']);
    let v = slugs(parts);
    lemma_slugs_shape(parts);
    lemma_join_chars(v);
    if v.len() > 0 {
        assert forall|j: int| 0 <= j < v.len() implies !(#[trigger] v[j]).contains(':') by {
            if v[j].contains(':') {
                let k = choose|k: int| 0 <= k < v[j].len() && v[j][k] == ':';
                assert(id_word_char(v[j][k]));
            }
        }
        lemma_split_join(v, ':');
    }
}

} // verus!
