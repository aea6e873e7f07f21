//! Merging credential and runtime references into a `.env` file without
//! overwriting what is already there.
use vstd::prelude::*;
use crate::config_error::{ConfigError, ConfigFault};
use crate::env_file::{all_plain, env_text, is_plain_env_char, lemma_line_ok, opt_string_view, opt_text, parse_env_line, plain_value, strings_view, EnvLineView};
use crate::strmap::{keys_sorted, lemma_key_unique, lemma_sm_get_at, lemma_sm_index, sm_find, sm_get, sm_index, sm_insert};
use crate::text::{chars_of, contains_str, ends_with, find_char, find_char_from, has_infix, has_prefix, has_suffix, is_ascii_upper, is_ws, lemma_find_after_prefix, lemma_lines_cons, lemma_lines_no_newline, lemma_trim_fixed, lemma_trim_idem, lines, push_char, push_str, split_lines, starts_with, str_eq, string_from, string_of_range, strip_cr, trim, trim_bounds};

verus! {

// ---------------------------------------------------------------------------
// `Debug` quoting.
/// What `format!("{:?}", s)` writes for a string `s`.
pub uninterp spec fn str_debug(s: Seq<char>) -> Seq<char>;

/// Printable ASCII characters that `Debug` on a string writes unchanged.
pub open spec fn debug_verbatim_char(c: char) -> bool {
    ' ' <= c && c <= '~' && c != '"' && c != '\\' && c != '\''
}

pub open spec fn all_debug_verbatim(s: Seq<char>) -> bool {
    forall|i: int| 0 <= i < s.len() ==> debug_verbatim_char(#[trigger] s[i])
}

/// Writes `value` as `format!("{:?}", value)` does.
///
/// Trusted: the result is `str_debug(value)`, a text in double quotes with no
/// newline in it (a newline is written as `\n`), and a value made only of
/// printable ASCII characters other than `"`, `\` and `'` stands between the
/// quotes unchanged; this is how `Debug` for `str` escapes characters with
/// `char::escape_debug`.
#[verifier::external_body]
fn debug_quote(value: &str) -> (r: String)
    ensures
        r@ == str_debug(value@),
        r@.len() >= 2,
        r@[0] == '"',
        r@.last() == '"',
        !r@.contains('\n'),
        all_debug_verbatim(value@) ==> r@ == seq!['"'] + value@ + seq!['"'],
{
    format!("{:?}", value)
}

/// How a merged value is written: as it is when plain, else in `Debug` form.
pub open spec fn merge_quote(v: Seq<char>) -> Seq<char> {
    if all_plain(v) {
        v
    } else {
        str_debug(v)
    }
}

/// What the writing of a merged value is known to look like: no newline,
/// no whitespace or carriage return at either end, and plain `Debug` quotes
/// around a printable ASCII value.
pub open spec fn merge_quote_ok(v: Seq<char>) -> bool {
    let q = merge_quote(v);
    &&& !q.contains('\n')
    &&& (q.len() == 0 || (!is_ws(q[0]) && !is_ws(q.last()) && q.last() != '\r'))
    &&& (all_debug_verbatim(v) && !all_plain(v)) ==> q == seq!['"'] + v + seq!['"']
}

fn merge_quote_value(value: &str) -> (r: String)
    ensures
        r@ == merge_quote(value@),
        merge_quote_ok(value@),
{
    if plain_value(value) {
        proof {
            let v = value@;
            if v.contains('\n') {
                let k = choose|k: int| 0 <= k < v.len() && v[k] == '\n';
                assert(is_plain_env_char(v[k]));
            }
            if v.len() > 0 {
                assert(is_plain_env_char(v[0]));
                assert(is_plain_env_char(v[v.len() - 1]));
            }
        }
        string_from(value)
    } else {
        debug_quote(value)
    }
}

// ---------------------------------------------------------------------------
// Keys that may be merged.
pub open spec fn is_merge_key_char(c: char) -> bool {
    ('A' <= c && c <= 'Z') || ('0' <= c && c <= '9') || c == '_'
}

/// An uppercase name that refers to a token, secret, key, URL or runtime
/// environment: `^[A-Z][A-Z0-9_]*$` holding `TOKEN`, `SECRET`, `KEY` or
/// `URL`, or ending in `_ENV`, or starting with `MCP_`.
pub open spec fn valid_merge_key(k: Seq<char>) -> bool {
    &&& k.len() > 0
    &&& is_ascii_upper(k[0])
    &&& forall|i: int| 0 <= i < k.len() ==> is_merge_key_char(#[trigger] k[i])
    &&& (has_infix(k, "TOKEN"@) || has_infix(k, "SECRET"@) || has_infix(k, "KEY"@) || has_infix(
        k,
        "URL"@,
    ) || has_suffix(k, "_ENV"@) || has_prefix(k, "MCP_"@))
}

pub open spec fn merge_key_error(k: Seq<char>) -> ConfigFault {
    ConfigFault::InvalidConfig(
        "env merge key `"@ + k + "` must be an uppercase token/secret/key/url/runtime env reference"@,
    )
}

/// Checks that a key may be merged into a `.env` file.
pub fn validate_env_key_for_merge(key: &str) -> (r: Result<(), ConfigError>)
    ensures
        valid_merge_key(key@) ==> r is Ok,
        !valid_merge_key(key@) ==> (r matches Err(e) && e@ == merge_key_error(key@)),
{
    let v = chars_of(key);
    let mut ok = v.len() > 0 && 'A' <= v[0] && v[0] <= 'Z';
    let mut i: usize = 0;
    while i < v.len()
        invariant
            i <= v@.len(),
            v@ == key@,
            ok == (v@.len() > 0 && is_ascii_upper(v@[0]) && forall|j: int|
                0 <= j < i ==> is_merge_key_char(#[trigger] v@[j])),
        decreases v@.len() - i,
    {
        let c = v[i];
        if !(('A' <= c && c <= 'Z') || ('0' <= c && c <= '9') || c == '_') {
            ok = false;
        }
        i = i + 1;
    }
    let sensitive = contains_str(key, "TOKEN") || contains_str(key, "SECRET") || contains_str(
        key,
        "KEY",
    ) || contains_str(key, "URL") || ends_with(key, "_ENV") || starts_with(key, "MCP_");
    if ok && sensitive {
        Ok(())
    } else {
        let mut m = string_from("env merge key `");
        push_str(&mut m, key);
        push_str(&mut m, "` must be an uppercase token/secret/key/url/runtime env reference");
        Err(ConfigError::InvalidConfig(m))
    }
}

// ---------------------------------------------------------------------------
// The values to merge.
/// The value of the last pair for `k`.
pub open spec fn pairs_last(ps: Seq<(String, String)>, k: Seq<char>) -> Option<Seq<char>>
    decreases ps.len(),
{
    if ps.len() == 0 {
        None
    } else if ps.last().0@ == k {
        Some(ps.last().1@)
    } else {
        pairs_last(ps.drop_last(), k)
    }
}

/// Values to merge into a `.env` file, one per key, in key order.
#[derive(Debug)]
pub struct EnvMerge {
    values: Vec<(String, String)>,
}

impl EnvMerge {
    #[verifier::type_invariant]
    spec fn inv(self) -> bool {
        keys_sorted(self.values@)
    }

    /// The pairs, in ascending key order.
    pub closed spec fn entries(self) -> Seq<(String, String)> {
        self.values@
    }

    /// The values to merge; a key given twice keeps its last value.
    pub fn new(values: Vec<(String, String)>) -> (r: EnvMerge)
        ensures
            keys_sorted(r.entries()),
            forall|k: Seq<char>| #[trigger]
                opt_string_view(sm_get(r.entries(), k)) == pairs_last(values@, k),
    {
        let mut out: Vec<(String, String)> = Vec::new();
        let mut i: usize = 0;
        while i < values.len()
            invariant
                i <= values@.len(),
                keys_sorted(out@),
                forall|k: Seq<char>| #[trigger]
                    opt_string_view(sm_get(out@, k)) == pairs_last(values@.take(i as int), k),
            decreases values@.len() - i,
        {
            let key = values[i].0.clone();
            let value = values[i].1.clone();
            let ghost t = values@.take(i + 1);
            assert(t.drop_last() =~= values@.take(i as int));
            assert(t.last() == values@[i as int]);
            sm_insert(&mut out, key, value);
            i = i + 1;
        }
        assert(values@.take(values@.len() as int) =~= values@);
        EnvMerge { values: out }
    }
}

// ---------------------------------------------------------------------------
// Reading the existing file.
pub open spec fn merge_unquote(v: Seq<char>) -> Seq<char> {
    if v.len() >= 2 && v[0] == '"' && v.last() == '"' {
        v.subrange(1, v.len() - 1)
    } else {
        v
    }
}

/// The key and value a line holds: blank lines, comments and lines without
/// `=` hold none; else the trimmed text before the first `=` is the key and
/// the trimmed text after it, less surrounding double quotes, the value.
pub open spec fn merge_parse_line(l: Seq<char>) -> Option<(Seq<char>, Seq<char>)> {
    let t = trim(l);
    if t.len() == 0 || t[0] == '#' {
        None
    } else {
        let i = find_char_from(t, '=', 0);
        if i >= t.len() {
            None
        } else {
            Some((trim(t.subrange(0, i)), merge_unquote(trim(t.subrange(i + 1, t.len() as int)))))
        }
    }
}

/// The value the last line for `k` holds.
pub open spec fn parsed_last(ls: Seq<Seq<char>>, k: Seq<char>) -> Option<Seq<char>>
    decreases ls.len(),
{
    if ls.len() == 0 {
        None
    } else {
        match merge_parse_line(ls.last()) {
            Some(kv) => if kv.0 == k {
                Some(kv.1)
            } else {
                parsed_last(ls.drop_last(), k)
            },
            None => parsed_last(ls.drop_last(), k),
        }
    }
}

fn merge_parse_line_chars(lv: &Vec<char>) -> (r: Option<(String, String)>)
    ensures
        match r {
            Some(kv) => merge_parse_line(lv@) == Some((kv.0@, kv.1@)),
            None => merge_parse_line(lv@) is None,
        },
{
    let n = lv.len();
    let (a, b) = trim_bounds(lv, 0, n);
    assert(lv@.subrange(0, n as int) =~= lv@);
    if a == b || lv[a] == '#' {
        return None;
    }
    let ts = string_of_range(lv, a, b);
    let tv = chars_of(ts.as_str());
    let i = find_char(&tv, '=', 0);
    if i >= tv.len() {
        return None;
    }
    let (ka, kb) = trim_bounds(&tv, 0, i);
    let key = string_of_range(&tv, ka, kb);
    let (va, vb) = trim_bounds(&tv, i + 1, tv.len());
    if vb - va >= 2 && tv[va] == '"' && tv[vb - 1] == '"' {
        let value = string_of_range(&tv, va + 1, vb - 1);
        assert(tv@.subrange(va as int, vb as int).subrange(1, (vb - va) - 1) =~= tv@.subrange(
            va + 1,
            vb - 1,
        ));
        Some((key, value))
    } else {
        let value = string_of_range(&tv, va, vb);
        Some((key, value))
    }
}

/// The values of an existing file's text, one per key (the last line for a
/// key wins), in key order.
fn parse_merge_map(raw: &str) -> (r: Vec<(String, String)>)
    ensures
        keys_sorted(r@),
        forall|k: Seq<char>| #[trigger] opt_string_view(sm_get(r@, k)) == parsed_last(lines(raw@), k),
{
    let ls = split_lines(raw);
    let ghost src = ls@.map_values(|l: Vec<char>| l@);
    let mut out: Vec<(String, String)> = Vec::new();
    let mut i: usize = 0;
    while i < ls.len()
        invariant
            i <= ls@.len(),
            src == ls@.map_values(|l: Vec<char>| l@),
            src == lines(raw@),
            keys_sorted(out@),
            forall|k: Seq<char>| #[trigger]
                opt_string_view(sm_get(out@, k)) == parsed_last(src.take(i as int), k),
        decreases ls@.len() - i,
    {
        let ghost t = src.take(i + 1);
        assert(t.drop_last() =~= src.take(i as int));
        assert(t.last() == ls@[i as int]@);
        match merge_parse_line_chars(&ls[i]) {
            Some(kv) => {
                sm_insert(&mut out, kv.0, kv.1);
            },
            None => {},
        }
        i = i + 1;
    }
    assert(src.take(ls@.len() as int) =~= src);
    out
}

// ---------------------------------------------------------------------------
// Merging.
#[derive(Clone, Debug, PartialEq, Eq)]
pub struct EnvMergeResult {
    pub inserted: Vec<String>,
    pub unchanged: Vec<String>,
    pub backup_written: bool,
}

/// The outcome of a merge, and the text to write, if any; when the file
/// existed, its old text goes to the backup file first.
#[derive(Clone, Debug, PartialEq, Eq)]
pub struct EnvMergePlan {
    pub result: EnvMergeResult,
    pub content: Option<String>,
}

/// The first key, in key order, that may not be merged.
pub open spec fn first_invalid_merge_key(ps: Seq<(String, String)>) -> Option<Seq<char>>
    decreases ps.len(),
{
    if ps.len() == 0 {
        None
    } else {
        match first_invalid_merge_key(ps.drop_last()) {
            Some(k) => Some(k),
            None => if valid_merge_key(ps.last().0@) {
                None
            } else {
                Some(ps.last().0@)
            },
        }
    }
}

/// Merging `ps` into a file whose lines are `ls`, key by key: a key the file
/// already holds with the same value is unchanged, one it holds with another
/// value is a conflict that stops the merge, any other key is inserted.
pub open spec fn merge_outcome(ls: Seq<Seq<char>>, ps: Seq<(String, String)>) -> Result<
    (Seq<Seq<char>>, Seq<Seq<char>>),
    Seq<char>,
>
    decreases ps.len(),
{
    if ps.len() == 0 {
        Ok((Seq::empty(), Seq::empty()))
    } else {
        match merge_outcome(ls, ps.drop_last()) {
            Err(k) => Err(k),
            Ok(acc) => {
                let k = ps.last().0@;
                match parsed_last(ls, k) {
                    Some(x) => if x == ps.last().1@ {
                        Ok((acc.0, acc.1.push(k)))
                    } else {
                        Err(k)
                    },
                    None => Ok((acc.0.push(k), acc.1)),
                }
            },
        }
    }
}

/// The value a key has once merged: the file's value, else the merged one.
pub open spec fn merged_value(ls: Seq<Seq<char>>, ps: Seq<(String, String)>, k: Seq<char>) -> Option<
    Seq<char>,
> {
    match parsed_last(ls, k) {
        Some(x) => Some(x),
        None => opt_string_view(sm_get(ps, k)),
    }
}

pub open spec fn merge_line(e: (String, String)) -> Seq<char> {
    e.0@ + seq!['='] + merge_quote(e.1@)
}

/// The text of a merged file: one `KEY=value` line per pair.
pub open spec fn render_merge(ps: Seq<(String, String)>) -> Seq<char>
    decreases ps.len(),
{
    if ps.len() == 0 {
        Seq::empty()
    } else {
        merge_line(ps[0]) + seq!['\n'] + render_merge(ps.drop_first())
    }
}

proof fn lemma_render_merge_push(ps: Seq<(String, String)>, e: (String, String))
    ensures
        render_merge(ps.push(e)) == render_merge(ps) + merge_line(e) + seq!['\n'],
    decreases ps.len(),
{
    if ps.len() == 0 {
        assert(ps.push(e).drop_first() =~= Seq::<(String, String)>::empty());
        assert(render_merge(ps.push(e).drop_first()) == Seq::<char>::empty());
        assert(ps.push(e)[0] == e);
        assert(render_merge(ps.push(e)) =~= merge_line(e) + seq!['\n']);
    } else {
        assert(ps.push(e).drop_first() =~= ps.drop_first().push(e));
        lemma_render_merge_push(ps.drop_first(), e);
        assert(ps.push(e)[0] == ps[0]);
        assert(render_merge(ps.push(e)) =~= render_merge(ps) + merge_line(e) + seq!['\n']);
    }
}

fn render_merge_map(ps: &Vec<(String, String)>) -> (r: String)
    ensures
        r@ == render_merge(ps@),
        forall|i: int| 0 <= i < ps@.len() ==> merge_quote_ok(#[trigger] ps@[i].1@),
{
    let mut out = String::new();
    let mut i: usize = 0;
    while i < ps.len()
        invariant
            i <= ps@.len(),
            out@ == render_merge(ps@.take(i as int)),
            forall|j: int| 0 <= j < i ==> merge_quote_ok(#[trigger] ps@[j].1@),
        decreases ps@.len() - i,
    {
        push_str(&mut out, ps[i].0.as_str());
        push_char(&mut out, '=');
        let q = merge_quote_value(ps[i].1.as_str());
        push_str(&mut out, q.as_str());
        push_char(&mut out, '\n');
        proof {
            assert(ps@.take(i + 1) =~= ps@.take(i as int).push(ps@[i as int]));
            lemma_render_merge_push(ps@.take(i as int), ps@[i as int]);
            assert(out@ =~= render_merge(ps@.take(i + 1)));
        }
        i = i + 1;
    }
    assert(ps@.take(ps@.len() as int) =~= ps@);
    out
}

proof fn lemma_first_invalid_prefix(ps: Seq<(String, String)>, i: int)
    requires
        0 <= i <= ps.len(),
        first_invalid_merge_key(ps.take(i)) is Some,
    ensures
        first_invalid_merge_key(ps) == first_invalid_merge_key(ps.take(i)),
    decreases ps.len() - i,
{
    if i < ps.len() {
        let t = ps.take(i + 1);
        assert(t.drop_last() =~= ps.take(i));
        lemma_first_invalid_prefix(ps, i + 1);
    } else {
        assert(ps.take(i) =~= ps);
    }
}

proof fn lemma_outcome_prefix(ls: Seq<Seq<char>>, ps: Seq<(String, String)>, i: int)
    requires
        0 <= i <= ps.len(),
        merge_outcome(ls, ps.take(i)) is Err,
    ensures
        merge_outcome(ls, ps) == merge_outcome(ls, ps.take(i)),
    decreases ps.len() - i,
{
    if i < ps.len() {
        let t = ps.take(i + 1);
        assert(t.drop_last() =~= ps.take(i));
        lemma_outcome_prefix(ls, ps, i + 1);
    } else {
        assert(ps.take(i) =~= ps);
    }
}

/// Merges `merge` into the file's text. Keys are checked first, in key order;
/// then each key is unchanged, inserted, or a conflict that stops the merge.
/// Nothing is written when no key was inserted.
pub fn merge_env_file(existing: Option<&str>, merge: &EnvMerge) -> (r: Result<
    EnvMergePlan,
    ConfigError,
>)
    ensures
        ({
            let ls = lines(env_text(opt_text(existing)));
            let ps = merge.entries();
            match first_invalid_merge_key(ps) {
                Some(k) => r matches Err(e) && e@ == merge_key_error(k),
                None => match merge_outcome(ls, ps) {
                    Err(k) => r matches Err(e) && e@ == ConfigFault::EnvConflict(k),
                    Ok(acc) => r matches Ok(plan) && strings_view(plan.result.inserted@) == acc.0
                        && strings_view(plan.result.unchanged@) == acc.1 && if acc.0.len() == 0 {
                        plan.content is None && !plan.result.backup_written
                    } else {
                        &&& plan.result.backup_written == existing is Some
                        &&& exists|f: Seq<(String, String)>|
                            {
                                &&& keys_sorted(f)
                                &&& forall|k: Seq<char>| #[trigger]
                                    opt_string_view(sm_get(f, k)) == merged_value(ls, ps, k)
                                &&& opt_string_view(plan.content) == Some(render_merge(f))
                                &&& forall|i: int| 0 <= i < f.len() ==> merge_quote_ok(#[trigger] f[i].1@)
                            }
                    },
                },
            }
        }),
{
    proof {
        use_type_invariant(merge);
    }
    let ghost ps = merge.values@;
    let mut i: usize = 0;
    while i < merge.values.len()
        invariant
            i <= ps.len(),
            ps == merge.values@,
            first_invalid_merge_key(ps.take(i as int)) is None,
        decreases ps.len() - i,
    {
        let ghost t = ps.take(i + 1);
        assert(t.drop_last() =~= ps.take(i as int));
        assert(t.last() == ps[i as int]);
        match validate_env_key_for_merge(merge.values[i].0.as_str()) {
            Err(e) => {
                proof {
                    lemma_first_invalid_prefix(ps, i + 1);
                }
                return Err(e);
            },
            Ok(()) => {},
        }
        i = i + 1;
    }
    assert(ps.take(ps.len() as int) =~= ps);
    let text = match existing {
        Some(t) => t,
        None => {
            proof {
                reveal_strlit("");
            }
            ""
        },
    };
    let ghost ls = lines(text@);
    let mut parsed = parse_merge_map(text);
    let mut inserted: Vec<String> = Vec::new();
    let mut unchanged: Vec<String> = Vec::new();
    let mut j: usize = 0;
    assert(ps.take(0) =~= Seq::<(String, String)>::empty());
    assert(strings_view(inserted@) =~= Seq::<Seq<char>>::empty());
    assert(strings_view(unchanged@) =~= Seq::<Seq<char>>::empty());
    assert forall|k: Seq<char>| #[trigger]
        opt_string_view(sm_get(parsed@, k)) == match parsed_last(ls, k) {
            Some(x) => Some(x),
            None => if sm_index(ps, k) < 0 {
                Some(ps[sm_index(ps, k)].1@)
            } else {
                None
            },
        } by {
        lemma_sm_index(ps, k);
    }
    while j < merge.values.len()
        invariant
            j <= ps.len(),
            ps == merge.values@,
            keys_sorted(ps),
            ls == lines(text@),
            text@ == env_text(opt_text(existing)),
            first_invalid_merge_key(ps) is None,
            ps == merge.entries(),
            keys_sorted(parsed@),
            forall|k: Seq<char>| #[trigger]
                opt_string_view(sm_get(parsed@, k)) == match parsed_last(ls, k) {
                    Some(x) => Some(x),
                    None => if sm_index(ps, k) < j {
                        Some(ps[sm_index(ps, k)].1@)
                    } else {
                        None
                    },
                },
            merge_outcome(ls, ps.take(j as int)) == Ok::<
                (Seq<Seq<char>>, Seq<Seq<char>>),
                Seq<char>,
            >((strings_view(inserted@), strings_view(unchanged@))),
        decreases ps.len() - j,
    {
        let ghost t = ps.take(j + 1);
        let ghost kj = ps[j as int].0@;
        assert(t.drop_last() =~= ps.take(j as int));
        assert(t.last() == ps[j as int]);
        proof {
            lemma_sm_get_at(ps, j as int);
            lemma_sm_index(ps, kj);
            if sm_index(ps, kj) < j {
                lemma_key_unique(ps, sm_index(ps, kj), j as int);
            }
            assert(sm_index(ps, kj) == j);
        }
        let key = &merge.values[j].0;
        let value = &merge.values[j].1;
        match sm_find(&parsed, key.as_str()) {
            Some(p) => {
                assert(opt_string_view(sm_get(parsed@, kj)) == Some(parsed@[p as int].1@));
                if str_eq(parsed[p].1.as_str(), value.as_str()) {
                    let ghost old_u = unchanged@;
                    unchanged.push(key.clone());
                    assert(strings_view(unchanged@) =~= strings_view(old_u).push(kj));
                } else {
                    proof {
                        lemma_outcome_prefix(ls, ps, j + 1);
                    }
                    return Err(ConfigError::EnvConflict(key.clone()));
                }
            },
            None => {
                let ghost old_p = parsed@;
                sm_insert(&mut parsed, key.clone(), value.clone());
                let ghost old_i = inserted@;
                inserted.push(key.clone());
                assert(strings_view(inserted@) =~= strings_view(old_i).push(kj));
                proof {
                    assert forall|k: Seq<char>| #[trigger]
                        opt_string_view(sm_get(parsed@, k)) == match parsed_last(ls, k) {
                            Some(x) => Some(x),
                            None => if sm_index(ps, k) < j + 1 {
                                Some(ps[sm_index(ps, k)].1@)
                            } else {
                                None
                            },
                        } by {
                        lemma_sm_index(ps, k);
                        if k != kj && sm_index(ps, k) == j {
                            assert(ps[j as int].0@ == k);
                        }
                        assert(opt_string_view(sm_get(old_p, k)) == match parsed_last(ls, k) {
                            Some(x) => Some(x),
                            None => if sm_index(ps, k) < j {
                                Some(ps[sm_index(ps, k)].1@)
                            } else {
                                None
                            },
                        });
                    }
                }
            },
        }
        proof {
            assert forall|k: Seq<char>| #[trigger]
                opt_string_view(sm_get(parsed@, k)) == match parsed_last(ls, k) {
                    Some(x) => Some(x),
                    None => if sm_index(ps, k) < j + 1 {
                        Some(ps[sm_index(ps, k)].1@)
                    } else {
                        None
                    },
                } by {
                lemma_sm_index(ps, k);
                if k != kj && sm_index(ps, k) == j {
                    assert(ps[j as int].0@ == k);
                }
            }
        }
        j = j + 1;
    }
    assert(ps.take(ps.len() as int) =~= ps);
    proof {
        assert forall|k: Seq<char>| #[trigger]
            opt_string_view(sm_get(parsed@, k)) == merged_value(ls, ps, k) by {
            lemma_sm_index(ps, k);
            if sm_index(ps, k) < ps.len() {
                lemma_sm_get_at(ps, sm_index(ps, k));
            }
        }
    }
    let backup = existing.is_some();
    if inserted.len() == 0 {
        Ok(
            EnvMergePlan {
                result: EnvMergeResult { inserted, unchanged, backup_written: false },
                content: None,
            },
        )
    } else {
        let content = render_merge_map(&parsed);
        Ok(
            EnvMergePlan {
                result: EnvMergeResult { inserted, unchanged, backup_written: backup },
                content: Some(content),
            },
        )
    }
}

// ---------------------------------------------------------------------------
// Merging twice.
pub open spec fn parsed_key(l: Seq<char>) -> Seq<char> {
    match merge_parse_line(l) {
        Some(kv) => kv.0,
        None => Seq::empty(),
    }
}

pub open spec fn parsed_value(l: Seq<char>) -> Seq<char> {
    match merge_parse_line(l) {
        Some(kv) => kv.1,
        None => Seq::empty(),
    }
}

/// A key that reads back as itself from a written `KEY=value` line.
pub open spec fn merge_key_ok(k: Seq<char>) -> bool {
    trim(k) == k && !k.contains('=') && !k.contains('\n') && (k.len() == 0 || k[0] != '#')
}

proof fn lemma_parsed_line_key_ok(l: Seq<char>)
    requires
        !l.contains('\n'),
        merge_parse_line(l) is Some,
    ensures
        merge_key_ok(parsed_key(l)),
{
    lemma_line_ok(l);
    let t = trim(l);
    let i = find_char_from(t, '=', 0);
    assert(parse_env_line(l) == EnvLineView::Entry(
        trim(t.subrange(0, i)),
        crate::env_file::unquote_env(trim(t.subrange(i + 1, t.len() as int))),
    ));
}

proof fn lemma_parsed_last_key_ok(ls: Seq<Seq<char>>, k: Seq<char>)
    requires
        forall|j: int| 0 <= j < ls.len() ==> !(#[trigger] ls[j]).contains('\n'),
        parsed_last(ls, k) is Some,
    ensures
        merge_key_ok(k),
    decreases ls.len(),
{
    let l = ls.last();
    assert(!ls[ls.len() - 1].contains('\n'));
    match merge_parse_line(l) {
        Some(kv) => {
            if kv.0 == k {
                lemma_parsed_line_key_ok(l);
            } else {
                assert forall|j: int| 0 <= j < ls.drop_last().len() implies !(
                #[trigger] ls.drop_last()[j]).contains('\n') by {
                    assert(ls.drop_last()[j] == ls[j]);
                }
                lemma_parsed_last_key_ok(ls.drop_last(), k);
            }
        },
        None => {
            assert forall|j: int| 0 <= j < ls.drop_last().len() implies !(
            #[trigger] ls.drop_last()[j]).contains('\n') by {
                assert(ls.drop_last()[j] == ls[j]);
            }
            lemma_parsed_last_key_ok(ls.drop_last(), k);
        },
    }
}

proof fn lemma_valid_merge_key_ok(k: Seq<char>)
    requires
        valid_merge_key(k),
    ensures
        merge_key_ok(k),
{
    assert(is_merge_key_char(k[0]));
    assert(is_merge_key_char(k[k.len() - 1]));
    lemma_trim_fixed(k);
    if k.contains('=') {
        let j = choose|j: int| 0 <= j < k.len() && k[j] == '=';
        assert(is_merge_key_char(k[j]));
    }
    if k.contains('\n') {
        let j = choose|j: int| 0 <= j < k.len() && k[j] == '\n';
        assert(is_merge_key_char(k[j]));
    }
}

proof fn lemma_merge_line(e: (String, String))
    requires
        merge_key_ok(e.0@),
        merge_quote_ok(e.1@),
    ensures
        !merge_line(e).contains('\n'),
        strip_cr(merge_line(e)) == merge_line(e),
        merge_parse_line(merge_line(e)) is Some,
        parsed_key(merge_line(e)) == e.0@,
        all_plain(e.1@) || all_debug_verbatim(e.1@) ==> parsed_value(merge_line(e))
            == e.1@,
{
    let k = e.0@;
    let v = e.1@;
    let q = merge_quote(v);
    let line = k + seq!['='] + q;
    lemma_trim_idem(k);
    if line.contains('\n') {
        let j = choose|j: int| 0 <= j < line.len() && line[j] == '\n';
        if j < k.len() {
            assert(line[j] == k[j]);
            assert(k.contains('\n'));
        } else if j > k.len() {
            assert(line[j] == q[j - k.len() - 1]);
            assert(q.contains('\n'));
        }
    }
    assert(line.last() != '\r') by {
        if q.len() > 0 {
            assert(line.last() == q.last());
        }
    }
    assert(!is_ws(line[0])) by {
        if k.len() > 0 {
            assert(line[0] == k[0]);
        }
    }
    assert(!is_ws(line.last())) by {
        if q.len() > 0 {
            assert(line.last() == q.last());
        }
    }
    lemma_trim_fixed(line);
    assert(line[0] != '#') by {
        if k.len() > 0 {
            assert(line[0] == k[0]);
        }
    }
    assert(line =~= k + (seq!['='] + q));
    lemma_find_after_prefix(k, '=', q);
    assert(line.subrange(0, k.len() as int) =~= k);
    assert(line.subrange(k.len() + 1int, line.len() as int) =~= q);
    lemma_trim_fixed(q);
    if all_plain(v) {
        if v.len() >= 2 && v[0] == '"' {
            assert(is_plain_env_char(v[0]));
        }
    } else if all_debug_verbatim(v) {
        assert(q.subrange(1, q.len() - 1) =~= v);
    }
}

proof fn lemma_lines_render_merge(f: Seq<(String, String)>)
    requires
        forall|i: int| 0 <= i < f.len() ==> !merge_line(#[trigger] f[i]).contains('\n') && strip_cr(
            merge_line(f[i]),
        ) == merge_line(f[i]),
    ensures
        lines(render_merge(f)) == f.map_values(|e: (String, String)| merge_line(e)),
    decreases f.len(),
{
    if f.len() == 0 {
        assert(f.map_values(|e: (String, String)| merge_line(e)) =~= Seq::<Seq<char>>::empty());
    } else {
        let rest = f.drop_first();
        assert forall|i: int| 0 <= i < rest.len() implies !merge_line(#[trigger] rest[i]).contains(
            '\n',
        ) && strip_cr(merge_line(rest[i])) == merge_line(rest[i]) by {
            assert(rest[i] == f[i + 1]);
        }
        lemma_lines_render_merge(rest);
        assert(!merge_line(f[0]).contains('\n'));
        lemma_lines_cons(merge_line(f[0]), render_merge(rest));
        assert(f.map_values(|e: (String, String)| merge_line(e)) =~= seq![merge_line(f[0])]
            + rest.map_values(|e: (String, String)| merge_line(e)));
    }
}

proof fn lemma_parsed_last_unique(f: Seq<(String, String)>, k: Seq<char>, j0: int)
    requires
        keys_sorted(f),
        0 <= j0 < f.len(),
        f[j0].0@ == k,
        forall|i: int| 0 <= i < f.len() ==> (#[trigger] merge_parse_line(merge_line(f[i]))) is Some
            && parsed_key(merge_line(f[i])) == f[i].0@,
    ensures
        parsed_last(f.map_values(|e: (String, String)| merge_line(e)), k) == Some(
            parsed_value(merge_line(f[j0])),
        ),
    decreases f.len(),
{
    let ls = f.map_values(|e: (String, String)| merge_line(e));
    let n = f.len() - 1;
    assert(ls.last() == merge_line(f[n]));
    assert(merge_parse_line(merge_line(f[n])) is Some);
    if j0 < n {
        assert(f[n].0@ != k) by {
            if f[n].0@ == k {
                lemma_key_unique(f, j0, n);
            }
        }
        let d = f.drop_last();
        assert(ls.drop_last() =~= d.map_values(|e: (String, String)| merge_line(e)));
        assert forall|i: int, j: int| 0 <= i < j < d.len() implies crate::text::str_less(
            #[trigger] d[i].0@,
            #[trigger] d[j].0@,
        ) by {
            assert(d[i] == f[i] && d[j] == f[j]);
        }
        assert forall|i: int| 0 <= i < d.len() implies (#[trigger] merge_parse_line(
            merge_line(d[i]),
        )) is Some && parsed_key(merge_line(d[i])) == d[i].0@ by {
            assert(d[i] == f[i]);
        }
        lemma_parsed_last_unique(d, k, j0);
    }
}

proof fn lemma_outcome_ok_values(ls: Seq<Seq<char>>, ps: Seq<(String, String)>)
    requires
        merge_outcome(ls, ps) is Ok,
    ensures
        forall|i: int|
            0 <= i < ps.len() ==> parsed_last(ls, (#[trigger] ps[i]).0@) is None || parsed_last(
                ls,
                ps[i].0@,
            ) == Some(ps[i].1@),
    decreases ps.len(),
{
    if ps.len() > 0 {
        lemma_outcome_ok_values(ls, ps.drop_last());
        assert forall|i: int|
            0 <= i < ps.len() implies parsed_last(ls, (#[trigger] ps[i]).0@) is None || parsed_last(
            ls,
            ps[i].0@,
        ) == Some(ps[i].1@) by {
            if i < ps.len() - 1 {
                assert(ps[i] == ps.drop_last()[i]);
            }
        }
    }
}

proof fn lemma_outcome_all_unchanged(ls: Seq<Seq<char>>, ps: Seq<(String, String)>)
    requires
        forall|i: int| 0 <= i < ps.len() ==> parsed_last(ls, (#[trigger] ps[i]).0@) == Some(ps[i].1@),
    ensures
        merge_outcome(ls, ps) == Ok::<(Seq<Seq<char>>, Seq<Seq<char>>), Seq<char>>(
            (Seq::empty(), ps.map_values(|e: (String, String)| e.0@)),
        ),
    decreases ps.len(),
{
    if ps.len() == 0 {
        assert(ps.map_values(|e: (String, String)| e.0@) =~= Seq::<Seq<char>>::empty());
    } else {
        let d = ps.drop_last();
        assert forall|i: int| 0 <= i < d.len() implies parsed_last(ls, (#[trigger] d[i]).0@) == Some(
            d[i].1@,
        ) by {
            assert(d[i] == ps[i]);
        }
        lemma_outcome_all_unchanged(ls, d);
        assert(parsed_last(ls, ps[ps.len() - 1].0@) == Some(ps[ps.len() - 1].1@));
        assert(ps.map_values(|e: (String, String)| e.0@) =~= d.map_values(
            |e: (String, String)| e.0@,
        ).push(ps.last().0@));
    }
}

proof fn lemma_first_invalid_none(ps: Seq<(String, String)>)
    requires
        first_invalid_merge_key(ps) is None,
    ensures
        forall|i: int| 0 <= i < ps.len() ==> valid_merge_key((#[trigger] ps[i]).0@),
    decreases ps.len(),
{
    if ps.len() > 0 {
        lemma_first_invalid_none(ps.drop_last());
        assert forall|i: int| 0 <= i < ps.len() implies valid_merge_key((#[trigger] ps[i]).0@) by {
            if i < ps.len() - 1 {
                assert(ps[i] == ps.drop_last()[i]);
            }
        }
    }
}

/// Merging the same values again into a merged file inserts nothing and
/// finds every key unchanged. `f` is the merged map a successful merge
/// writes (as `merge_env_file` states); the values merged are printable
/// ASCII without quotes or backslashes, which the file holds as they are.
pub proof fn law_env_merge_idempotent(
    existing: Seq<char>,
    ps: Seq<(String, String)>,
    f: Seq<(String, String)>,
)
    requires
        keys_sorted(ps),
        first_invalid_merge_key(ps) is None,
        merge_outcome(lines(existing), ps) is Ok,
        forall|i: int| 0 <= i < ps.len() ==> all_debug_verbatim((#[trigger] ps[i]).1@),
        keys_sorted(f),
        forall|k: Seq<char>| #[trigger]
            opt_string_view(sm_get(f, k)) == merged_value(lines(existing), ps, k),
        forall|i: int| 0 <= i < f.len() ==> merge_quote_ok(#[trigger] f[i].1@),
    ensures
        merge_outcome(lines(render_merge(f)), ps) == Ok::<
            (Seq<Seq<char>>, Seq<Seq<char>>),
            Seq<char>,
        >((Seq::empty(), ps.map_values(|e: (String, String)| e.0@))),
{
    let ls = lines(existing);
    lemma_lines_no_newline(existing);
    lemma_first_invalid_none(ps);
    lemma_outcome_ok_values(ls, ps);
    assert forall|i: int| 0 <= i < f.len() implies merge_key_ok((#[trigger] f[i]).0@) by {
        let k = f[i].0@;
        lemma_sm_get_at(f, i);
        assert(opt_string_view(sm_get(f, k)) == Some(f[i].1@));
        if parsed_last(ls, k) is Some {
            lemma_parsed_last_key_ok(ls, k);
        } else {
            lemma_sm_index(ps, k);
            let x = sm_index(ps, k);
            lemma_sm_get_at(ps, x);
            lemma_valid_merge_key_ok(ps[x].0@);
        }
    }
    assert forall|i: int| 0 <= i < f.len() implies !merge_line(#[trigger] f[i]).contains('\n')
        && strip_cr(merge_line(f[i])) == merge_line(f[i]) by {
        lemma_merge_line(f[i]);
    }
    assert forall|i: int| 0 <= i < f.len() implies (#[trigger] merge_parse_line(
        merge_line(f[i]),
    )) is Some && parsed_key(merge_line(f[i])) == f[i].0@ by {
        lemma_merge_line(f[i]);
    }
    lemma_lines_render_merge(f);
    let l2 = lines(render_merge(f));
    assert forall|i: int| 0 <= i < ps.len() implies parsed_last(l2, (#[trigger] ps[i]).0@) == Some(
        ps[i].1@,
    ) by {
        let k = ps[i].0@;
        lemma_sm_get_at(ps, i);
        assert(opt_string_view(sm_get(f, k)) == Some(ps[i].1@));
        lemma_sm_index(f, k);
        let j0 = sm_index(f, k);
        lemma_sm_get_at(f, j0);
        lemma_parsed_last_unique(f, k, j0);
        lemma_merge_line(f[j0]);
    }
    lemma_outcome_all_unchanged(l2, ps);
}


/// A key may be merged exactly when it matches `^[A-Z][A-Z0-9_]*$` and
/// contains `TOKEN`, `SECRET`, `KEY` or `URL`, ends in `_ENV` or starts
/// with `MCP_`.
pub proof fn law_merge_key_shape(k: Seq<char>)
    ensures
        valid_merge_key(k) <==> {
            &&& k.len() > 0
            &&& 'A' <= k[0] && k[0] <= 'Z'
            &&& forall|i: int|
                0 <= i < k.len() ==> ({
                    let c = #[trigger] k[i];
                    ('A' <= c && c <= 'Z') || ('0' <= c && c <= '9') || c == '_'
                })
            &&& (has_infix(k, "TOKEN"@) || has_infix(k, "SECRET"@) || has_infix(k, "KEY"@)
                || has_infix(k, "URL"@) || has_suffix(k, "_ENV"@) || has_prefix(k, "MCP_"@))
        },
{
}

} // verus!
