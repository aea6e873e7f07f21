//! Editing `.env` files: a file is a sequence of lines, each either kept as it
//! is or read as a `KEY=value` entry; values are quoted and escaped when they
//! hold anything beyond a safe character set.
use vstd::prelude::*;
use crate::config_error::{ConfigError, ConfigFault};
use crate::text::{
    ascii_alnum, chars_of, find_char, find_char_from, is_ascii_alnum, is_ws, lemma_find_after_prefix,
    lemma_find_char_from_bounds, lemma_lines_cons, lemma_lines_no_newline, lemma_trim_fixed,
    lemma_trim_idem, lemma_trim_shape, lemma_trim_strip_cr, lines, push_char, push_str,
    split_lines, str_eq, str_less, string_from, string_less, string_of, string_of_range, strip_cr,
    trim, trim_bounds, lemma_str_less_trans, lemma_str_less_total,
};

verus! {

// ---------------------------------------------------------------------------
// Quoting of values.
/// Characters that a value may hold without quotes.
pub open spec fn is_plain_env_char(c: char) -> bool {
    is_ascii_alnum(c) || c == '_' || c == '-' || c == '.' || c == '/' || c == ':'
}

pub open spec fn all_plain(v: Seq<char>) -> bool {
    forall|i: int| 0 <= i < v.len() ==> is_plain_env_char(#[trigger] v[i])
}

/// The escape of one character inside double quotes.
pub open spec fn escape_env_char(c: char) -> Seq<char> {
    if c == '\\' {
        seq!['\\', '\\']
    } else if c == '"' {
        seq!['\\', '"']
    } else if c == '\n' {
        seq!['\\', 'n']
    } else if c == '\r' {
        seq!['\\', 'r']
    } else if c == '\t' {
        seq!['\\', 't']
    } else {
        seq![c]
    }
}

pub open spec fn escape_env(v: Seq<char>) -> Seq<char>
    decreases v.len(),
{
    if v.len() == 0 {
        Seq::empty()
    } else {
        escape_env(v.drop_last()) + escape_env_char(v.last())
    }
}

/// How a value is written after `KEY=`: as it is when every character is
/// plain, else in double quotes with `\`, `"`, newline, carriage return and
/// tab escaped.
pub open spec fn quote_env(v: Seq<char>) -> Seq<char> {
    if all_plain(v) {
        v
    } else {
        seq!['"'] + escape_env(v) + seq!['"']
    }
}

/// The character an escape `\c` stands for.
pub open spec fn unescape_env_char(c: char) -> char {
    if c == 'n' {
        '\n'
    } else if c == 'r' {
        '\r'
    } else if c == 't' {
        '\t'
    } else {
        c
    }
}

/// Reads escapes from left to right; a lone trailing `\` stays itself.
pub open spec fn unescape_env(s: Seq<char>) -> Seq<char>
    decreases s.len(),
{
    if s.len() == 0 {
        Seq::empty()
    } else if s[0] != '\\' {
        seq![s[0]] + unescape_env(s.drop_first())
    } else if s.len() == 1 {
        seq!['\\']
    } else {
        seq![unescape_env_char(s[1])] + unescape_env(s.subrange(2, s.len() as int))
    }
}

/// A value as read from the file: the inside of surrounding double quotes
/// with escapes resolved, else the text as it is.
pub open spec fn unquote_env(v: Seq<char>) -> Seq<char> {
    if v.len() >= 2 && v[0] == '"' && v.last() == '"' {
        unescape_env(v.subrange(1, v.len() - 1))
    } else {
        v
    }
}

proof fn lemma_escape_front(v: Seq<char>)
    requires
        v.len() > 0,
    ensures
        escape_env(v) == escape_env_char(v[0]) + escape_env(v.drop_first()),
    decreases v.len(),
{
    if v.len() == 1 {
        assert(v.drop_last() =~= Seq::<char>::empty());
        assert(v.drop_first() =~= Seq::<char>::empty());
        assert(escape_env(v.drop_last()) =~= Seq::<char>::empty());
        assert(escape_env(v) =~= escape_env_char(v[0]));
    } else {
        lemma_escape_front(v.drop_last());
        assert(v.drop_last().drop_first() =~= v.drop_first().drop_last());
        assert(v.drop_first().last() == v.last());
        assert(escape_env(v) =~= escape_env_char(v[0]) + escape_env(v.drop_first()));
    }
}

proof fn lemma_unescape_escape(v: Seq<char>)
    ensures
        unescape_env(escape_env(v)) == v,
    decreases v.len(),
{
    if v.len() > 0 {
        lemma_escape_front(v);
        let c = v[0];
        let e = escape_env_char(c);
        let rest = escape_env(v.drop_first());
        lemma_unescape_escape(v.drop_first());
        let s = e + rest;
        if e.len() == 1 {
            assert(s[0] == c);
            assert(s.drop_first() =~= rest);
        } else {
            assert(s[0] == '\\');
            assert(s.subrange(2, s.len() as int) =~= rest);
            assert(unescape_env_char(s[1]) == c);
        }
        assert(unescape_env(s) =~= seq![c] + v.drop_first());
        assert(seq![c] + v.drop_first() =~= v);
    }
}

/// Reading back a written value gives the value: `unquote(quote(v)) == v`.
pub proof fn law_unquote_quote(v: Seq<char>)
    ensures
        unquote_env(quote_env(v)) == v,
{
    if all_plain(v) {
        if v.len() >= 2 && v[0] == '"' {
            assert(is_plain_env_char(v[0]));
        }
    } else {
        let q = seq!['"'] + escape_env(v) + seq!['"'];
        assert(q.subrange(1, q.len() - 1) =~= escape_env(v));
        lemma_unescape_escape(v);
    }
}

fn plain_char(c: char) -> (r: bool)
    ensures
        r == is_plain_env_char(c),
{
    ascii_alnum(c) || c == '_' || c == '-' || c == '.' || c == '/' || c == ':'
}

/// Whether every character of `value` may stand without quotes.
pub fn plain_value(value: &str) -> (r: bool)
    ensures
        r == all_plain(value@),
{
    let v = chars_of(value);
    let mut i: usize = 0;
    let mut plain = true;
    while i < v.len()
        invariant
            i <= v@.len(),
            v@ == value@,
            plain == all_plain(v@.subrange(0, i as int)),
        decreases v@.len() - i,
    {
        proof {
            let a = v@.subrange(0, i as int);
            let b = v@.subrange(0, i + 1);
            assert(b[i as int] == v@[i as int]);
            if all_plain(a) && is_plain_env_char(v@[i as int]) {
                assert forall|k: int| 0 <= k < b.len() implies is_plain_env_char(#[trigger] b[k]) by {
                    if k < i {
                        assert(b[k] == a[k]);
                    }
                }
            }
            if all_plain(b) {
                assert forall|k: int| 0 <= k < a.len() implies is_plain_env_char(#[trigger] a[k]) by {
                    assert(b[k] == a[k]);
                }
            }
        }
        if !plain_char(v[i]) {
            plain = false;
        }
        i = i + 1;
    }
    assert(v@.subrange(0, v@.len() as int) =~= v@);
    plain
}

/// Writes a value for the right-hand side of `KEY=`.
pub fn quote_env_value(value: &str) -> (r: String)
    ensures
        r@ == quote_env(value@),
{
    let v = chars_of(value);
    let plain = plain_value(value);
    if plain {
        return string_from(value);
    }
    let mut r = string_from("\"");
    proof {
        reveal_strlit("\"");
        assert(v@.subrange(0, 0) =~= Seq::<char>::empty());
        assert(r@ =~= seq!['"'] + escape_env(v@.subrange(0, 0)));
    }
    let mut j: usize = 0;
    while j < v.len()
        invariant
            j <= v@.len(),
            v@ == value@,
            r@ == seq!['"'] + escape_env(v@.subrange(0, j as int)),
        decreases v@.len() - j,
    {
        let c = v[j];
        if c == '\\' {
            push_str(&mut r, "\\\\");
        } else if c == '"' {
            push_str(&mut r, "\\\"");
        } else if c == '\n' {
            push_str(&mut r, "\\n");
        } else if c == '\r' {
            push_str(&mut r, "\\r");
        } else if c == '\t' {
            push_str(&mut r, "\\t");
        } else {
            push_char(&mut r, c);
        }
        proof {
            reveal_strlit("\\\\");
            reveal_strlit("\\\"");
            reveal_strlit("\\n");
            reveal_strlit("\\r");
            reveal_strlit("\\t");
            assert(v@.subrange(0, j + 1).drop_last() =~= v@.subrange(0, j as int));
            assert(r@ =~= seq!['"'] + escape_env(v@.subrange(0, j + 1)));
        }
        j = j + 1;
    }
    assert(v@.subrange(0, v@.len() as int) =~= v@);
    push_char(&mut r, '"');
    r
}

/// Reads a value from the right-hand side of `KEY=`.
pub fn unquote_env_value(value: &str) -> (r: String)
    ensures
        r@ == unquote_env(value@),
{
    let v = chars_of(value);
    let n = v.len();
    if !(n >= 2 && v[0] == '"' && v[n - 1] == '"') {
        return string_from(value);
    }
    let ghost inner = v@.subrange(1, n - 1);
    let mut out = String::new();
    let mut i: usize = 1;
    while i < n - 1
        invariant
            v@ == value@,
            n == v@.len(),
            n >= 2,
            1 <= i <= n,
            inner == v@.subrange(1, n - 1),
            i <= n - 1 ==> out@ + unescape_env(v@.subrange(i as int, n - 1)) == unescape_env(inner),
            i == n ==> out@ == unescape_env(inner),
        decreases n - i,
    {
        let ghost s = v@.subrange(i as int, n - 1);
        let c = v[i];
        if c != '\\' {
            push_char(&mut out, c);
            assert(s.drop_first() =~= v@.subrange(i + 1, n - 1));
            i = i + 1;
        } else if i + 1 < n - 1 {
            let d = v[i + 1];
            let u = if d == 'n' {
                '\n'
            } else if d == 'r' {
                '\r'
            } else if d == 't' {
                '\t'
            } else {
                d
            };
            push_char(&mut out, u);
            assert(s.subrange(2, s.len() as int) =~= v@.subrange(i + 2, n - 1));
            i = i + 2;
        } else {
            push_char(&mut out, '\\');
            assert(s.len() == 1);
            i = n;
        }
    }
    assert(v@.subrange(n - 1, n - 1) =~= Seq::<char>::empty());
    out
}

// ---------------------------------------------------------------------------
// Lines of a file.
/// One line of a `.env` file.
#[derive(Clone, Debug, PartialEq, Eq)]
pub enum EnvLine {
    /// A blank line, a comment or any line without `=`, kept as it is.
    Verbatim(String),
    /// A `KEY=value` line, with the key trimmed and the value unquoted.
    Entry { key: String, value: String },
}

pub enum EnvLineView {
    Verbatim(Seq<char>),
    Entry(Seq<char>, Seq<char>),
}

impl View for EnvLine {
    type V = EnvLineView;

    open spec fn view(&self) -> EnvLineView {
        match self {
            EnvLine::Verbatim(s) => EnvLineView::Verbatim(s@),
            EnvLine::Entry { key, value } => EnvLineView::Entry(key@, value@),
        }
    }
}

/// How one line is read: a blank line, a comment or a line without `=` is
/// kept as it is; otherwise the trimmed text before the first `=` is the key
/// and the unquoted trimmed text after it is the value.
pub open spec fn parse_env_line(line: Seq<char>) -> EnvLineView {
    let t = trim(line);
    if t.len() == 0 || t[0] == '#' {
        EnvLineView::Verbatim(line)
    } else {
        let i = find_char_from(t, '=', 0);
        if i >= t.len() {
            EnvLineView::Verbatim(line)
        } else {
            EnvLineView::Entry(
                trim(t.subrange(0, i)),
                unquote_env(trim(t.subrange(i + 1, t.len() as int))),
            )
        }
    }
}

/// The lines of a file's text.
pub open spec fn parse_env(raw: Seq<char>) -> Seq<EnvLineView> {
    lines(raw).map_values(|l: Seq<char>| parse_env_line(l))
}

pub open spec fn render_env_line(l: EnvLineView) -> Seq<char> {
    match l {
        EnvLineView::Verbatim(s) => s,
        EnvLineView::Entry(k, v) => k + seq!['='] + quote_env(v),
    }
}

/// The text of a file made of these lines, each ended by a newline.
pub open spec fn render_env(ls: Seq<EnvLineView>) -> Seq<char>
    decreases ls.len(),
{
    if ls.len() == 0 {
        Seq::empty()
    } else {
        render_env_line(ls[0]) + seq!['\n'] + render_env(ls.drop_first())
    }
}

pub open spec fn env_lines_view(ls: Seq<EnvLine>) -> Seq<EnvLineView> {
    ls.map_values(|l: EnvLine| l@)
}

pub proof fn lemma_render_push(ls: Seq<EnvLineView>, l: EnvLineView)
    ensures
        render_env(ls.push(l)) == render_env(ls) + render_env_line(l) + seq!['\n'],
    decreases ls.len(),
{
    if ls.len() == 0 {
        assert(ls.push(l).drop_first() =~= Seq::<EnvLineView>::empty());
        assert(render_env(ls.push(l).drop_first()) == Seq::<char>::empty());
        assert(ls.push(l)[0] == l);
        assert(render_env(ls.push(l)) =~= render_env_line(l) + seq!['\n']);
    } else {
        assert(ls.push(l).drop_first() =~= ls.drop_first().push(l));
        lemma_render_push(ls.drop_first(), l);
        assert(ls.push(l)[0] == ls[0]);
        assert(render_env(ls.push(l)) =~= render_env(ls) + render_env_line(l) + seq!['\n']);
    }
}

fn parse_env_line_chars(lv: &Vec<char>) -> (r: EnvLine)
    ensures
        r@ == parse_env_line(lv@),
{
    let n = lv.len();
    let (a, b) = trim_bounds(lv, 0, n);
    assert(lv@.subrange(0, n as int) =~= lv@);
    if a == b || lv[a] == '#' {
        return EnvLine::Verbatim(string_of(lv));
    }
    let ts = string_of_range(lv, a, b);
    let tv = chars_of(ts.as_str());
    let i = find_char(&tv, '=', 0);
    if i >= tv.len() {
        return EnvLine::Verbatim(string_of(lv));
    }
    let (ka, kb) = trim_bounds(&tv, 0, i);
    let key = string_of_range(&tv, ka, kb);
    let (va, vb) = trim_bounds(&tv, i + 1, tv.len());
    let raw_value = string_of_range(&tv, va, vb);
    let value = unquote_env_value(raw_value.as_str());
    EnvLine::Entry { key, value }
}

/// Reads a file's text into lines.
pub fn parse_env_lines(raw: &str) -> (r: Vec<EnvLine>)
    ensures
        env_lines_view(r@) == parse_env(raw@),
{
    let ls = split_lines(raw);
    let ghost src = ls@.map_values(|l: Vec<char>| l@);
    let mut out: Vec<EnvLine> = Vec::new();
    let mut i: usize = 0;
    while i < ls.len()
        invariant
            i <= ls@.len(),
            src == ls@.map_values(|l: Vec<char>| l@),
            src == lines(raw@),
            env_lines_view(out@) == src.take(i as int).map_values(|l: Seq<char>| parse_env_line(l)),
        decreases ls@.len() - i,
    {
        let line = parse_env_line_chars(&ls[i]);
        let ghost old_out = out@;
        out.push(line);
        proof {
            assert(env_lines_view(out@) =~= env_lines_view(old_out).push(line@));
            assert(src[i as int] == ls@[i as int]@);
            assert(src.take(i + 1) =~= src.take(i as int).push(src[i as int]));
            assert(env_lines_view(out@) =~= src.take(i + 1).map_values(
                |l: Seq<char>| parse_env_line(l),
            ));
        }
        i = i + 1;
    }
    assert(src.take(ls@.len() as int) =~= src);
    out
}

/// Writes lines back as a file's text.
pub fn render_lines(lines: &Vec<EnvLine>) -> (r: String)
    ensures
        r@ == render_env(env_lines_view(lines@)),
{
    let ghost w = env_lines_view(lines@);
    let mut out = String::new();
    let mut i: usize = 0;
    while i < lines.len()
        invariant
            i <= lines@.len(),
            w == env_lines_view(lines@),
            out@ == render_env(w.take(i as int)),
        decreases lines@.len() - i,
    {
        match &lines[i] {
            EnvLine::Verbatim(s) => push_str(&mut out, s.as_str()),
            EnvLine::Entry { key, value } => {
                push_str(&mut out, key.as_str());
                push_char(&mut out, '=');
                let q = quote_env_value(value.as_str());
                push_str(&mut out, q.as_str());
            },
        }
        push_char(&mut out, '\n');
        proof {
            assert(w[i as int] == lines@[i as int]@);
            assert(w.take(i + 1) =~= w.take(i as int).push(w[i as int]));
            lemma_render_push(w.take(i as int), w[i as int]);
            assert(out@ =~= render_env(w.take(i + 1)));
        }
        i = i + 1;
    }
    assert(w.take(lines@.len() as int) =~= w);
    out
}

// ---------------------------------------------------------------------------
// Writing lines and reading them back.
/// A line that reads back as itself once written: a kept line holds no
/// newline and is still a kept line without a final `\r`; an entry's key is
/// trimmed, holds no `=` or newline and does not start with `#`.
pub open spec fn env_line_ok(l: EnvLineView) -> bool {
    match l {
        EnvLineView::Verbatim(s) => !s.contains('\n') && parse_env_line(strip_cr(s))
            == EnvLineView::Verbatim(strip_cr(s)),
        EnvLineView::Entry(k, v) => trim(k) == k && !k.contains('=') && !k.contains('\n') && (
        k.len() == 0 || k[0] != '#'),
    }
}

pub open spec fn env_lines_ok(ls: Seq<EnvLineView>) -> bool {
    forall|i: int| 0 <= i < ls.len() ==> env_line_ok(#[trigger] ls[i])
}

/// A line as it reads back: a kept line loses a final `\r`.
pub open spec fn normalize_env_line(l: EnvLineView) -> EnvLineView {
    match l {
        EnvLineView::Verbatim(s) => EnvLineView::Verbatim(strip_cr(s)),
        _ => l,
    }
}

proof fn lemma_escape_no_newline(v: Seq<char>)
    ensures
        !escape_env(v).contains('\n'),
    decreases v.len(),
{
    if v.len() > 0 {
        lemma_escape_no_newline(v.drop_last());
        let a = escape_env(v.drop_last());
        let b = escape_env_char(v.last());
        if (a + b).contains('\n') {
            let k = choose|k: int| 0 <= k < (a + b).len() && (a + b)[k] == '\n';
            if k < a.len() {
                assert(a[k] == '\n');
            } else {
                assert(b[k - a.len()] == '\n');
            }
        }
    }
}

proof fn lemma_quote_shape(v: Seq<char>)
    ensures
        !quote_env(v).contains('\n'),
        quote_env(v).len() == 0 || (!is_ws(quote_env(v)[0]) && !is_ws(quote_env(v).last())
            && quote_env(v).last() != '\r'),
{
    let q = quote_env(v);
    if all_plain(v) {
        if q.contains('\n') {
            let k = choose|k: int| 0 <= k < q.len() && q[k] == '\n';
            assert(is_plain_env_char(v[k]));
        }
        if q.len() > 0 {
            assert(is_plain_env_char(v[0]));
            assert(is_plain_env_char(v[v.len() - 1]));
        }
    } else {
        lemma_escape_no_newline(v);
        let e = escape_env(v);
        if q.contains('\n') {
            let k = choose|k: int| 0 <= k < q.len() && q[k] == '\n';
            if k > 0 && k < q.len() - 1 {
                assert(q[k] == e[k - 1]);
            }
        }
    }
}

proof fn lemma_entry_roundtrip(k: Seq<char>, v: Seq<char>)
    requires
        env_line_ok(EnvLineView::Entry(k, v)),
    ensures
        !(k + seq!['='] + quote_env(v)).contains('\n'),
        parse_env_line(strip_cr(k + seq!['='] + quote_env(v))) == EnvLineView::Entry(k, v),
{
    let q = quote_env(v);
    let line = k + seq!['='] + q;
    lemma_quote_shape(v);
    lemma_trim_idem(k);
    if line.contains('\n') {
        let j = choose|j: int| 0 <= j < line.len() && line[j] == '\n';
        if j < k.len() {
            assert(line[j] == k[j]);
            assert(k.contains('\n'));
        } else if j > k.len() {
            assert(line[j] == q[j - k.len() - 1]);
            assert(q.contains('\n'));
        }
    }
    assert(line.last() != '\r') by {
        if q.len() > 0 {
            assert(line.last() == q.last());
        }
    }
    assert(strip_cr(line) == line);
    assert(!is_ws(line[0])) by {
        if k.len() > 0 {
            assert(line[0] == k[0]);
        }
    }
    assert(!is_ws(line.last())) by {
        if q.len() > 0 {
            assert(line.last() == q.last());
        }
    }
    lemma_trim_fixed(line);
    assert(line[0] != '#') by {
        if k.len() > 0 {
            assert(line[0] == k[0]);
        }
    }
    assert(line =~= k + (seq!['='] + q));
    lemma_find_after_prefix(k, '=', q);
    assert(line.subrange(0, k.len() as int) =~= k);
    assert(line.subrange(k.len() + 1int, line.len() as int) =~= q);
    lemma_trim_fixed(q);
    law_unquote_quote(v);
}

proof fn lemma_line_roundtrip(l: EnvLineView)
    requires
        env_line_ok(l),
    ensures
        !render_env_line(l).contains('\n'),
        parse_env_line(strip_cr(render_env_line(l))) == normalize_env_line(l),
{
    match l {
        EnvLineView::Verbatim(s) => {},
        EnvLineView::Entry(k, v) => {
            lemma_entry_roundtrip(k, v);
        },
    }
}

proof fn lemma_lines_render(ls: Seq<EnvLineView>)
    requires
        forall|i: int| 0 <= i < ls.len() ==> !render_env_line(#[trigger] ls[i]).contains('\n'),
    ensures
        lines(render_env(ls)) == ls.map_values(|l: EnvLineView| strip_cr(render_env_line(l))),
    decreases ls.len(),
{
    if ls.len() == 0 {
        assert(lines(Seq::<char>::empty()) == Seq::<Seq<char>>::empty());
        assert(ls.map_values(|l: EnvLineView| strip_cr(render_env_line(l))) =~= Seq::<
            Seq<char>,
        >::empty());
    } else {
        let rest = ls.drop_first();
        assert forall|i: int| 0 <= i < rest.len() implies !render_env_line(
            #[trigger] rest[i],
        ).contains('\n') by {
            assert(rest[i] == ls[i + 1]);
        }
        lemma_lines_render(rest);
        assert(ls[0] == ls[0]);
        lemma_lines_cons(render_env_line(ls[0]), render_env(rest));
        assert(ls.map_values(|l: EnvLineView| strip_cr(render_env_line(l))) =~= seq![
            strip_cr(render_env_line(ls[0])),
        ] + rest.map_values(|l: EnvLineView| strip_cr(render_env_line(l))));
    }
}

/// Reading back written lines gives the lines, kept lines less a final `\r`.
pub proof fn lemma_parse_render(ls: Seq<EnvLineView>)
    requires
        env_lines_ok(ls),
    ensures
        parse_env(render_env(ls)) == ls.map_values(|l: EnvLineView| normalize_env_line(l)),
{
    assert forall|i: int| 0 <= i < ls.len() implies !render_env_line(#[trigger] ls[i]).contains(
        '\n',
    ) by {
        lemma_line_roundtrip(ls[i]);
    }
    lemma_lines_render(ls);
    let ws = ls.map_values(|l: EnvLineView| strip_cr(render_env_line(l)));
    assert forall|i: int| 0 <= i < ls.len() implies #[trigger] parse_env_line(ws[i])
        == normalize_env_line(ls[i]) by {
        lemma_line_roundtrip(ls[i]);
    }
    assert(parse_env(render_env(ls)) =~= ls.map_values(|l: EnvLineView| normalize_env_line(l)));
}

/// Every line read from a text reads back as itself once written.
pub proof fn lemma_parse_ok(raw: Seq<char>)
    ensures
        env_lines_ok(parse_env(raw)),
{
    lemma_lines_no_newline(raw);
    let ls = lines(raw);
    assert forall|i: int| 0 <= i < parse_env(raw).len() implies env_line_ok(
        #[trigger] parse_env(raw)[i],
    ) by {
        let l = ls[i];
        assert(!l.contains('\n'));
        lemma_line_ok(l);
    }
}

pub proof fn lemma_line_ok(l: Seq<char>)
    requires
        !l.contains('\n'),
    ensures
        env_line_ok(parse_env_line(l)),
{
    let t = trim(l);
    lemma_trim_strip_cr(l);
    lemma_trim_idem(l);
    let r = lemma_trim_shape(l);
    if t.len() == 0 || t[0] == '#' {
        if strip_cr(l).contains('\n') {
            let j = choose|j: int| 0 <= j < strip_cr(l).len() && strip_cr(l)[j] == '\n';
            assert(strip_cr(l)[j] == l[j]);
        }
    } else {
        let i = find_char_from(t, '=', 0);
        lemma_find_char_from_bounds(t, '=', 0);
        if i < t.len() {
            let head = t.subrange(0, i);
            let k = trim(head);
            lemma_trim_idem(head);
            let rk = lemma_trim_shape(head);
            assert(k =~= head.subrange(rk.0, rk.1));
            if k.contains('=') {
                let j = choose|j: int| 0 <= j < k.len() && k[j] == '=';
                assert(k[j] == t[rk.0 + j]);
            }
            if k.contains('\n') {
                let j = choose|j: int| 0 <= j < k.len() && k[j] == '\n';
                assert(k[j] == t[rk.0 + j]);
                assert(t[rk.0 + j] == l[r.0 + rk.0 + j]);
            }
            if k.len() > 0 {
                assert(head[0] == t[0]);
                assert(k[0] == t[0]);
            }
        } else {
            if strip_cr(l).contains('\n') {
                let j = choose|j: int| 0 <= j < strip_cr(l).len() && strip_cr(l)[j] == '\n';
                assert(strip_cr(l)[j] == l[j]);
            }
        }
    }
}

// ---------------------------------------------------------------------------
// Looking up, setting and removing keys.
pub open spec fn is_entry_for(l: EnvLineView, key: Seq<char>) -> bool {
    match l {
        EnvLineView::Entry(k, _) => k == key,
        _ => false,
    }
}

pub open spec fn entry_value(l: EnvLineView) -> Seq<char> {
    match l {
        EnvLineView::Entry(_, v) => v,
        _ => Seq::empty(),
    }
}

/// The value of the first entry for `key`.
pub open spec fn env_lookup(ls: Seq<EnvLineView>, key: Seq<char>) -> Option<Seq<char>>
    decreases ls.len(),
{
    if ls.len() == 0 {
        None
    } else {
        match env_lookup(ls.drop_last(), key) {
            Some(v) => Some(v),
            None => if is_entry_for(ls.last(), key) {
                Some(entry_value(ls.last()))
            } else {
                None
            },
        }
    }
}

/// The position of the first entry for `key`, or the number of lines.
pub open spec fn env_first_index(ls: Seq<EnvLineView>, key: Seq<char>) -> int
    decreases ls.len(),
{
    if ls.len() == 0 {
        0
    } else {
        let p = env_first_index(ls.drop_last(), key);
        if p < ls.len() - 1 {
            p
        } else if is_entry_for(ls.last(), key) {
            ls.len() - 1
        } else {
            ls.len() as int
        }
    }
}

/// The value of the last entry for `key`.
pub open spec fn env_last_value(ls: Seq<EnvLineView>, key: Seq<char>) -> Option<Seq<char>>
    decreases ls.len(),
{
    if ls.len() == 0 {
        None
    } else if is_entry_for(ls.last(), key) {
        Some(entry_value(ls.last()))
    } else {
        env_last_value(ls.drop_last(), key)
    }
}

/// The lines without any entry for `key`.
pub open spec fn env_without(ls: Seq<EnvLineView>, key: Seq<char>) -> Seq<EnvLineView>
    decreases ls.len(),
{
    if ls.len() == 0 {
        Seq::empty()
    } else if is_entry_for(ls.last(), key) {
        env_without(ls.drop_last(), key)
    } else {
        env_without(ls.drop_last(), key).push(ls.last())
    }
}

/// The keys of the entries, in file order.
pub open spec fn env_keys(ls: Seq<EnvLineView>) -> Seq<Seq<char>>
    decreases ls.len(),
{
    if ls.len() == 0 {
        Seq::empty()
    } else {
        match ls.last() {
            EnvLineView::Entry(k, _) => env_keys(ls.drop_last()).push(k),
            _ => env_keys(ls.drop_last()),
        }
    }
}

/// The lines after setting `key` to `value`: the first entry for `key` takes
/// the value, or a new entry goes at the end.
pub open spec fn env_set_lines(ls: Seq<EnvLineView>, key: Seq<char>, value: Seq<char>) -> Seq<
    EnvLineView,
> {
    let p = env_first_index(ls, key);
    if p < ls.len() {
        ls.update(p, EnvLineView::Entry(key, value))
    } else {
        ls.push(EnvLineView::Entry(key, value))
    }
}

proof fn lemma_first_index(ls: Seq<EnvLineView>, key: Seq<char>)
    ensures
        0 <= env_first_index(ls, key) <= ls.len(),
        env_first_index(ls, key) < ls.len() ==> is_entry_for(ls[env_first_index(ls, key)], key),
        forall|j: int| 0 <= j < env_first_index(ls, key) ==> !is_entry_for(#[trigger] ls[j], key),
        env_lookup(ls, key) == (if env_first_index(ls, key) < ls.len() {
            Some(entry_value(ls[env_first_index(ls, key)]))
        } else {
            None::<Seq<char>>
        }),
    decreases ls.len(),
{
    if ls.len() > 0 {
        let d = ls.drop_last();
        lemma_first_index(d, key);
        let p = env_first_index(d, key);
        assert forall|j: int| 0 <= j < env_first_index(ls, key) implies !is_entry_for(
            #[trigger] ls[j],
            key,
        ) by {
            if j < d.len() {
                assert(ls[j] == d[j]);
            }
        }
        if p < d.len() {
            assert(ls[p] == d[p]);
        }
    }
}

/// Lines that differ only in kept lines have the same lookups.
proof fn lemma_lookup_normalize(ls: Seq<EnvLineView>, key: Seq<char>)
    ensures
        env_lookup(ls.map_values(|l: EnvLineView| normalize_env_line(l)), key) == env_lookup(ls, key),
    decreases ls.len(),
{
    if ls.len() > 0 {
        let m = ls.map_values(|l: EnvLineView| normalize_env_line(l));
        assert(m.drop_last() =~= ls.drop_last().map_values(|l: EnvLineView| normalize_env_line(l)));
        lemma_lookup_normalize(ls.drop_last(), key);
        assert(m.last() == normalize_env_line(ls.last()));
    }
}

proof fn lemma_lookup_set(ls: Seq<EnvLineView>, key: Seq<char>, value: Seq<char>, other: Seq<char>)
    ensures
        env_lookup(env_set_lines(ls, key, value), key) == Some(value),
        other != key ==> env_lookup(env_set_lines(ls, key, value), other) == env_lookup(ls, other),
{
    lemma_first_index(ls, key);
    let p = env_first_index(ls, key);
    let n = env_set_lines(ls, key, value);
    lemma_first_index(n, key);
    lemma_first_index(ls, other);
    lemma_first_index(n, other);
    if p < ls.len() {
        assert forall|j: int| 0 <= j < p implies !is_entry_for(#[trigger] n[j], key) by {
            assert(n[j] == ls[j]);
        }
        assert(n[p] == EnvLineView::Entry(key, value));
        assert(is_entry_for(n[p], key));
        if env_first_index(n, key) < p {
            assert(n[env_first_index(n, key)] == ls[env_first_index(n, key)]);
        }
        assert(env_first_index(n, key) == p);
        if other != key {
            let q = env_first_index(ls, other);
            let q2 = env_first_index(n, other);
            if q < q2 {
                assert(n[q] == ls[q] || q == p);
            } else if q2 < q {
                assert(n[q2] == ls[q2] || q2 == p);
            }
            if q == q2 && q < ls.len() {
                assert(q != p);
                assert(n[q] == ls[q]);
            }
        }
    } else {
        assert(n.drop_last() =~= ls);
    }
}

proof fn lemma_lookup_without(ls: Seq<EnvLineView>, key: Seq<char>, other: Seq<char>)
    ensures
        env_lookup(env_without(ls, key), key) is None,
        other != key ==> env_lookup(env_without(ls, key), other) == env_lookup(ls, other),
    decreases ls.len(),
{
    if ls.len() > 0 {
        lemma_lookup_without(ls.drop_last(), key, other);
        let w = env_without(ls.drop_last(), key);
        if !is_entry_for(ls.last(), key) {
            assert(w.push(ls.last()).drop_last() =~= w);
        }
    }
}

proof fn lemma_without_ok(ls: Seq<EnvLineView>, key: Seq<char>)
    requires
        env_lines_ok(ls),
    ensures
        env_lines_ok(env_without(ls, key)),
    decreases ls.len(),
{
    if ls.len() > 0 {
        let d = ls.drop_last();
        assert forall|i: int| 0 <= i < d.len() implies env_line_ok(#[trigger] d[i]) by {
            assert(d[i] == ls[i]);
        }
        lemma_without_ok(d, key);
        let w = env_without(d, key);
        if !is_entry_for(ls.last(), key) {
            assert forall|i: int| 0 <= i < w.push(ls.last()).len() implies env_line_ok(
                #[trigger] w.push(ls.last())[i],
            ) by {
                if i < w.len() {
                    assert(w.push(ls.last())[i] == w[i]);
                }
            }
        }
    }
}

// ---------------------------------------------------------------------------
// Keys.
pub open spec fn is_env_key_start(c: char) -> bool {
    ('A' <= c && c <= 'Z') || c == '_'
}

pub open spec fn is_env_key_char(c: char) -> bool {
    ('A' <= c && c <= 'Z') || ('0' <= c && c <= '9') || c == '_'
}

/// `^[A-Z_][A-Z0-9_]*$`.
pub open spec fn valid_env_key(key: Seq<char>) -> bool {
    &&& key.len() > 0
    &&& is_env_key_start(key[0])
    &&& forall|i: int| 0 <= i < key.len() ==> is_env_key_char(#[trigger] key[i])
}

pub open spec fn env_key_error(key: Seq<char>) -> ConfigFault {
    ConfigFault::InvalidConfig("env key `"@ + key + "` must match ^[A-Z_][A-Z0-9_]*$"@)
}

/// Checks a key for the `.env` file.
pub fn validate_env_key(key: &str) -> (r: Result<(), ConfigError>)
    ensures
        valid_env_key(key@) ==> r is Ok,
        !valid_env_key(key@) ==> (r matches Err(e) && e@ == env_key_error(key@)),
{
    let v = chars_of(key);
    let mut ok = v.len() > 0 && (('A' <= v[0] && v[0] <= 'Z') || v[0] == '_');
    let mut i: usize = 0;
    while i < v.len()
        invariant
            i <= v@.len(),
            v@ == key@,
            ok == (v@.len() > 0 && is_env_key_start(v@[0]) && forall|j: int|
                0 <= j < i ==> is_env_key_char(#[trigger] v@[j])),
        decreases v@.len() - i,
    {
        let c = v[i];
        if !(('A' <= c && c <= 'Z') || ('0' <= c && c <= '9') || c == '_') {
            ok = false;
        }
        i = i + 1;
    }
    if ok {
        Ok(())
    } else {
        let mut m = string_from("env key `");
        push_str(&mut m, key);
        push_str(&mut m, "` must match ^[A-Z_][A-Z0-9_]*$");
        Err(ConfigError::InvalidConfig(m))
    }
}

proof fn lemma_valid_key_ok(key: Seq<char>, value: Seq<char>)
    requires
        valid_env_key(key),
    ensures
        env_line_ok(EnvLineView::Entry(key, value)),
{
    assert(!is_ws(key[0])) by {
        assert(is_env_key_char(key[0]));
    }
    assert(!is_ws(key.last())) by {
        assert(is_env_key_char(key[key.len() - 1]));
    }
    lemma_trim_fixed(key);
    if key.contains('=') {
        let j = choose|j: int| 0 <= j < key.len() && key[j] == '=';
        assert(is_env_key_char(key[j]));
    }
    if key.contains('\n') {
        let j = choose|j: int| 0 <= j < key.len() && key[j] == '\n';
        assert(is_env_key_char(key[j]));
    }
}

// ---------------------------------------------------------------------------
// Operations on a file's text. `existing` is the text of the file, or `None`
// when there is no file; a missing file reads as empty.
#[derive(Clone, Debug, PartialEq, Eq)]
pub struct EnvWriteResult {
    pub previous: Option<String>,
    pub backup_written: bool,
}

/// The outcome of setting a key, and the text to write, if any. When there is
/// text to write and the file existed, its old text goes to the backup file
/// first.
#[derive(Clone, Debug, PartialEq, Eq)]
pub struct EnvSetPlan {
    pub result: EnvWriteResult,
    pub content: Option<String>,
}

/// The value removed by unsetting a key, and the text to write, if any; the
/// old text goes to the backup file first.
#[derive(Clone, Debug, PartialEq, Eq)]
pub struct EnvUnsetPlan {
    pub removed: Option<String>,
    pub content: Option<String>,
}

pub open spec fn opt_text(existing: Option<&str>) -> Option<Seq<char>> {
    match existing {
        Some(t) => Some(t@),
        None => None,
    }
}

pub open spec fn env_text(existing: Option<Seq<char>>) -> Seq<char> {
    match existing {
        Some(t) => t,
        None => Seq::empty(),
    }
}

pub open spec fn opt_string_view(o: Option<String>) -> Option<Seq<char>> {
    match o {
        Some(s) => Some(s@),
        None => None,
    }
}

/// The text of the file after setting `key` to `value`.
pub open spec fn env_text_after_set(existing: Seq<char>, key: Seq<char>, value: Seq<char>) -> Seq<
    char,
> {
    let ls = parse_env(existing);
    if env_lookup(ls, key) == Some(value) {
        existing
    } else {
        render_env(env_set_lines(ls, key, value))
    }
}

/// The text of the file after removing `key`.
pub open spec fn env_text_after_unset(existing: Seq<char>, key: Seq<char>) -> Seq<char> {
    let ls = parse_env(existing);
    if env_lookup(ls, key) is Some {
        render_env(env_without(ls, key))
    } else {
        existing
    }
}

fn line_is_entry_for(l: &EnvLine, key: &str) -> (r: bool)
    ensures
        r == is_entry_for(l@, key@),
{
    match l {
        EnvLine::Entry { key: k, .. } => str_eq(k.as_str(), key),
        EnvLine::Verbatim(_) => false,
    }
}

fn copy_line(l: &EnvLine) -> (r: EnvLine)
    ensures
        r@ == l@,
{
    match l {
        EnvLine::Verbatim(s) => EnvLine::Verbatim(s.clone()),
        EnvLine::Entry { key, value } => EnvLine::Entry { key: key.clone(), value: value.clone() },
    }
}

fn entry_value_of(l: &EnvLine) -> (r: String)
    ensures
        r@ == entry_value(l@),
{
    match l {
        EnvLine::Entry { value, .. } => value.clone(),
        EnvLine::Verbatim(_) => String::new(),
    }
}

fn text_of(existing: Option<&str>) -> (r: &str)
    ensures
        r@ == env_text(opt_text(existing)),
{
    match existing {
        Some(t) => t,
        None => {
            proof {
                reveal_strlit("");
            }
            ""
        },
    }
}

/// Finds the first entry for `key`.
fn first_entry(lines: &Vec<EnvLine>, key: &str) -> (p: usize)
    ensures
        p == env_first_index(env_lines_view(lines@), key@),
{
    let ghost w = env_lines_view(lines@);
    let mut i: usize = 0;
    while i < lines.len()
        invariant
            i <= lines@.len(),
            w == env_lines_view(lines@),
            forall|j: int| 0 <= j < i ==> !is_entry_for(#[trigger] w[j], key@),
        decreases lines@.len() - i,
    {
        if line_is_entry_for(&lines[i], key) {
            proof {
                lemma_first_index(w, key@);
                let f = env_first_index(w, key@);
                assert(is_entry_for(w[i as int], key@));
                if f < i {
                    assert(!is_entry_for(w[f], key@));
                }
            }
            return i;
        }
        i = i + 1;
    }
    proof {
        lemma_first_index(w, key@);
        let f = env_first_index(w, key@);
        if f < w.len() {
            assert(!is_entry_for(w[f], key@));
        }
    }
    i
}

/// Sets `key` to `value` in the file's text. Nothing is written when the
/// first entry for `key` already holds `value`.
pub fn set_env_value(existing: Option<&str>, key: &str, value: &str) -> (r: Result<
    EnvSetPlan,
    ConfigError,
>)
    ensures
        !valid_env_key(key@) ==> (r matches Err(e) && e@ == env_key_error(key@)),
        valid_env_key(key@) ==> (r matches Ok(plan) && ({
            let ls = parse_env(env_text(opt_text(existing)));
            &&& opt_string_view(plan.result.previous) == env_lookup(ls, key@)
            &&& if env_lookup(ls, key@) == Some(value@) {
                plan.content is None && !plan.result.backup_written
            } else {
                opt_string_view(plan.content) == Some(render_env(env_set_lines(ls, key@, value@)))
                    && plan.result.backup_written == existing is Some
            }
        })),
{
    match validate_env_key(key) {
        Err(e) => {
            return Err(e);
        },
        Ok(()) => {},
    }
    let text = text_of(existing);
    let mut lines = parse_env_lines(text);
    let ghost ls = env_lines_view(lines@);
    let p = first_entry(&lines, key);
    proof {
        lemma_first_index(ls, key@);
    }
    let previous: Option<String>;
    if p < lines.len() {
        let old = entry_value_of(&lines[p]);
        if str_eq(old.as_str(), value) {
            return Ok(
                EnvSetPlan {
                    result: EnvWriteResult { previous: Some(old), backup_written: false },
                    content: None,
                },
            );
        }
        previous = Some(old);
        let ghost before = lines@;
        lines.set(p, EnvLine::Entry { key: string_from(key), value: string_from(value) });
        assert(env_lines_view(lines@) =~= ls.update(
            p as int,
            EnvLineView::Entry(key@, value@),
        ));
    } else {
        previous = None;
        lines.push(EnvLine::Entry { key: string_from(key), value: string_from(value) });
        assert(env_lines_view(lines@) =~= ls.push(EnvLineView::Entry(key@, value@)));
    }
    let content = render_lines(&lines);
    Ok(
        EnvSetPlan {
            result: EnvWriteResult { previous, backup_written: existing.is_some() },
            content: Some(content),
        },
    )
}

/// The value of the first entry for `key`, if any.
pub fn get_env_value(existing: Option<&str>, key: &str) -> (r: Result<Option<String>, ConfigError>)
    ensures
        !valid_env_key(key@) ==> (r matches Err(e) && e@ == env_key_error(key@)),
        valid_env_key(key@) ==> (r matches Ok(v) && opt_string_view(v) == env_lookup(
            parse_env(env_text(opt_text(existing))),
            key@,
        )),
{
    match validate_env_key(key) {
        Err(e) => {
            return Err(e);
        },
        Ok(()) => {},
    }
    let text = text_of(existing);
    let lines = parse_env_lines(text);
    let p = first_entry(&lines, key);
    proof {
        lemma_first_index(env_lines_view(lines@), key@);
    }
    if p < lines.len() {
        Ok(Some(entry_value_of(&lines[p])))
    } else {
        Ok(None)
    }
}

/// Removes every entry for `key`; the value removed last is returned.
/// Nothing is written when there is no file or no such entry.
pub fn unset_env_value(existing: Option<&str>, key: &str) -> (r: Result<EnvUnsetPlan, ConfigError>)
    ensures
        !valid_env_key(key@) ==> (r matches Err(e) && e@ == env_key_error(key@)),
        valid_env_key(key@) ==> (r matches Ok(plan) && match existing {
            None => plan.removed is None && plan.content is None,
            Some(t) => {
                let ls = parse_env(t@);
                &&& opt_string_view(plan.removed) == env_last_value(ls, key@)
                &&& if env_last_value(ls, key@) is Some {
                    opt_string_view(plan.content) == Some(render_env(env_without(ls, key@)))
                } else {
                    plan.content is None
                }
            },
        }),
{
    match validate_env_key(key) {
        Err(e) => {
            return Err(e);
        },
        Ok(()) => {},
    }
    let text = match existing {
        None => {
            return Ok(EnvUnsetPlan { removed: None, content: None });
        },
        Some(t) => t,
    };
    let lines = parse_env_lines(text);
    let ghost w = env_lines_view(lines@);
    let mut kept: Vec<EnvLine> = Vec::new();
    let mut removed: Option<String> = None;
    let mut i: usize = 0;
    while i < lines.len()
        invariant
            i <= lines@.len(),
            w == env_lines_view(lines@),
            env_lines_view(kept@) == env_without(w.take(i as int), key@),
            opt_string_view(removed) == env_last_value(w.take(i as int), key@),
        decreases lines@.len() - i,
    {
        let ghost t = w.take(i + 1);
        assert(t.drop_last() =~= w.take(i as int));
        assert(t.last() == w[i as int]);
        assert(w[i as int] == lines@[i as int]@);
        if line_is_entry_for(&lines[i], key) {
            removed = Some(entry_value_of(&lines[i]));
        } else {
            let ghost old_kept = kept@;
            kept.push(copy_line(&lines[i]));
            assert(env_lines_view(kept@) =~= env_lines_view(old_kept).push(w[i as int]));
        }
        i = i + 1;
    }
    assert(w.take(lines@.len() as int) =~= w);
    if removed.is_some() {
        let content = render_lines(&kept);
        Ok(EnvUnsetPlan { removed, content: Some(content) })
    } else {
        Ok(EnvUnsetPlan { removed, content: None })
    }
}

/// Ascending order, equal keys side by side.
pub open spec fn sorted_strs(s: Seq<Seq<char>>) -> bool {
    forall|i: int, j: int| 0 <= i < j < s.len() ==> !str_less(#[trigger] s[j], #[trigger] s[i])
}

pub open spec fn strings_view(v: Seq<String>) -> Seq<Seq<char>> {
    v.map_values(|x: String| x@)
}

fn insert_sorted_key(out: &mut Vec<String>, k: String)
    requires
        sorted_strs(strings_view(old(out)@)),
    ensures
        sorted_strs(strings_view(final(out)@)),
        strings_view(final(out)@).to_multiset() == strings_view(old(out)@).to_multiset().insert(k@),
{
    let ghost o = strings_view(out@);
    let mut p: usize = 0;
    while p < out.len() && !string_less(k.as_str(), out[p].as_str())
        invariant
            p <= out@.len(),
            o == strings_view(out@),
            forall|j: int| 0 <= j < p ==> !str_less(k@, #[trigger] o[j]),
        decreases out@.len() - p,
    {
        p = p + 1;
    }
    let ghost kv = k@;
    out.insert(p, k);
    proof {
        let n = strings_view(out@);
        assert(n =~= o.insert(p as int, kv));
        vstd::seq_lib::to_multiset_insert(o, p as int, kv);
        assert forall|i: int, j: int| 0 <= i < j < n.len() implies !str_less(
            #[trigger] n[j],
            #[trigger] n[i],
        ) by {
            if j < p {
                assert(n[i] == o[i] && n[j] == o[j]);
            } else if j == p {
                assert(n[i] == o[i]);
            } else if i == p {
                assert(n[j] == o[j - 1]);
                if j - 1 > p {
                    assert(!str_less(o[j - 1], o[p as int]));
                }
                assert(str_less(kv, o[p as int]));
                lemma_str_less_total(kv, o[p as int]);
                if str_less(o[j - 1], kv) {
                    lemma_str_less_trans(o[j - 1], kv, o[p as int]);
                }
            } else if i < p {
                assert(n[i] == o[i] && n[j] == o[j - 1]);
            } else {
                assert(n[i] == o[i - 1] && n[j] == o[j - 1]);
            }
        }
    }
}

/// The keys of all entries in ascending order, duplicates kept.
pub fn list_env_keys(existing: Option<&str>) -> (r: Vec<String>)
    ensures
        sorted_strs(strings_view(r@)),
        strings_view(r@).to_multiset() == env_keys(parse_env(env_text(opt_text(existing)))).to_multiset(),
{
    let text = text_of(existing);
    let lines = parse_env_lines(text);
    let ghost w = env_lines_view(lines@);
    let mut out: Vec<String> = Vec::new();
    let mut i: usize = 0;
    assert(strings_view(out@).to_multiset() =~= env_keys(w.take(0)).to_multiset()) by {
        assert(w.take(0) =~= Seq::<EnvLineView>::empty());
        assert(strings_view(out@) =~= Seq::<Seq<char>>::empty());
    }
    while i < lines.len()
        invariant
            i <= lines@.len(),
            w == env_lines_view(lines@),
            sorted_strs(strings_view(out@)),
            strings_view(out@).to_multiset() == env_keys(w.take(i as int)).to_multiset(),
        decreases lines@.len() - i,
    {
        let ghost t = w.take(i + 1);
        assert(t.drop_last() =~= w.take(i as int));
        assert(t.last() == w[i as int]);
        assert(w[i as int] == lines@[i as int]@);
        match &lines[i] {
            EnvLine::Entry { key, .. } => {
                insert_sorted_key(&mut out, key.clone());
                proof {
                    vstd::seq_lib::to_multiset_build(env_keys(w.take(i as int)), key@);
                }
            },
            EnvLine::Verbatim(_) => {},
        }
        i = i + 1;
    }
    assert(w.take(lines@.len() as int) =~= w);
    out
}

// ---------------------------------------------------------------------------
// Laws of reading and writing keys.
/// Reading a key right after setting it gives the value set, and every other
/// key reads as before.
pub proof fn law_env_get_after_set(
    existing: Seq<char>,
    key: Seq<char>,
    value: Seq<char>,
    other: Seq<char>,
)
    requires
        valid_env_key(key),
    ensures
        env_lookup(parse_env(env_text_after_set(existing, key, value)), key) == Some(value),
        other != key ==> env_lookup(parse_env(env_text_after_set(existing, key, value)), other)
            == env_lookup(parse_env(existing), other),
{
    let ls = parse_env(existing);
    lemma_lookup_set(ls, key, value, other);
    if env_lookup(ls, key) != Some(value) {
        let n = env_set_lines(ls, key, value);
        lemma_parse_ok(existing);
        lemma_first_index(ls, key);
        lemma_valid_key_ok(key, value);
        assert forall|i: int| 0 <= i < n.len() implies env_line_ok(#[trigger] n[i]) by {
            if i < ls.len() && i != env_first_index(ls, key) {
                assert(n[i] == ls[i]);
            }
        }
        lemma_parse_render(n);
        lemma_lookup_normalize(n, key);
        lemma_lookup_normalize(n, other);
    }
}

/// Setting a key to the value it already reads as writes nothing; so setting
/// the same key and value twice writes at most once.
pub proof fn law_env_set_twice_writes_once(existing: Seq<char>, key: Seq<char>, value: Seq<char>)
    requires
        valid_env_key(key),
    ensures
        env_lookup(parse_env(env_text_after_set(existing, key, value)), key) == Some(value),
        env_text_after_set(env_text_after_set(existing, key, value), key, value)
            == env_text_after_set(existing, key, value),
{
    law_env_get_after_set(existing, key, value, key);
}

/// A key reads as absent right after it is unset, and every other key reads
/// as before.
pub proof fn law_env_get_after_unset(existing: Seq<char>, key: Seq<char>, other: Seq<char>)
    ensures
        env_lookup(parse_env(env_text_after_unset(existing, key)), key) is None,
        other != key ==> env_lookup(parse_env(env_text_after_unset(existing, key)), other)
            == env_lookup(parse_env(existing), other),
{
    let ls = parse_env(existing);
    lemma_lookup_without(ls, key, other);
    if env_lookup(ls, key) is Some {
        let n = env_without(ls, key);
        lemma_parse_ok(existing);
        lemma_without_ok(ls, key);
        lemma_parse_render(n);
        lemma_lookup_normalize(n, key);
        lemma_lookup_normalize(n, other);
    }
}

} // verus!
