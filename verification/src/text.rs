//! Character-level helpers shared by the parsers: character classes,
//! whitespace trimming, line splitting, lexicographic order on strings,
//! and building strings char by char.
use vstd::prelude::*;

verus! {

/// `char::is_ascii_alphanumeric`.
pub open spec fn is_ascii_alnum(c: char) -> bool {
    ('a' <= c && c <= 'z') || ('A' <= c && c <= 'Z') || ('0' <= c && c <= '9')
}

/// `char::is_ascii_uppercase`.
pub open spec fn is_ascii_upper(c: char) -> bool {
    'A' <= c && c <= 'Z'
}

/// `char::is_ascii_digit`.
pub open spec fn is_ascii_digit(c: char) -> bool {
    '0' <= c && c <= '9'
}

/// `char::is_whitespace`: the characters with the Unicode `White_Space` property.
pub open spec fn is_ws(c: char) -> bool {
    ||| c == '\t'
    ||| c == '\n'
    ||| c == '\x0B'
    ||| c == '\x0C'
    ||| c == '\r'
    ||| c == ' '
    ||| c == '\u{85}'
    ||| c == '\u{A0}'
    ||| c == '\u{1680}'
    ||| ('\u{2000}' <= c && c <= '\u{200A}')
    ||| c == '\u{2028}'
    ||| c == '\u{2029}'
    ||| c == '\u{202F}'
    ||| c == '\u{205F}'
    ||| c == '\u{3000}'
}

pub fn ascii_alnum(c: char) -> (r: bool)
    ensures
        r == is_ascii_alnum(c),
{
    ('a' <= c && c <= 'z') || ('A' <= c && c <= 'Z') || ('0' <= c && c <= '9')
}

pub fn ascii_upper(c: char) -> (r: bool)
    ensures
        r == is_ascii_upper(c),
{
    'A' <= c && c <= 'Z'
}

pub fn ascii_digit(c: char) -> (r: bool)
    ensures
        r == is_ascii_digit(c),
{
    '0' <= c && c <= '9'
}

pub fn whitespace(c: char) -> (r: bool)
    ensures
        r == is_ws(c),
{
    c == '\t' || c == '\n' || c == '\x0B' || c == '\x0C' || c == '\r' || c == ' ' || c == '\u{85}'
        || c == '\u{A0}' || c == '\u{1680}' || ('\u{2000}' <= c && c <= '\u{200A}') || c
        == '\u{2028}' || c == '\u{2029}' || c == '\u{202F}' || c == '\u{205F}' || c == '\u{3000}'
}

/// `char::to_ascii_lowercase`.
pub open spec fn ascii_lower_char(c: char) -> char {
    if 'A' <= c && c <= 'Z' {
        ((c as u32) + 32) as char
    } else {
        c
    }
}

pub fn to_ascii_lower_char(c: char) -> (r: char)
    ensures
        r == ascii_lower_char(c),
{
    if 'A' <= c && c <= 'Z' {
        let code: u8 = (c as u8) + 32;
        code as char
    } else {
        c
    }
}

/// `str::to_ascii_lowercase`.
pub open spec fn ascii_lower(s: Seq<char>) -> Seq<char> {
    s.map_values(|c: char| ascii_lower_char(c))
}

/// `str::to_ascii_lowercase`.
pub fn to_ascii_lowercase(s: &str) -> (r: String)
    ensures
        r@ == ascii_lower(s@),
{
    let v = chars_of(s);
    let mut r = String::new();
    let mut i: usize = 0;
    while i < v.len()
        invariant
            i <= v@.len(),
            v@ == s@,
            r@ == ascii_lower(s@.subrange(0, i as int)),
        decreases v@.len() - i,
    {
        push_char(&mut r, to_ascii_lower_char(v[i]));
        assert(ascii_lower(s@.subrange(0, i + 1)) =~= ascii_lower(s@.subrange(0, i as int)).push(
            ascii_lower_char(v@[i as int]),
        ));
        i = i + 1;
    }
    assert(s@.subrange(0, v@.len() as int) =~= s@);
    r
}

/// Appends one character to a string (`String::push`).
#[verifier::external_body]
pub(crate) fn push_char(s: &mut String, c: char)
    ensures
        final(s)@ == old(s)@.push(c),
{
    s.push(c);
}

/// Appends a string slice.
pub fn push_str(s: &mut String, t: &str)
    ensures
        final(s)@ == old(s)@ + t@,
{
    s.append(t);
}

/// A fresh string holding `t`.
pub fn string_from(t: &str) -> (r: String)
    ensures
        r@ == t@,
{
    String::from_str(t)
}

/// The characters of `s`, in order.
pub fn chars_of(s: &str) -> (v: Vec<char>)
    ensures
        v@ == s@,
{
    let n = s.unicode_len();
    let mut v: Vec<char> = Vec::new();
    let mut i: usize = 0;
    while i < n
        invariant
            n == s@.len(),
            i <= n,
            v@ == s@.subrange(0, i as int),
        decreases n - i,
    {
        v.push(s.get_char(i));
        i = i + 1;
    }
    assert(s@.subrange(0, n as int) =~= s@);
    v
}

/// The string made of `v[from..to]`.
pub fn string_of_range(v: &Vec<char>, from: usize, to: usize) -> (r: String)
    requires
        from <= to <= v@.len(),
    ensures
        r@ == v@.subrange(from as int, to as int),
{
    let mut r = String::new();
    let mut i = from;
    while i < to
        invariant
            from <= i <= to <= v@.len(),
            r@ == v@.subrange(from as int, i as int),
        decreases to - i,
    {
        push_char(&mut r, v[i]);
        assert(v@.subrange(from as int, i + 1) =~= v@.subrange(from as int, i as int).push(v@[i as int]));
        i = i + 1;
    }
    r
}

/// The string made of all of `v`.
pub fn string_of(v: &Vec<char>) -> (r: String)
    ensures
        r@ == v@,
{
    let r = string_of_range(v, 0, v.len());
    assert(v@.subrange(0, v@.len() as int) =~= v@);
    r
}

/// Whether two strings hold the same characters.
pub fn str_eq(a: &str, b: &str) -> (r: bool)
    ensures
        r == (a@ == b@),
{
    let av = chars_of(a);
    let bv = chars_of(b);
    if av.len() != bv.len() {
        return false;
    }
    let mut i: usize = 0;
    while i < av.len()
        invariant
            av@ == a@,
            bv@ == b@,
            av@.len() == bv@.len(),
            i <= av@.len(),
            forall|j: int| 0 <= j < i ==> av@[j] == bv@[j],
        decreases av@.len() - i,
    {
        if av[i] != bv[i] {
            return false;
        }
        i = i + 1;
    }
    assert(a@ =~= b@);
    true
}

/// Whether `s` starts with `p`.
pub open spec fn has_prefix(s: Seq<char>, p: Seq<char>) -> bool {
    p.len() <= s.len() && s.subrange(0, p.len() as int) == p
}

/// `str::starts_with` with a string pattern.
pub fn starts_with(s: &str, p: &str) -> (r: bool)
    ensures
        r == has_prefix(s@, p@),
{
    let sv = chars_of(s);
    let pv = chars_of(p);
    if pv.len() > sv.len() {
        return false;
    }
    let mut i: usize = 0;
    while i < pv.len()
        invariant
            sv@ == s@,
            pv@ == p@,
            pv@.len() <= sv@.len(),
            i <= pv@.len(),
            forall|j: int| 0 <= j < i ==> sv@[j] == pv@[j],
        decreases pv@.len() - i,
    {
        if sv[i] != pv[i] {
            assert(s@.subrange(0, p@.len() as int)[i as int] != p@[i as int]);
            return false;
        }
        i = i + 1;
    }
    assert(s@.subrange(0, p@.len() as int) =~= p@);
    true
}

/// Whether `s` contains `p` as a contiguous part.
pub open spec fn has_suffix(s: Seq<char>, p: Seq<char>) -> bool {
    p.len() <= s.len() && s.subrange(s.len() - p.len(), s.len() as int) == p
}

/// `str::ends_with` with a string pattern.
pub fn ends_with(s: &str, p: &str) -> (r: bool)
    ensures
        r == has_suffix(s@, p@),
{
    let sv = chars_of(s);
    let pv = chars_of(p);
    if pv.len() > sv.len() {
        return false;
    }
    let n = sv.len();
    let off = n - pv.len();
    let mut i: usize = 0;
    while i < pv.len()
        invariant
            n == sv@.len(),
            sv@ == s@,
            pv@ == p@,
            off == sv@.len() - pv@.len(),
            pv@.len() <= sv@.len(),
            i <= pv@.len(),
            forall|j: int| 0 <= j < i ==> sv@[off + j] == pv@[j],
        decreases pv@.len() - i,
    {
        if sv[off + i] != pv[i] {
            assert(s@.subrange(off as int, s@.len() as int)[i as int] != p@[i as int]);
            return false;
        }
        i = i + 1;
    }
    assert(s@.subrange(off as int, s@.len() as int) =~= p@);
    true
}

pub open spec fn has_infix(s: Seq<char>, p: Seq<char>) -> bool {
    exists|i: int| 0 <= i && i + p.len() <= s.len() && #[trigger] s.subrange(i, i + p.len()) == p
}

/// `str::contains` with a string pattern.
pub fn contains_str(s: &str, p: &str) -> (r: bool)
    ensures
        r == has_infix(s@, p@),
{
    let sv = chars_of(s);
    let pv = chars_of(p);
    if pv.len() == 0 {
        assert(s@.subrange(0, 0 + p@.len() as int) =~= p@);
        return true;
    }
    if pv.len() > sv.len() {
        assert forall|i: int| 0 <= i && i + p@.len() <= s@.len() implies #[trigger] s@.subrange(i, i + p@.len()) != p@ by {}
        return false;
    }
    let slen = sv.len();
    let last = slen - pv.len();
    let mut i: usize = 0;
    while i <= last
        invariant
            sv@ == s@,
            pv@ == p@,
            last == sv@.len() - pv@.len(),
            pv@.len() >= 1,
            pv@.len() <= sv@.len(),
            sv@.len() <= usize::MAX,
            i <= last + 1,
            forall|k: int| 0 <= k < i ==> #[trigger] s@.subrange(k, k + p@.len()) != p@,
        decreases last + 1 - i,
    {
        let mut j: usize = 0;
        let mut same = true;
        while j < pv.len()
            invariant
                sv@ == s@,
                pv@ == p@,
                i <= last,
                last == sv@.len() - pv@.len(),
                j <= pv@.len(),
                pv@.len() >= 1,
                i + pv@.len() <= sv@.len(),
                sv@.len() <= usize::MAX,
                same == (forall|m: int| 0 <= m < j ==> sv@[i + m] == pv@[m]),
            decreases pv@.len() - j,
        {
            if sv[i + j] != pv[j] {
                same = false;
            }
            j = j + 1;
        }
        if same {
            assert(s@.subrange(i as int, i + p@.len()) =~= p@);
            return true;
        } else {
            let ghost m = choose|m: int| 0 <= m < pv@.len() && sv@[i + m] != pv@[m];
            assert(s@.subrange(i as int, i + p@.len())[m] != p@[m]);
        }
        i = i + 1;
    }
    assert forall|k: int| 0 <= k && k + p@.len() <= s@.len() implies #[trigger] s@.subrange(k, k + p@.len()) != p@ by {
        assert(k < i);
    }
    false
}

// ---------------------------------------------------------------------------
// Whitespace trimming (`str::trim`, `str::trim_start`, `str::trim_end`).
pub open spec fn trim_start(s: Seq<char>) -> Seq<char>
    decreases s.len(),
{
    if s.len() > 0 && is_ws(s[0]) {
        trim_start(s.drop_first())
    } else {
        s
    }
}

pub open spec fn trim_end(s: Seq<char>) -> Seq<char>
    decreases s.len(),
{
    if s.len() > 0 && is_ws(s.last()) {
        trim_end(s.drop_last())
    } else {
        s
    }
}

pub open spec fn trim(s: Seq<char>) -> Seq<char> {
    trim_end(trim_start(s))
}

pub open spec fn all_ws(s: Seq<char>) -> bool {
    forall|i: int| 0 <= i < s.len() ==> is_ws(#[trigger] s[i])
}

/// `trim_start(s)` is the suffix of `s` from its first non-whitespace character.
pub proof fn lemma_trim_start_shape(s: Seq<char>) -> (a: int)
    ensures
        0 <= a <= s.len(),
        trim_start(s) == s.subrange(a, s.len() as int),
        forall|j: int| 0 <= j < a ==> is_ws(#[trigger] s[j]),
        a < s.len() ==> !is_ws(s[a]),
    decreases s.len(),
{
    if s.len() > 0 && is_ws(s[0]) {
        let a0 = lemma_trim_start_shape(s.drop_first());
        assert(s.drop_first().subrange(a0, s.len() - 1) =~= s.subrange(a0 + 1, s.len() as int));
        assert forall|j: int| 0 <= j < a0 + 1 implies is_ws(#[trigger] s[j]) by {
            if j > 0 {
                assert(s[j] == s.drop_first()[j - 1]);
            }
        }
        if a0 + 1 < s.len() {
            assert(s[a0 + 1] == s.drop_first()[a0]);
        }
        a0 + 1
    } else {
        assert(s.subrange(0, s.len() as int) =~= s);
        0
    }
}

/// `trim_end(s)` is the prefix of `s` up to its last non-whitespace character.
pub proof fn lemma_trim_end_shape(s: Seq<char>) -> (b: int)
    ensures
        0 <= b <= s.len(),
        trim_end(s) == s.subrange(0, b),
        forall|j: int| b <= j < s.len() ==> is_ws(#[trigger] s[j]),
        b > 0 ==> !is_ws(s[b - 1]),
    decreases s.len(),
{
    if s.len() > 0 && is_ws(s.last()) {
        let b0 = lemma_trim_end_shape(s.drop_last());
        assert(s.drop_last().subrange(0, b0) =~= s.subrange(0, b0));
        assert forall|j: int| b0 <= j < s.len() implies is_ws(#[trigger] s[j]) by {
            if j < s.len() - 1 {
                assert(s[j] == s.drop_last()[j]);
            }
        }
        if b0 > 0 {
            assert(s[b0 - 1] == s.drop_last()[b0 - 1]);
        }
        b0
    } else {
        assert(s.subrange(0, s.len() as int) =~= s);
        s.len() as int
    }
}

/// `trim(s)` is `s[a..b]`, whitespace outside, non-whitespace at both ends.
pub proof fn lemma_trim_shape(s: Seq<char>) -> (r: (int, int))
    ensures
        0 <= r.0 <= r.1 <= s.len(),
        trim(s) == s.subrange(r.0, r.1),
        r.0 < r.1 ==> !is_ws(s[r.0]) && !is_ws(s[r.1 - 1]),
        s.len() > 0 && !is_ws(s[0]) ==> r.0 == 0,
{
    let a = lemma_trim_start_shape(s);
    let t = s.subrange(a, s.len() as int);
    let b = lemma_trim_end_shape(t);
    assert(t.subrange(0, b) =~= s.subrange(a, a + b));
    if b > 0 {
        assert(t[0] == s[a]);
        assert(t[b - 1] == s[a + b - 1]);
    }
    if s.len() > 0 && !is_ws(s[0]) && a > 0 {
        assert(is_ws(s[0]));
    }
    (a, a + b)
}

/// A text without whitespace at either end is its own trim.
pub proof fn lemma_trim_fixed(s: Seq<char>)
    requires
        s.len() == 0 || (!is_ws(s[0]) && !is_ws(s.last())),
    ensures
        trim(s) == s,
{
    let r = lemma_trim_shape(s);
    if s.len() > 0 {
        let b = lemma_trim_end_shape(trim_start(s));
        assert(trim_start(s) =~= s);
        if b < s.len() {
            assert(is_ws(s[s.len() - 1]));
        }
        assert(s.subrange(0, s.len() as int) =~= s);
    }
}

/// Trimming twice is trimming once.
pub proof fn lemma_trim_idem(s: Seq<char>)
    ensures
        trim(trim(s)) == trim(s),
        trim(s).len() > 0 ==> !is_ws(trim(s)[0]) && !is_ws(trim(s).last()),
{
    let r = lemma_trim_shape(s);
    let t = trim(s);
    if t.len() > 0 {
        assert(t[0] == s[r.0]);
        assert(t.last() == s[r.1 - 1]);
    }
    lemma_trim_fixed(t);
}

pub proof fn lemma_trim_start_all_ws(s: Seq<char>)
    requires
        all_ws(s),
    ensures
        trim_start(s) == Seq::<char>::empty(),
    decreases s.len(),
{
    if s.len() > 0 {
        assert(is_ws(s[0]));
        assert forall|i: int| 0 <= i < s.drop_first().len() implies is_ws(
            #[trigger] s.drop_first()[i],
        ) by {
            assert(s.drop_first()[i] == s[i + 1]);
        }
        lemma_trim_start_all_ws(s.drop_first());
    }
}

proof fn lemma_trim_start_push_ws(m: Seq<char>, c: char)
    requires
        is_ws(c),
    ensures
        trim_start(m.push(c)) == (if all_ws(m) {
            Seq::<char>::empty()
        } else {
            trim_start(m).push(c)
        }),
    decreases m.len(),
{
    if m.len() == 0 {
        assert(m.push(c).drop_first() =~= Seq::<char>::empty());
        assert(m.push(c)[0] == c);
        assert(trim_start(m.push(c).drop_first()) == Seq::<char>::empty());
        assert(trim_start(m.push(c)) == Seq::<char>::empty());
    } else if !is_ws(m[0]) {
        assert(m.push(c)[0] == m[0]);
        assert(!all_ws(m));
        assert(trim_start(m) == m);
        assert(trim_start(m.push(c)) == m.push(c));
    } else {
        assert(m.push(c)[0] == m[0]);
        assert(m.push(c).drop_first() =~= m.drop_first().push(c));
        lemma_trim_start_push_ws(m.drop_first(), c);
        if all_ws(m.drop_first()) {
            assert forall|i: int| 0 <= i < m.len() implies is_ws(#[trigger] m[i]) by {
                if i > 0 {
                    assert(m[i] == m.drop_first()[i - 1]);
                }
            }
        } else {
            if all_ws(m) {
                assert forall|i: int| 0 <= i < m.drop_first().len() implies is_ws(
                    #[trigger] m.drop_first()[i],
                ) by {
                    assert(m.drop_first()[i] == m[i + 1]);
                }
            }
        }
    }
}

/// A carriage return at the end does not change the trim.
pub proof fn lemma_trim_strip_cr(l: Seq<char>)
    ensures
        trim(strip_cr(l)) == trim(l),
{
    if l.len() > 0 && l.last() == '\r' {
        let m = l.drop_last();
        assert(m.push('\r') =~= l);
        lemma_trim_start_push_ws(m, '\r');
        if all_ws(m) {
            lemma_trim_start_all_ws(m);
        } else {
            let x = trim_start(m);
            assert(x.push('\r').drop_last() =~= x);
        }
    }
}

/// Index of the first character of `v[from..to]` that is not whitespace, and
/// the proof that trimming the start of `v[from..to]` leaves `v[k..to]`.
pub fn skip_ws_start(v: &Vec<char>, from: usize, to: usize) -> (k: usize)
    requires
        from <= to <= v@.len(),
    ensures
        from <= k <= to,
        trim_start(v@.subrange(from as int, to as int)) == v@.subrange(k as int, to as int),
{
    let mut k = from;
    while k < to && whitespace(v[k])
        invariant
            from <= k <= to <= v@.len(),
            trim_start(v@.subrange(from as int, to as int)) == trim_start(
                v@.subrange(k as int, to as int),
            ),
        decreases to - k,
    {
        assert(v@.subrange(k as int, to as int).drop_first() =~= v@.subrange(k + 1, to as int));
        k = k + 1;
    }
    k
}

/// Index one past the last character of `v[from..to]` that is not
/// whitespace.
pub fn skip_ws_end(v: &Vec<char>, from: usize, to: usize) -> (k: usize)
    requires
        from <= to <= v@.len(),
    ensures
        from <= k <= to,
        trim_end(v@.subrange(from as int, to as int)) == v@.subrange(from as int, k as int),
{
    let mut k = to;
    while k > from && whitespace(v[k - 1])
        invariant
            from <= k <= to <= v@.len(),
            trim_end(v@.subrange(from as int, to as int)) == trim_end(
                v@.subrange(from as int, k as int),
            ),
        decreases k - from,
    {
        assert(v@.subrange(from as int, k as int).drop_last() =~= v@.subrange(
            from as int,
            k - 1,
        ));
        k = k - 1;
    }
    k
}

/// Bounds `(a, b)` such that `trim(v[from..to]) == v[a..b]`.
pub fn trim_bounds(v: &Vec<char>, from: usize, to: usize) -> (r: (usize, usize))
    requires
        from <= to <= v@.len(),
    ensures
        from <= r.0 <= r.1 <= to,
        trim(v@.subrange(from as int, to as int)) == v@.subrange(r.0 as int, r.1 as int),
{
    let a = skip_ws_start(v, from, to);
    let b = skip_ws_end(v, a, to);
    (a, b)
}

/// `str::trim`.
pub fn trim_str(s: &str) -> (r: String)
    ensures
        r@ == trim(s@),
{
    let v = chars_of(s);
    let (a, b) = trim_bounds(&v, 0, v.len());
    assert(v@.subrange(0, v@.len() as int) =~= v@);
    string_of_range(&v, a, b)
}

// ---------------------------------------------------------------------------
// Line splitting (`str::lines`): the text is cut after each `\n`; each piece
// loses its `\n` and then one `\r` before it; no line follows a final `\n`.
/// Index of the first `c` in `s` at or after `from`, or `s.len()`.
pub open spec fn find_char_from(s: Seq<char>, c: char, from: int) -> int
    decreases s.len() - from,
{
    if from >= s.len() {
        s.len() as int
    } else if s[from] == c {
        from
    } else {
        find_char_from(s, c, from + 1)
    }
}

pub open spec fn strip_cr(s: Seq<char>) -> Seq<char> {
    if s.len() > 0 && s.last() == '\r' {
        s.drop_last()
    } else {
        s
    }
}

pub open spec fn lines(s: Seq<char>) -> Seq<Seq<char>>
    decreases s.len(),
{
    if s.len() == 0 {
        Seq::empty()
    } else {
        let i = find_char_from(s, '\n', 0);
        proof {
            lemma_find_char_from_bounds(s, '\n', 0);
        }
        if i >= s.len() {
            seq![s]
        } else {
            seq![strip_cr(s.subrange(0, i))] + lines(s.subrange(i + 1, s.len() as int))
        }
    }
}

pub proof fn lemma_find_char_from_bounds(s: Seq<char>, c: char, from: int)
    requires
        0 <= from,
    ensures
        from <= s.len() ==> from <= find_char_from(s, c, from) <= s.len(),
        find_char_from(s, c, from) < s.len() ==> s[find_char_from(s, c, from)] == c,
        forall|j: int| from <= j < find_char_from(s, c, from) ==> s[j] != c,
    decreases s.len() - from,
{
    if from < s.len() && s[from] != c {
        lemma_find_char_from_bounds(s, c, from + 1);
    }
}

/// `find_char_from` on a suffix.
pub proof fn lemma_find_char_shift(s: Seq<char>, c: char, k: int)
    requires
        0 <= k <= s.len(),
        forall|j: int| 0 <= j < k ==> s[j] != c,
    ensures
        find_char_from(s, c, 0) == find_char_from(s, c, k),
    decreases k,
{
    if k > 0 {
        lemma_find_char_shift(s, c, k - 1);
        assert(find_char_from(s, c, k - 1) == find_char_from(s, c, k));
    }
}

/// The first line of `a + "\n" + b` is `a` (less a final `\r`) when `a` has
/// no newline.
pub proof fn lemma_lines_cons(a: Seq<char>, b: Seq<char>)
    requires
        !a.contains('\n'),
    ensures
        lines(a + seq!['\n'] + b) == seq![strip_cr(a)] + lines(b),
{
    let s = a + seq!['\n'] + b;
    lemma_find_after_prefix(a, '\n', b);
    assert(s.subrange(0, a.len() as int) =~= a);
    assert(s.subrange(a.len() + 1int, s.len() as int) =~= b);
}

/// No line holds a newline.
pub proof fn lemma_lines_no_newline(s: Seq<char>)
    ensures
        forall|i: int| 0 <= i < lines(s).len() ==> !(#[trigger] lines(s)[i]).contains('\n'),
    decreases s.len(),
{
    if s.len() > 0 {
        let i = find_char_from(s, '\n', 0);
        lemma_find_char_from_bounds(s, '\n', 0);
        if i >= s.len() {
            assert(lines(s) == seq![s]);
            if s.contains('\n') {
                let k = choose|k: int| 0 <= k < s.len() && s[k] == '\n';
                assert(s[k] != '\n');
            }
        } else {
            let first = strip_cr(s.subrange(0, i));
            let rest = s.subrange(i + 1, s.len() as int);
            lemma_lines_no_newline(rest);
            if first.contains('\n') {
                let k = choose|k: int| 0 <= k < first.len() && first[k] == '\n';
                assert(first[k] == s[k]);
            }
            assert forall|j: int| 0 <= j < lines(s).len() implies !(#[trigger] lines(s)[j]).contains(
                '\n',
            ) by {
                if j > 0 {
                    assert(lines(s)[j] == lines(rest)[j - 1]);
                }
            }
        }
    }
}

/// Locates the first `c` in `v[from..]`.
pub fn find_char(v: &Vec<char>, c: char, from: usize) -> (r: usize)
    requires
        from <= v@.len(),
    ensures
        from <= r <= v@.len(),
        r == find_char_from(v@, c, from as int),
        r < v@.len() ==> v@[r as int] == c,
        forall|j: int| from <= j < r ==> v@[j] != c,
{
    let mut i = from;
    while i < v.len() && v[i] != c
        invariant
            from <= i <= v@.len(),
            find_char_from(v@, c, from as int) == find_char_from(v@, c, i as int),
            forall|j: int| from <= j < i ==> v@[j] != c,
        decreases v@.len() - i,
    {
        i = i + 1;
    }
    i
}

/// A character-sequence form of `lines` on the part `v[from..]`.
pub open spec fn lines_from(v: Seq<char>, from: int) -> Seq<Seq<char>> {
    lines(v.subrange(from, v.len() as int))
}

/// `str::lines`: each line as its own character vector.
pub fn split_lines(s: &str) -> (r: Vec<Vec<char>>)
    ensures
        r@.map_values(|l: Vec<char>| l@) == lines(s@),
{
    let v = chars_of(s);
    let n = v.len();
    let mut out: Vec<Vec<char>> = Vec::new();
    let mut start: usize = 0;
    assert(v@.subrange(0, n as int) =~= v@);
    while start < n
        invariant
            v@ == s@,
            n == v@.len(),
            start <= n,
            out@.map_values(|l: Vec<char>| l@) + lines_from(v@, start as int) == lines(s@),
        decreases n - start,
    {
        let i = find_char(&v, '\n', start);
        let ghost rest = v@.subrange(start as int, n as int);
        proof {
            lemma_find_char_from_bounds(rest, '\n', 0);
            assert forall|j: int| 0 <= j < i - start implies rest[j] != '\n' by {
                assert(rest[j] == v@[start + j]);
            }
            if i < n {
                assert(rest[i - start] == '\n');
                lemma_find_char_shift(rest, '\n', i - start);
            } else {
                lemma_find_char_shift(rest, '\n', i - start);
            }
            assert(find_char_from(rest, '\n', 0) == i - start);
        }
        let mut end = i;
        if end > start && v[end - 1] == '\r' && i < n {
            end = end - 1;
        }
        let mut line: Vec<char> = Vec::new();
        let mut j = start;
        while j < end
            invariant
                start <= j <= end <= n,
                n == v@.len(),
                line@ == v@.subrange(start as int, j as int),
            decreases end - j,
        {
            line.push(v[j]);
            assert(v@.subrange(start as int, j + 1) =~= v@.subrange(start as int, j as int).push(v@[j as int]));
            j = j + 1;
        }
        let ghost old_out = out@.map_values(|l: Vec<char>| l@);
        out.push(line);
        proof {
            assert(out@.map_values(|l: Vec<char>| l@) =~= old_out.push(line@));
            if i < n {
                assert(rest.subrange(0, i - start) =~= v@.subrange(start as int, i as int));
                assert(rest.subrange(i - start + 1, rest.len() as int) =~= v@.subrange(i + 1, n as int));
                let piece = v@.subrange(start as int, i as int);
                if i > start && v@[i - 1] == '\r' {
                    assert(strip_cr(piece) =~= v@.subrange(start as int, end as int));
                } else {
                    assert(strip_cr(piece) =~= v@.subrange(start as int, end as int));
                }
                assert(lines(rest) == seq![strip_cr(rest.subrange(0, i - start))] + lines(rest.subrange(i - start + 1, rest.len() as int)));
                assert(old_out.push(line@) + lines_from(v@, i + 1) =~= old_out + lines(rest));
            } else {
                assert(rest =~= line@);
                assert(lines(rest) == seq![rest]);
                assert(v@.subrange(n as int, n as int).len() == 0);
                assert(lines_from(v@, n as int) =~= Seq::<Seq<char>>::empty());
                assert(old_out.push(line@) + lines_from(v@, n as int) =~= old_out + lines(rest));
            }
        }
        if i < n {
            start = i + 1;
        } else {
            start = n;
        }
    }
    assert(lines_from(v@, n as int) =~= Seq::<Seq<char>>::empty());
    assert(out@.map_values(|l: Vec<char>| l@) =~= lines(s@));
    out
}

// ---------------------------------------------------------------------------
// Lexicographic order on strings: the order of `String`'s `Ord` (byte-wise on
// UTF-8, which is the order of code points).
pub open spec fn str_less(a: Seq<char>, b: Seq<char>) -> bool
    decreases a.len(),
{
    if a.len() == 0 {
        b.len() > 0
    } else if b.len() == 0 {
        false
    } else if a[0] < b[0] {
        true
    } else if a[0] == b[0] {
        str_less(a.drop_first(), b.drop_first())
    } else {
        false
    }
}

pub proof fn lemma_str_less_irrefl(a: Seq<char>)
    ensures
        !str_less(a, a),
    decreases a.len(),
{
    if a.len() > 0 {
        lemma_str_less_irrefl(a.drop_first());
    }
}

pub proof fn lemma_str_less_trans(a: Seq<char>, b: Seq<char>, c: Seq<char>)
    requires
        str_less(a, b),
        str_less(b, c),
    ensures
        str_less(a, c),
    decreases a.len(),
{
    if a.len() > 0 && b.len() > 0 && c.len() > 0 {
        if a[0] == b[0] && b[0] == c[0] {
            lemma_str_less_trans(a.drop_first(), b.drop_first(), c.drop_first());
        }
    }
}

pub proof fn lemma_str_less_total(a: Seq<char>, b: Seq<char>)
    ensures
        a != b ==> str_less(a, b) || str_less(b, a),
        !(str_less(a, b) && str_less(b, a)),
    decreases a.len(),
{
    if a.len() > 0 && b.len() > 0 {
        lemma_str_less_total(a.drop_first(), b.drop_first());
        if a[0] == b[0] && a != b {
            assert(a.drop_first() != b.drop_first()) by {
                if a.drop_first() == b.drop_first() {
                    assert(a =~= seq![a[0]] + a.drop_first());
                    assert(b =~= seq![b[0]] + b.drop_first());
                }
            }
        }
    } else if a.len() == 0 && b.len() == 0 {
        assert(a =~= b);
    }
}

/// Exec form of `str_less` on character vectors.
pub fn chars_less(a: &Vec<char>, b: &Vec<char>) -> (r: bool)
    ensures
        r == str_less(a@, b@),
{
    let mut i: usize = 0;
    assert(a@.skip(0) =~= a@ && b@.skip(0) =~= b@);
    while i < a.len() && i < b.len() && a[i] == b[i]
        invariant
            i <= a@.len(),
            i <= b@.len(),
            str_less(a@, b@) == str_less(a@.skip(i as int), b@.skip(i as int)),
        decreases a@.len() - i,
    {
        assert(a@.skip(i as int).drop_first() =~= a@.skip(i + 1));
        assert(b@.skip(i as int).drop_first() =~= b@.skip(i + 1));
        i = i + 1;
    }
    let ghost sa = a@.skip(i as int);
    let ghost sb = b@.skip(i as int);
    if i == a.len() {
        assert(sa.len() == 0);
        i < b.len()
    } else if i == b.len() {
        assert(sb.len() == 0);
        false
    } else {
        assert(sa[0] == a@[i as int] && sb[0] == b@[i as int]);
        a[i] < b[i]
    }
}

/// `a < b` on strings.
pub fn string_less(a: &str, b: &str) -> (r: bool)
    ensures
        r == str_less(a@, b@),
{
    let av = chars_of(a);
    let bv = chars_of(b);
    chars_less(&av, &bv)
}

// ---------------------------------------------------------------------------
// Decimal rendering (`u64::to_string`).
pub open spec fn digit_char(d: nat) -> char {
    ((d + 48) as u32) as char
}

pub open spec fn decimal(n: nat) -> Seq<char>
    decreases n,
{
    if n < 10 {
        seq![digit_char(n)]
    } else {
        decimal(n / 10).push(digit_char(n % 10))
    }
}

pub fn u64_to_decimal(n: u64) -> (r: String)
    ensures
        r@ == decimal(n as nat),
{
    // `digits` holds the low-order digits, least significant first.
    let mut digits: Vec<char> = Vec::new();
    let mut m = n;
    while m >= 10
        invariant
            decimal(n as nat) == decimal(m as nat) + digits@.reverse(),
        decreases m,
    {
        let c = (((m % 10) as u8) + 48) as char;
        assert(c == digit_char((m % 10) as nat));
        let ghost before = digits@;
        digits.push(c);
        assert(digits@.reverse() =~= seq![c] + before.reverse());
        assert(decimal(m as nat) == decimal((m / 10) as nat).push(c));
        assert(decimal((m / 10) as nat).push(c) + before.reverse() =~= decimal((m / 10) as nat)
            + digits@.reverse());
        m = m / 10;
    }
    let c = ((m as u8) + 48) as char;
    assert(decimal(m as nat) == seq![c]);
    let ghost before = digits@;
    digits.push(c);
    assert(digits@.reverse() =~= seq![c] + before.reverse());
    let mut r = String::new();
    let mut i = digits.len();
    while i > 0
        invariant
            i <= digits@.len(),
            r@ == digits@.reverse().subrange(0, digits@.len() - i),
        decreases i,
    {
        i = i - 1;
        push_char(&mut r, digits[i]);
        assert(digits@.reverse().subrange(0, digits@.len() - i) =~= digits@.reverse().subrange(
            0,
            digits@.len() - i - 1,
        ).push(digits@[i as int]));
    }
    assert(digits@.reverse().subrange(0, digits@.len() as int) =~= digits@.reverse());
    r
}

// ---------------------------------------------------------------------------
// Splitting on a character (`str::split(c)`) and joining with a separator
// (`[String]::join`).
pub open spec fn split_on(s: Seq<char>, c: char) -> Seq<Seq<char>>
    decreases s.len(),
{
    let i = find_char_from(s, c, 0);
    proof {
        lemma_find_char_from_bounds(s, c, 0);
    }
    if i >= s.len() {
        seq![s]
    } else {
        seq![s.subrange(0, i)] + split_on(s.subrange(i + 1, s.len() as int), c)
    }
}

pub open spec fn join(v: Seq<Seq<char>>, sep: Seq<char>) -> Seq<char>
    decreases v.len(),
{
    if v.len() == 0 {
        Seq::empty()
    } else if v.len() == 1 {
        v[0]
    } else {
        v[0] + sep + join(v.drop_first(), sep)
    }
}

pub proof fn lemma_join_push(v: Seq<Seq<char>>, sep: Seq<char>, x: Seq<char>)
    requires
        v.len() >= 1,
    ensures
        join(v.push(x), sep) == join(v, sep) + sep + x,
    decreases v.len(),
{
    if v.len() == 1 {
        assert(v.push(x).drop_first() =~= seq![x]);
        assert(v.push(x)[0] == v[0]);
        assert(join(seq![x], sep) == x);
        assert(join(v.push(x), sep) == v[0] + sep + join(seq![x], sep));
    } else {
        assert(v.push(x).drop_first() =~= v.drop_first().push(x));
        lemma_join_push(v.drop_first(), sep, x);
        assert(v.push(x)[0] == v[0]);
        assert(join(v.push(x), sep) =~= join(v, sep) + sep + x);
    }
}

/// When `a` has no `c`, the first `c` of `a + [c] + b` is right after `a`.
pub proof fn lemma_find_after_prefix(a: Seq<char>, c: char, b: Seq<char>)
    requires
        !a.contains(c),
    ensures
        find_char_from(a + seq![c] + b, c, 0) == a.len(),
        find_char_from(a, c, 0) == a.len(),
{
    let s = a + seq![c] + b;
    lemma_find_char_from_bounds(s, c, 0);
    lemma_find_char_from_bounds(a, c, 0);
    let i = find_char_from(s, c, 0);
    if i < a.len() {
        assert(s[i] == a[i]);
        assert(a.contains(c));
    }
    assert(s[a.len() as int] == c);
    let k = find_char_from(a, c, 0);
    if k < a.len() {
        assert(a.contains(c));
    }
}

/// Splitting a join on a separator the parts do not contain gives the parts back.
pub proof fn lemma_split_join(v: Seq<Seq<char>>, c: char)
    requires
        v.len() >= 1,
        forall|i: int| 0 <= i < v.len() ==> !(#[trigger] v[i]).contains(c),
    ensures
        split_on(join(v, seq![c]), c) == v,
    decreases v.len(),
{
    if v.len() == 1 {
        lemma_find_after_prefix(v[0], c, Seq::empty());
        assert(split_on(v[0], c) == seq![v[0]]);
        assert(seq![v[0]] =~= v);
    } else {
        let rest = v.drop_first();
        assert forall|i: int| 0 <= i < rest.len() implies !(#[trigger] rest[i]).contains(c) by {
            assert(rest[i] == v[i + 1]);
        }
        lemma_split_join(rest, c);
        let s = join(v, seq![c]);
        assert(s == v[0] + seq![c] + join(rest, seq![c]));
        lemma_find_after_prefix(v[0], c, join(rest, seq![c]));
        assert(s.subrange(0, v[0].len() as int) =~= v[0]);
        assert(s.subrange(v[0].len() + 1int, s.len() as int) =~= join(rest, seq![c]));
        assert(split_on(s, c) =~= seq![v[0]] + rest);
        assert(seq![v[0]] + rest =~= v);
    }
}

/// `str::split(c)`, each part as a string.
pub fn split_char(s: &str, c: char) -> (r: Vec<String>)
    ensures
        r@.map_values(|x: String| x@) == split_on(s@, c),
{
    let v = chars_of(s);
    let n = v.len();
    let mut out: Vec<String> = Vec::new();
    let mut start: usize = 0;
    assert(v@.subrange(0, n as int) =~= v@);
    loop
        invariant
            v@ == s@,
            n == v@.len(),
            start <= n,
            out@.map_values(|x: String| x@) + split_on(v@.subrange(start as int, n as int), c)
                == split_on(s@, c),
        decreases n - start,
    {
        let i = find_char(&v, c, start);
        let ghost rest = v@.subrange(start as int, n as int);
        proof {
            lemma_find_char_from_bounds(rest, c, 0);
            assert forall|j: int| 0 <= j < i - start implies rest[j] != c by {
                assert(rest[j] == v@[start + j]);
            }
            if i < n {
                assert(rest[i - start] == c);
            }
            lemma_find_char_shift(rest, c, i - start);
        }
        let part = string_of_range(&v, start, i);
        let ghost old_out = out@.map_values(|x: String| x@);
        out.push(part);
        assert(out@.map_values(|x: String| x@) =~= old_out.push(part@));
        if i < n {
            proof {
                assert(rest.subrange(0, i - start) =~= part@);
                assert(rest.subrange(i - start + 1, rest.len() as int) =~= v@.subrange(
                    i + 1,
                    n as int,
                ));
                assert(old_out.push(part@) + split_on(v@.subrange(i + 1, n as int), c)
                    =~= old_out + split_on(rest, c));
            }
            start = i + 1;
        } else {
            proof {
                assert(rest =~= part@);
                assert(old_out.push(part@) =~= old_out + split_on(rest, c));
            }
            return out;
        }
    }
}

/// `[String]::join(sep)`.
pub fn join_strings(v: &Vec<String>, sep: &str) -> (r: String)
    ensures
        r@ == join(v@.map_values(|x: String| x@), sep@),
{
    let ghost w = v@.map_values(|x: String| x@);
    let mut r = String::new();
    if v.len() == 0 {
        assert(w.len() == 0);
        return r;
    }
    r.append(v[0].as_str());
    assert(w.take(1) =~= seq![w[0]]);
    let mut i: usize = 1;
    while i < v.len()
        invariant
            1 <= i <= v@.len(),
            w == v@.map_values(|x: String| x@),
            r@ == join(w.take(i as int), sep@),
        decreases v@.len() - i,
    {
        r.append(sep);
        r.append(v[i].as_str());
        proof {
            lemma_join_push(w.take(i as int), sep@, w[i as int]);
            assert(w.take(i + 1) =~= w.take(i as int).push(w[i as int]));
        }
        i = i + 1;
    }
    assert(w.take(v@.len() as int) =~= w);
    r
}

} // verus!
