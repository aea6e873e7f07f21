//! OAuth scope sets: a space-separated scope string parsed into a sorted set
//! of distinct scope tokens.
use vstd::prelude::*;
use crate::text::{
    ascii_alnum, chars_less, chars_of, is_ascii_alnum, join, join_strings, lemma_split_join,
    lemma_str_less_irrefl, lemma_str_less_total, lemma_str_less_trans, push_str, split_char,
    split_on, str_eq, str_less, string_from,
};

verus! {

/// A character allowed in a scope token.
pub open spec fn is_scope_char(c: char) -> bool {
    is_ascii_alnum(c) || c == ':' || c == '.' || c == '_' || c == '-'
}

pub open spec fn is_valid_scope(s: Seq<char>) -> bool {
    forall|i: int| 0 <= i < s.len() ==> is_scope_char(#[trigger] s[i])
}

pub open spec fn strictly_sorted(v: Seq<Seq<char>>) -> bool {
    forall|i: int, j: int| 0 <= i < j < v.len() ==> str_less(#[trigger] v[i], #[trigger] v[j])
}

/// What every scope set holds: valid tokens in strictly increasing order.
pub open spec fn scope_set_wf(v: Seq<Seq<char>>) -> bool {
    &&& strictly_sorted(v)
    &&& forall|i: int| 0 <= i < v.len() ==> is_valid_scope(#[trigger] v[i])
}

/// The first token of `segs` that is not a valid scope.
pub open spec fn first_invalid(segs: Seq<Seq<char>>) -> Option<Seq<char>>
    decreases segs.len(),
{
    if segs.len() == 0 {
        None
    } else if !is_valid_scope(segs[0]) {
        Some(segs[0])
    } else {
        first_invalid(segs.drop_first())
    }
}

/// The parts of a scope string.
pub open spec fn scope_segments(raw: Seq<char>) -> Seq<Seq<char>> {
    split_on(raw, ' ')
}

#[derive(Clone, Debug, PartialEq, Eq)]
pub struct ScopeSet {
    scopes: Vec<String>,
}

impl View for ScopeSet {
    type V = Seq<Seq<char>>;

    closed spec fn view(&self) -> Seq<Seq<char>> {
        self.scopes@.map_values(|s: String| s@)
    }
}

#[derive(Clone, Debug, PartialEq, Eq)]
pub enum ScopeError {
    EmptySegment,
    InvalidCharacters(String),
}

/// The mathematical form of a `ScopeError`.
pub enum ScopeFault {
    EmptySegment,
    InvalidCharacters(Seq<char>),
}

impl View for ScopeError {
    type V = ScopeFault;

    open spec fn view(&self) -> ScopeFault {
        match self {
            ScopeError::EmptySegment => ScopeFault::EmptySegment,
            ScopeError::InvalidCharacters(s) => ScopeFault::InvalidCharacters(s@),
        }
    }
}

/// What parsing a scope string gives: the set of its tokens, or the fault.
pub open spec fn scope_parse_spec(raw: Seq<char>) -> Result<Set<Seq<char>>, ScopeFault> {
    if raw.len() == 0 {
        Ok(Set::empty())
    } else if scope_segments(raw).contains(Seq::<char>::empty()) {
        Err(ScopeFault::EmptySegment)
    } else {
        match first_invalid(scope_segments(raw)) {
            Some(bad) => Err(ScopeFault::InvalidCharacters(bad)),
            None => Ok(scope_segments(raw).to_set()),
        }
    }
}

impl ScopeError {
    /// The error's message.
    pub fn message(&self) -> (r: String)
        ensures
            r@ == match self {
                ScopeError::EmptySegment => "scope string contains an empty segment"@,
                ScopeError::InvalidCharacters(s) => "scope `"@ + s@
                    + "` contains unsupported characters"@,
            },
    {
        match self {
            ScopeError::EmptySegment => string_from("scope string contains an empty segment"),
            ScopeError::InvalidCharacters(s) => {
                let mut r = string_from("scope `");
                push_str(&mut r, s.as_str());
                push_str(&mut r, "` contains unsupported characters");
                r
            },
        }
    }
}

/// Checks one scope token.
pub fn validate_scope(scope: &str) -> (r: Result<String, ScopeError>)
    ensures
        is_valid_scope(scope@) ==> (r matches Ok(s) && s@ == scope@),
        !is_valid_scope(scope@) ==> (r matches Err(ScopeError::InvalidCharacters(s)) && s@
            == scope@),
{
    let v = chars_of(scope);
    let mut i: usize = 0;
    while i < v.len()
        invariant
            v@ == scope@,
            i <= v@.len(),
            forall|j: int| 0 <= j < i ==> is_scope_char(#[trigger] v@[j]),
        decreases v@.len() - i,
    {
        let c = v[i];
        if !(ascii_alnum(c) || c == ':' || c == '.' || c == '_' || c == '-') {
            assert(!is_scope_char(scope@[i as int]));
            return Err(ScopeError::InvalidCharacters(string_from(scope)));
        }
        i = i + 1;
    }
    Ok(string_from(scope))
}

proof fn lemma_sorted_insert(v: Seq<Seq<char>>, pos: int, x: Seq<char>)
    requires
        strictly_sorted(v),
        0 <= pos <= v.len(),
        forall|i: int| 0 <= i < pos ==> str_less(#[trigger] v[i], x),
        forall|i: int| pos <= i < v.len() ==> str_less(x, #[trigger] v[i]),
    ensures
        strictly_sorted(v.insert(pos, x)),
{
    let w = v.insert(pos, x);
    assert forall|i: int, j: int| 0 <= i < j < w.len() implies str_less(
        #[trigger] w[i],
        #[trigger] w[j],
    ) by {
        if j < pos {
            assert(w[i] == v[i] && w[j] == v[j]);
        } else if j == pos {
            assert(w[i] == v[i]);
        } else if i < pos {
            assert(w[i] == v[i] && w[j] == v[j - 1]);
            lemma_str_less_trans(v[i], x, v[j - 1]);
        } else if i == pos {
            assert(w[j] == v[j - 1]);
        } else {
            assert(w[i] == v[i - 1] && w[j] == v[j - 1]);
        }
    }
}

/// Adds `s` to the strictly sorted `v` unless it is there already.
fn insert_sorted(v: &mut Vec<String>, s: String)
    requires
        strictly_sorted(old(v)@.map_values(|x: String| x@)),
    ensures
        strictly_sorted(final(v)@.map_values(|x: String| x@)),
        final(v)@.map_values(|x: String| x@).to_set() == old(v)@.map_values(|x: String| x@).to_set().insert(s@),
{
    let ghost w = old(v)@.map_values(|x: String| x@);
    let sv = chars_of(s.as_str());
    let mut pos: usize = 0;
    while pos < v.len() && chars_less(&chars_of(v[pos].as_str()), &sv)
        invariant
            v@.map_values(|x: String| x@) == w,
            sv@ == s@,
            strictly_sorted(w),
            pos <= w.len(),
            forall|i: int| 0 <= i < pos ==> str_less(#[trigger] w[i], s@),
        decreases w.len() - pos,
    {
        pos = pos + 1;
    }
    if pos < v.len() && str_eq(v[pos].as_str(), s.as_str()) {
        assert(w[pos as int] == s@);
        assert(w.to_set().insert(s@) =~= w.to_set());
        return;
    }
    proof {
        assert forall|i: int| pos <= i < w.len() implies str_less(s@, #[trigger] w[i]) by {
            assert(!str_less(w[pos as int], s@));
            lemma_str_less_total(w[pos as int], s@);
            if i > pos {
                lemma_str_less_trans(s@, w[pos as int], w[i]);
            }
        }
        lemma_sorted_insert(w, pos as int, s@);
    }
    let ghost sview = s@;
    v.insert(pos, s);
    proof {
        assert(v@.map_values(|x: String| x@) =~= w.insert(pos as int, sview));
        assert forall|y: Seq<char>| #[trigger] w.insert(pos as int, sview).to_set().contains(y)
            <==> w.to_set().insert(sview).contains(y) by {
            let u = w.insert(pos as int, sview);
            if u.contains(y) {
                let k = choose|k: int| 0 <= k < u.len() && u[k] == y;
                if k < pos {
                    assert(w[k] == y);
                } else if k > pos {
                    assert(w[k - 1] == y);
                }
            }
            if w.contains(y) {
                let k = choose|k: int| 0 <= k < w.len() && w[k] == y;
                if k < pos {
                    assert(u[k] == y);
                } else {
                    assert(u[k + 1] == y);
                }
            }
            if y == sview {
                assert(u[pos as int] == y);
            }
        }
        assert(w.insert(pos as int, sview).to_set() =~= w.to_set().insert(sview));
    }
}

impl ScopeSet {
    /// The empty scope set.
    pub fn empty() -> (r: ScopeSet)
        ensures
            r@ == Seq::<Seq<char>>::empty(),
    {
        let r = ScopeSet { scopes: Vec::new() };
        assert(r@ =~= Seq::<Seq<char>>::empty());
        r
    }

    /// Builds the set of the given tokens, each checked in order.
    fn from_segments(segs: &Vec<String>) -> (r: Result<ScopeSet, ScopeError>)
        ensures
            match first_invalid(segs@.map_values(|x: String| x@)) {
                Some(bad) => r matches Err(ScopeError::InvalidCharacters(s)) && s@ == bad,
                None => r matches Ok(set) && scope_set_wf(set@) && set@.to_set()
                    == segs@.map_values(|x: String| x@).to_set(),
            },
    {
        let ghost w = segs@.map_values(|x: String| x@);
        let mut scopes: Vec<String> = Vec::new();
        let mut i: usize = 0;
        assert(w.skip(0) =~= w);
        while i < segs.len()
            invariant
                w == segs@.map_values(|x: String| x@),
                i <= w.len(),
                first_invalid(w) == first_invalid(w.skip(i as int)),
                strictly_sorted(scopes@.map_values(|x: String| x@)),
                scopes@.map_values(|x: String| x@).to_set() == w.take(i as int).to_set(),
                forall|j: int| 0 <= j < i ==> is_valid_scope(#[trigger] w[j]),
            decreases w.len() - i,
        {
            let checked = validate_scope(segs[i].as_str());
            assert(w.skip(i as int)[0] == w[i as int]);
            match checked {
                Err(e) => {
                    return Err(e);
                },
                Ok(s) => {
                    assert(w.skip(i as int).drop_first() =~= w.skip(i + 1));
                    insert_sorted(&mut scopes, s);
                    assert(w.take(i + 1) =~= w.take(i as int).push(w[i as int]));
                    proof { w.take(i as int).lemma_push_to_set_commute(w[i as int]); }
                },
            }
            i = i + 1;
        }
        assert(w.take(w.len() as int) =~= w);
        assert(w.skip(w.len() as int).len() == 0);
        let r = ScopeSet { scopes };
        proof {
            assert forall|j: int| 0 <= j < r@.len() implies is_valid_scope(#[trigger] r@[j]) by {
                assert(r@.to_set().contains(r@[j]));
                assert(w.to_set().contains(r@[j]));
                let k = choose|k: int| 0 <= k < w.len() && w[k] == r@[j];
            }
        }
        Ok(r)
    }

    /// Parses a space-separated scope string.
    pub fn parse(raw: &str) -> (r: Result<ScopeSet, ScopeError>)
        ensures
            match scope_parse_spec(raw@) {
                Ok(set) => r matches Ok(t) && scope_set_wf(t@) && t@.to_set() == set,
                Err(f) => r matches Err(e) && e@ == f,
            },
    {
        let n = raw.unicode_len();
        if n == 0 {
            return Ok(ScopeSet::empty());
        }
        assert(raw@.len() > 0);
        assert(Seq::<Seq<char>>::empty().to_set() =~= Set::<Seq<char>>::empty());
        let segs = split_char(raw, ' ');
        let ghost w = segs@.map_values(|x: String| x@);
        let mut i: usize = 0;
        while i < segs.len()
            invariant
                w == segs@.map_values(|x: String| x@),
                w == scope_segments(raw@),
                raw@.len() > 0,
                i <= w.len(),
                forall|j: int| 0 <= j < i ==> (#[trigger] w[j]).len() > 0,
            decreases w.len() - i,
        {
            if segs[i].unicode_len() == 0 {
                assert(w[i as int] =~= Seq::<char>::empty());
                return Err(ScopeError::EmptySegment);
            }
            i = i + 1;
        }
        assert(!w.contains(Seq::<char>::empty()));
        ScopeSet::from_segments(&segs)
    }

    /// Builds the set of the given tokens, each checked in order.
    pub fn from_scopes(scopes: Vec<String>) -> (r: Result<ScopeSet, ScopeError>)
        ensures
            match first_invalid(scopes@.map_values(|x: String| x@)) {
                Some(bad) => r matches Err(ScopeError::InvalidCharacters(s)) && s@ == bad,
                None => r matches Ok(set) && scope_set_wf(set@) && set@.to_set()
                    == scopes@.map_values(|x: String| x@).to_set(),
            },
    {
        ScopeSet::from_segments(&scopes)
    }

    /// The tokens, in increasing order.
    pub fn as_slice(&self) -> (r: &[String])
        ensures
            r@.map_values(|x: String| x@) == self@,
    {
        self.scopes.as_slice()
    }

    /// Whether every token of `required` is in this set.
    pub fn contains_all(&self, required: &ScopeSet) -> (r: bool)
        ensures
            r == (forall|i: int| 0 <= i < required@.len() ==> self@.contains(#[trigger] required@[i])),
    {
        let mut i: usize = 0;
        while i < required.scopes.len()
            invariant
                i <= required@.len(),
                forall|k: int| 0 <= k < i ==> self@.contains(#[trigger] required@[k]),
            decreases required@.len() - i,
        {
            if !self.contains(required.scopes[i].as_str()) {
                assert(required@[i as int] == required.scopes@[i as int]@);
                return false;
            }
            i = i + 1;
        }
        true
    }

    /// Whether `scope` is in this set.
    pub fn contains(&self, scope: &str) -> (r: bool)
        ensures
            r == self@.contains(scope@),
    {
        let mut i: usize = 0;
        while i < self.scopes.len()
            invariant
                i <= self@.len(),
                forall|k: int| 0 <= k < i ==> self@[k] != scope@,
            decreases self@.len() - i,
        {
            if str_eq(self.scopes[i].as_str(), scope) {
                assert(self@[i as int] == scope@);
                return true;
            }
            i = i + 1;
        }
        false
    }

    pub fn is_empty(&self) -> (r: bool)
        ensures
            r == (self@.len() == 0),
    {
        self.scopes.len() == 0
    }

    /// The tokens joined by single spaces.
    pub fn as_header_value(&self) -> (r: String)
        ensures
            r@ == join(self@, seq![' ']),
    {
        let r = join_strings(&self.scopes, " ");
        proof {
            reveal_strlit(" ");
            assert(" "@ =~= seq![' ']);
        }
        r
    }

    /// A copy of this set.
    pub fn copy(&self) -> (r: ScopeSet)
        ensures
            r@ == self@,
    {
        let mut scopes: Vec<String> = Vec::new();
        let mut i: usize = 0;
        while i < self.scopes.len()
            invariant
                i <= self@.len(),
                scopes@.map_values(|x: String| x@) == self@.take(i as int),
            decreases self@.len() - i,
        {
            let ghost before = scopes@.map_values(|x: String| x@);
            scopes.push(self.scopes[i].clone());
            assert(scopes@.map_values(|x: String| x@) =~= before.push(self@[i as int]));
            assert(self@.take(i + 1) =~= self@.take(i as int).push(self@[i as int]));
            i = i + 1;
        }
        assert(self@.take(self@.len() as int) =~= self@);
        ScopeSet { scopes }
    }
}

/// Two strictly sorted sequences with the same elements are equal.
pub proof fn lemma_sorted_same_set_equal(a: Seq<Seq<char>>, b: Seq<Seq<char>>)
    requires
        strictly_sorted(a),
        strictly_sorted(b),
        a.to_set() == b.to_set(),
    ensures
        a == b,
    decreases a.len(),
{
    if a.len() == 0 {
        if b.len() > 0 {
            assert(b.to_set().contains(b[0]));
        }
        assert(b.len() == 0);
        assert(a =~= b);
    } else if b.len() == 0 {
        assert(a.to_set().contains(a[0]));
    } else {
        // the least elements agree
        assert(b.to_set().contains(a[0]));
        assert(a.to_set().contains(b[0]));
        let ia = choose|k: int| 0 <= k < a.len() && a[k] == b[0];
        let ib = choose|k: int| 0 <= k < b.len() && b[k] == a[0];
        if ia > 0 && ib > 0 {
            lemma_str_less_total(a[0], b[0]);
            assert(str_less(a[0], a[ia]));
            assert(str_less(b[0], b[ib]));
        } else if ia > 0 {
            lemma_str_less_irrefl(a[0]);
            assert(b[0] == a[0]);
        } else if ib > 0 {
            lemma_str_less_irrefl(b[0]);
        }
        assert(a[0] == b[0]);
        let ta = a.drop_first();
        let tb = b.drop_first();
        assert forall|y: Seq<char>| ta.to_set().contains(y) <==> tb.to_set().contains(y) by {
            if ta.contains(y) {
                let k = choose|k: int| 0 <= k < ta.len() && ta[k] == y;
                assert(a[k + 1] == y);
                assert(str_less(a[0], y));
                assert(b.to_set().contains(y));
                let m = choose|m: int| 0 <= m < b.len() && b[m] == y;
                if m == 0 {
                    lemma_str_less_irrefl(y);
                }
                assert(tb[m - 1] == y);
            }
            if tb.contains(y) {
                let k = choose|k: int| 0 <= k < tb.len() && tb[k] == y;
                assert(b[k + 1] == y);
                assert(str_less(b[0], y));
                assert(a.to_set().contains(y));
                let m = choose|m: int| 0 <= m < a.len() && a[m] == y;
                if m == 0 {
                    lemma_str_less_irrefl(y);
                }
                assert(ta[m - 1] == y);
            }
        }
        assert(ta.to_set() =~= tb.to_set());
        lemma_sorted_same_set_equal(ta, tb);
        assert(a =~= seq![a[0]] + ta);
        assert(b =~= seq![b[0]] + tb);
    }
}

/// Rendering a scope set as a header value and parsing it back gives the
/// same set, for sets of non-empty tokens: parsing yields exactly the set's
/// tokens, and the only sorted set with those tokens is the one rendered.
pub proof fn law_scope_header_roundtrip(v: Seq<Seq<char>>)
    requires
        scope_set_wf(v),
        forall|i: int| 0 <= i < v.len() ==> (#[trigger] v[i]).len() > 0,
    ensures
        scope_parse_spec(join(v, seq![' '])) == Ok::<Set<Seq<char>>, ScopeFault>(v.to_set()),
        forall|t: Seq<Seq<char>>|
            scope_set_wf(t) && t.to_set() == v.to_set() ==> t == v,
{
    assert forall|t: Seq<Seq<char>>| scope_set_wf(t) && t.to_set() == v.to_set() implies t == v by {
        lemma_sorted_same_set_equal(t, v);
    }
    lemma_join_nonempty(v);
    if v.len() > 0 {
        assert forall|i: int| 0 <= i < v.len() implies !(#[trigger] v[i]).contains(' ') by {
            if v[i].contains(' ') {
                let k = choose|k: int| 0 <= k < v[i].len() && v[i][k] == ' ';
                assert(is_scope_char(v[i][k]));
            }
        }
        lemma_split_join(v, ' ');
        if v.contains(Seq::<char>::empty()) {
            let k = choose|k: int| 0 <= k < v.len() && v[k] == Seq::<char>::empty();
        }
        lemma_first_invalid_none(v);
    } else {
        assert(v.to_set() =~= Set::<Seq<char>>::empty());
    }
}

proof fn lemma_join_nonempty(v: Seq<Seq<char>>)
    requires
        forall|i: int| 0 <= i < v.len() ==> (#[trigger] v[i]).len() > 0,
    ensures
        (join(v, seq![' ']).len() == 0) == (v.len() == 0),
    decreases v.len(),
{
    if v.len() > 1 {
        assert(v[0].len() > 0);
    } else if v.len() == 1 {
        assert(v[0].len() > 0);
    }
}

proof fn lemma_first_invalid_none(v: Seq<Seq<char>>)
    requires
        forall|i: int| 0 <= i < v.len() ==> is_valid_scope(#[trigger] v[i]),
    ensures
        first_invalid(v) is None,
    decreases v.len(),
{
    if v.len() > 0 {
        assert(is_valid_scope(v[0]));
        let t = v.drop_first();
        assert forall|i: int| 0 <= i < t.len() implies is_valid_scope(#[trigger] t[i]) by {
            assert(t[i] == v[i + 1]);
        }
        lemma_first_invalid_none(t);
    }
}


/// Every token written with ASCII letters, digits, `:`, `.`, `_` and `-`
/// only is a scope: a string of such tokens separated by single spaces
/// parses to the set of its tokens. Conversely every token of a parsed set
/// is written with those characters only.
pub proof fn law_scope_tokens(raw: Seq<char>)
    ensures
        (raw.len() > 0 && forall|i: int|
            0 <= i < split_on(raw, ' ').len() ==> (#[trigger] split_on(raw, ' ')[i]).len() > 0
                && forall|k: int|
                0 <= k < split_on(raw, ' ')[i].len() ==> ({
                    let c = #[trigger] split_on(raw, ' ')[i][k];
                    ('a' <= c && c <= 'z') || ('A' <= c && c <= 'Z') || ('0' <= c && c <= '9')
                        || c == ':' || c == '.' || c == '_' || c == '-'
                })) ==> scope_parse_spec(raw) == Ok::<Set<Seq<char>>, ScopeFault>(
            split_on(raw, ' ').to_set(),
        ),
        scope_parse_spec(raw) matches Ok(set) ==> forall|t: Seq<char>, k: int|
            set.contains(t) && 0 <= k < t.len() ==> ({
                let c = #[trigger] t[k];
                ('a' <= c && c <= 'z') || ('A' <= c && c <= 'Z') || ('0' <= c && c <= '9') || c
                    == ':' || c == '.' || c == '_' || c == '-'
            }),
{
    let segs = split_on(raw, ' ');
    if raw.len() > 0 && forall|i: int|
        0 <= i < segs.len() ==> (#[trigger] segs[i]).len() > 0 && forall|k: int|
            0 <= k < segs[i].len() ==> ({
                let c = #[trigger] segs[i][k];
                ('a' <= c && c <= 'z') || ('A' <= c && c <= 'Z') || ('0' <= c && c <= '9') || c
                    == ':' || c == '.' || c == '_' || c == '-'
            }) {
        if segs.contains(Seq::<char>::empty()) {
            let j = choose|j: int| 0 <= j < segs.len() && segs[j] == Seq::<char>::empty();
            assert(segs[j].len() > 0);
        }
        assert forall|i: int| 0 <= i < segs.len() implies is_valid_scope(#[trigger] segs[i]) by {
            assert forall|k: int| 0 <= k < segs[i].len() implies is_scope_char(#[trigger] segs[i][k]) by {
                let c = segs[i][k];
                assert(('a' <= c && c <= 'z') || ('A' <= c && c <= 'Z') || ('0' <= c && c <= '9')
                    || c == ':' || c == '.' || c == '_' || c == '-');
            }
        }
        lemma_first_invalid_none(segs);
    }
    if scope_parse_spec(raw) is Ok {
        let set = scope_parse_spec(raw)->Ok_0;
        if raw.len() > 0 {
            lemma_first_invalid_none_all_valid(segs);
            assert forall|t: Seq<char>, k: int| set.contains(t) && 0 <= k < t.len() implies ({
                let c = #[trigger] t[k];
                ('a' <= c && c <= 'z') || ('A' <= c && c <= 'Z') || ('0' <= c && c <= '9') || c
                    == ':' || c == '.' || c == '_' || c == '-'
            }) by {
                let j = choose|j: int| 0 <= j < segs.len() && segs[j] == t;
                assert(is_valid_scope(segs[j]));
                assert(is_scope_char(t[k]));
            }
        }
    }
}

proof fn lemma_first_invalid_none_all_valid(segs: Seq<Seq<char>>)
    ensures
        first_invalid(segs) is None ==> forall|i: int| 0 <= i < segs.len() ==> is_valid_scope(#[trigger] segs[i]),
    decreases segs.len(),
{
    if segs.len() > 0 {
        let d = segs.drop_first();
        lemma_first_invalid_none_all_valid(d);
        if first_invalid(segs) is None {
            assert forall|i: int| 0 <= i < segs.len() implies is_valid_scope(#[trigger] segs[i]) by {
                if i > 0 {
                    assert(segs[i] == d[i - 1]);
                }
            }
        }
    }
}

} // verus!
