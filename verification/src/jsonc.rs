//! Comments in JSON-with-comments configuration files.
use vstd::prelude::*;
use crate::text::{chars_of, find_char, find_char_from, lemma_find_char_from_bounds, push_char};

verus! {

/// The position of the first `*/` at or after `from`, or the length.
pub open spec fn find_block_end(s: Seq<char>, from: int) -> int
    decreases s.len() - from,
{
    if from + 1 >= s.len() {
        s.len() as int
    } else if s[from] == '*' && s[from + 1] == '/' {
        from
    } else {
        find_block_end(s, from + 1)
    }
}

pub proof fn lemma_block_end_bounds(s: Seq<char>, from: int)
    requires
        0 <= from,
    ensures
        from <= s.len() ==> from <= find_block_end(s, from) <= s.len(),
        find_block_end(s, from) < s.len() ==> find_block_end(s, from) + 1 < s.len(),
    decreases s.len() - from,
{
    if from + 1 < s.len() && !(s[from] == '*' && s[from + 1] == '/') {
        lemma_block_end_bounds(s, from + 1);
    }
}

/// The text with comments removed, read from the start: inside a string
/// literal every character is kept (a `\` escapes the next one); outside, a
/// `//` comment is dropped up to its newline, which is kept, and a `/* */`
/// comment is dropped whole; a comment that never ends runs to the end.
pub open spec fn strip_jsonc(s: Seq<char>, in_string: bool, escaped: bool) -> Seq<char>
    decreases s.len(),
{
    if s.len() == 0 {
        Seq::empty()
    } else if in_string {
        seq![s[0]] + strip_jsonc(
            s.drop_first(),
            escaped || s[0] != '"',
            !escaped && s[0] == '\\',
        )
    } else if s[0] == '"' {
        seq!['"'] + strip_jsonc(s.drop_first(), true, false)
    } else if s[0] == '/' && s.len() > 1 && s[1] == '/' {
        let i = find_char_from(s, '\n', 2);
        proof {
            lemma_find_char_from_bounds(s, '\n', 2);
        }
        if i >= s.len() {
            Seq::empty()
        } else {
            seq!['\n'] + strip_jsonc(s.subrange(i + 1, s.len() as int), false, false)
        }
    } else if s[0] == '/' && s.len() > 1 && s[1] == '*' {
        let i = find_block_end(s, 2);
        proof {
            lemma_block_end_bounds(s, 2);
        }
        if i >= s.len() {
            Seq::empty()
        } else {
            strip_jsonc(s.subrange(i + 2, s.len() as int), false, false)
        }
    } else {
        seq![s[0]] + strip_jsonc(s.drop_first(), false, false)
    }
}

fn find_block_end_exec(v: &Vec<char>, from: usize) -> (r: usize)
    requires
        from <= v@.len(),
    ensures
        r == find_block_end(v@, from as int),
{
    let n = v.len();
    let mut i = from;
    while i < n && i + 1 < n && !(v[i] == '*' && v[i + 1] == '/')
        invariant
            n == v@.len(),
            from <= i <= v@.len(),
            find_block_end(v@, from as int) == find_block_end(v@, i as int),
        decreases v@.len() - i,
    {
        i = i + 1;
    }
    if i >= n || i + 1 >= n {
        n
    } else {
        i
    }
}

/// Removes `//` and `/* */` comments that stand outside string literals.
pub fn strip_jsonc_comments(raw: &str) -> (r: String)
    ensures
        r@ == strip_jsonc(raw@, false, false),
{
    let v = chars_of(raw);
    let n = v.len();
    let mut out = String::new();
    let mut i: usize = 0;
    let mut in_string = false;
    let mut escaped = false;
    assert(v@.subrange(0, n as int) =~= v@);
    while i < n
        invariant
            v@ == raw@,
            n == v@.len(),
            i <= n,
            !in_string ==> !escaped,
            out@ + strip_jsonc(v@.subrange(i as int, n as int), in_string, escaped) == strip_jsonc(
                raw@,
                false,
                false,
            ),
        decreases n - i,
    {
        let ghost rest = v@.subrange(i as int, n as int);
        let ghost old_out = out@;
        let ghost old_in = in_string;
        let ghost old_esc = escaped;
        let ch = v[i];
        assert(rest[0] == ch);
        if i + 1 < n {
            assert(rest[1] == v@[i + 1]);
        }
        if in_string {
            push_char(&mut out, ch);
            let was_escaped = escaped;
            if escaped {
                escaped = false;
            } else if ch == '\\' {
                escaped = true;
            } else if ch == '"' {
                in_string = false;
            }
            assert(rest.drop_first() =~= v@.subrange(i + 1, n as int));
            assert(in_string == (was_escaped || ch != '"'));
            assert(escaped == (!was_escaped && ch == '\\'));
            assert(strip_jsonc(rest, true, was_escaped) == seq![ch] + strip_jsonc(
                v@.subrange(i + 1, n as int),
                in_string,
                escaped,
            ));
            i = i + 1;
        } else if ch == '"' {
            push_char(&mut out, ch);
            in_string = true;
            escaped = false;
            assert(rest.drop_first() =~= v@.subrange(i + 1, n as int));
            assert(strip_jsonc(rest, false, escaped) == seq![ch] + strip_jsonc(
                v@.subrange(i + 1, n as int),
                true,
                false,
            ));
            escaped = false;
            i = i + 1;
        } else if ch == '/' && i + 1 < n && v[i + 1] == '/' {
            assert(rest[1] == v@[i + 1]);
            let j = find_char(&v, '\n', i + 2);
            proof {
                lemma_find_char_from_bounds(rest, '\n', 2);
                let k = find_char_from(rest, '\n', 2);
                assert forall|m: int| i + 2 <= m < j implies v@[m] != '\n' by {}
                if k < rest.len() {
                    assert(rest[k] == v@[i + k]);
                }
                if k > j - i && j < n {
                    assert(rest[j - i] == v@[j as int]);
                }
                if k < j - i {
                    assert(rest[k] == v@[i + k]);
                }
                assert(k == j - i);
            }
            if j >= n {
                i = n;
                assert(v@.subrange(n as int, n as int) =~= Seq::<char>::empty());
            } else {
                push_char(&mut out, '\n');
                assert(rest.subrange(j - i + 1, rest.len() as int) =~= v@.subrange(
                    j + 1,
                    n as int,
                ));
                i = j + 1;
            }
        } else if ch == '/' && i + 1 < n && v[i + 1] == '*' {
            assert(rest[1] == v@[i + 1]);
            let j = find_block_end_exec(&v, i + 2);
            proof {
                lemma_block_end_bounds(v@, i + 2);
                lemma_block_end_shift(v@, i as int, i + 2);
            }
            if j >= n {
                i = n;
                assert(v@.subrange(n as int, n as int) =~= Seq::<char>::empty());
            } else {
                assert(rest.subrange(j - i + 2, rest.len() as int) =~= v@.subrange(
                    j + 2,
                    n as int,
                ));
                i = j + 2;
            }
        } else {
            push_char(&mut out, ch);
            assert(rest.drop_first() =~= v@.subrange(i + 1, n as int));
            i = i + 1;
        }
        assert(out@ + strip_jsonc(v@.subrange(i as int, n as int), in_string, escaped) =~= old_out
            + strip_jsonc(rest, old_in, old_esc));
    }
    assert(v@.subrange(n as int, n as int) =~= Seq::<char>::empty());
    out
}

/// `find_block_end` on a suffix.
proof fn lemma_block_end_shift(s: Seq<char>, k: int, from: int)
    requires
        0 <= k <= from <= s.len(),
    ensures
        find_block_end(s.subrange(k, s.len() as int), from - k) == if find_block_end(s, from) < s.len() {
            find_block_end(s, from) - k
        } else {
            s.len() - k
        },
    decreases s.len() - from,
{
    let t = s.subrange(k, s.len() as int);
    if from + 1 < s.len() {
        assert(t[from - k] == s[from]);
        assert(t[from - k + 1] == s[from + 1]);
        if !(s[from] == '*' && s[from + 1] == '/') {
            lemma_block_end_shift(s, k, from + 1);
        }
    }
}

} // verus!
