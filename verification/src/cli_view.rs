//! What the command line shows: rows for actions, search results, protected
//! routes and OAuth status, and the plain-text tables they are printed in.
use vstd::prelude::*;
use crate::oauth::OAuthStatus;
use crate::text::{
    chars_of, join, join_strings, push_char, push_str, skip_ws_end, string_from, string_of_range,
    trim_end, u64_to_decimal, decimal,
};

verus! {

// ---------------------------------------------------------------------------
// Rows.
#[derive(Clone, Debug, PartialEq, Eq)]
pub struct GatewayActionRow {
    pub id: String,
    pub name: String,
    pub description: Option<String>,
}

#[derive(Clone, Debug, PartialEq, Eq)]
pub struct GatewaySearchRow {
    pub action_id: String,
    pub name: String,
    pub score: u16,
    pub match_kind: String,
    pub matched_fields: Vec<String>,
    pub matched_terms: Vec<String>,
    pub summary: Option<String>,
    pub truncated: bool,
}

#[derive(Clone, Debug, PartialEq, Eq)]
pub struct ProtectedRouteRow {
    pub name: String,
    pub resource_uri: String,
    pub metadata_path: String,
    pub required_scopes: Vec<String>,
    pub target: String,
}

#[derive(Clone, Debug, PartialEq, Eq)]
pub struct OAuthStatusRow {
    pub subject: String,
    pub upstream_id: String,
    pub status: String,
}

/// The lowercased name of a status.
pub open spec fn status_name(s: OAuthStatus) -> Seq<char> {
    match s {
        OAuthStatus::Disconnected => "disconnected"@,
        OAuthStatus::DiscoveryFailed => "discoveryfailed"@,
        OAuthStatus::UnsupportedProvider => "unsupportedprovider"@,
        OAuthStatus::Connected => "connected"@,
        OAuthStatus::Expiring => "expiring"@,
        OAuthStatus::Expired => "expired"@,
        OAuthStatus::RefreshFailed => "refreshfailed"@,
    }
}

// ---------------------------------------------------------------------------
// Tables.
/// The number of bytes of a character in UTF-8.
pub open spec fn char_utf8_len(c: char) -> nat {
    if (c as u32) < 0x80 {
        1
    } else if (c as u32) < 0x800 {
        2
    } else if (c as u32) < 0x10000 {
        3
    } else {
        4
    }
}

/// The number of bytes of a text in UTF-8 (`str::len`).
pub open spec fn utf8_len(s: Seq<char>) -> nat
    decreases s.len(),
{
    if s.len() == 0 {
        0
    } else {
        utf8_len(s.drop_last()) + char_utf8_len(s.last())
    }
}

/// The width of column `c`: its widest cell, header included, in bytes.
pub open spec fn col_width(headers: Seq<Seq<char>>, rows: Seq<Seq<Seq<char>>>, c: int) -> nat
    decreases rows.len(),
{
    if rows.len() == 0 {
        utf8_len(headers[c])
    } else {
        let w = col_width(headers, rows.drop_last(), c);
        let l = utf8_len(rows.last()[c]);
        if l > w {
            l
        } else {
            w
        }
    }
}

pub open spec fn repeat_char(c: char, n: nat) -> Seq<char> {
    Seq::new(n, |i: int| c)
}

/// The cells of a row, each padded with spaces to its column's width and
/// separated by two spaces.
pub open spec fn row_text(cells: Seq<Seq<char>>, widths: Seq<nat>) -> Seq<char>
    decreases cells.len(),
{
    if cells.len() == 0 {
        Seq::empty()
    } else {
        let i = cells.len() - 1;
        let c = cells.last();
        row_text(cells.drop_last(), widths) + (if i > 0 {
            "  "@
        } else {
            Seq::empty()
        }) + c + repeat_char(' ', (widths[i] - utf8_len(c)) as nat)
    }
}

/// A dash rule under each column, separated by two spaces.
pub open spec fn sep_text(widths: Seq<nat>) -> Seq<char>
    decreases widths.len(),
{
    if widths.len() == 0 {
        Seq::empty()
    } else {
        sep_text(widths.drop_last()) + (if widths.len() > 1 {
            "  "@
        } else {
            Seq::empty()
        }) + repeat_char('-', widths.last())
    }
}

pub open spec fn rows_text(rows: Seq<Seq<Seq<char>>>, widths: Seq<nat>) -> Seq<char>
    decreases rows.len(),
{
    if rows.len() == 0 {
        Seq::empty()
    } else {
        rows_text(rows.drop_last(), widths) + row_text(rows.last(), widths) + seq!['\n']
    }
}

pub open spec fn table_widths(headers: Seq<Seq<char>>, rows: Seq<Seq<Seq<char>>>) -> Seq<nat> {
    Seq::new(headers.len(), |c: int| col_width(headers, rows, c))
}

/// The table: the header row, the rule, the rows, each on its own line,
/// with trailing whitespace trimmed off the whole.
pub open spec fn table_text(headers: Seq<Seq<char>>, rows: Seq<Seq<Seq<char>>>) -> Seq<char> {
    let w = table_widths(headers, rows);
    trim_end(row_text(headers, w) + seq!['\n'] + sep_text(w) + seq!['\n'] + rows_text(rows, w))
}

pub open spec fn strs(v: Seq<String>) -> Seq<Seq<char>> {
    v.map_values(|x: String| x@)
}

pub open spec fn rows_view(rows: Seq<Vec<String>>) -> Seq<Seq<Seq<char>>> {
    rows.map_values(|r: Vec<String>| strs(r@))
}

/// Every cell's UTF-8 length fits in a `usize`, as the length of any string
/// does.
pub open spec fn cells_fit(headers: Seq<Seq<char>>, rows: Seq<Seq<Seq<char>>>) -> bool {
    &&& forall|c: int| 0 <= c < headers.len() ==> utf8_len(#[trigger] headers[c]) <= usize::MAX
    &&& forall|r: int, c: int|
        0 <= r < rows.len() && 0 <= c < headers.len() ==> utf8_len(#[trigger] rows[r][c])
            <= usize::MAX
    &&& forall|r: int| 0 <= r < rows.len() ==> (#[trigger] rows[r]).len() == headers.len()
}

proof fn lemma_utf8_len_prefix(s: Seq<char>, i: int)
    requires
        0 <= i <= s.len(),
    ensures
        utf8_len(s.subrange(0, i)) <= utf8_len(s),
    decreases s.len() - i,
{
    if i < s.len() {
        lemma_utf8_len_prefix(s, i + 1);
        assert(s.subrange(0, i + 1).drop_last() =~= s.subrange(0, i));
    } else {
        assert(s.subrange(0, i) =~= s);
    }
}

fn utf8_len_of(s: &str) -> (r: usize)
    requires
        utf8_len(s@) <= usize::MAX,
    ensures
        r == utf8_len(s@),
{
    let v = chars_of(s);
    let mut n: usize = 0;
    let mut i: usize = 0;
    while i < v.len()
        invariant
            i <= v@.len(),
            v@ == s@,
            utf8_len(s@) <= usize::MAX,
            n == utf8_len(v@.subrange(0, i as int)),
        decreases v@.len() - i,
    {
        let c = v[i];
        let k: usize = if (c as u32) < 0x80 {
            1
        } else if (c as u32) < 0x800 {
            2
        } else if (c as u32) < 0x10000 {
            3
        } else {
            4
        };
        proof {
            assert(v@.subrange(0, i + 1).drop_last() =~= v@.subrange(0, i as int));
            lemma_utf8_len_prefix(v@, i + 1);
        }
        n = n + k;
        i = i + 1;
    }
    assert(v@.subrange(0, v@.len() as int) =~= v@);
    n
}

fn push_repeat(out: &mut String, c: char, n: usize)
    ensures
        final(out)@ == old(out)@ + repeat_char(c, n as nat),
{
    let mut i: usize = 0;
    while i < n
        invariant
            i <= n,
            out@ == old(out)@ + repeat_char(c, i as nat),
        decreases n - i,
    {
        push_char(out, c);
        assert(old(out)@ + repeat_char(c, (i + 1) as nat) =~= old(out)@ + repeat_char(c, i as nat)
            + seq![c]);
        i = i + 1;
    }
}

fn push_row(out: &mut String, cells: &Vec<String>, widths: &Vec<usize>, ghost_w: Ghost<Seq<nat>>)
    requires
        cells@.len() == widths@.len(),
        ghost_w@ == widths@.map_values(|x: usize| x as nat),
        forall|c: int| 0 <= c < cells@.len() ==> utf8_len(#[trigger] cells@[c]@) <= widths@[c],
    ensures
        final(out)@ == old(out)@ + row_text(strs(cells@), ghost_w@) + seq!['\n'],
{
    let ghost cs = strs(cells@);
    let mut i: usize = 0;
    while i < cells.len()
        invariant
            i <= cells@.len(),
            cells@.len() == widths@.len(),
            cs == strs(cells@),
            ghost_w@ == widths@.map_values(|x: usize| x as nat),
            forall|c: int| 0 <= c < cells@.len() ==> utf8_len(#[trigger] cells@[c]@) <= widths@[c],
            out@ == old(out)@ + row_text(cs.take(i as int), ghost_w@),
        decreases cells@.len() - i,
    {
        if i > 0 {
            push_str(out, "  ");
        }
        push_str(out, cells[i].as_str());
        let len = utf8_len_of(cells[i].as_str());
        push_repeat(out, ' ', widths[i] - len);
        proof {
            reveal_strlit("  ");
            let t = cs.take(i + 1);
            assert(t.drop_last() =~= cs.take(i as int));
            assert(t.last() == cells@[i as int]@);
            assert(ghost_w@[i as int] == widths@[i as int] as nat);
            assert(out@ =~= old(out)@ + row_text(cs.take(i + 1), ghost_w@));
        }
        i = i + 1;
    }
    assert(cs.take(cells@.len() as int) =~= cs);
    push_char(out, '\n');
}

/// Renders a table of `headers` and `rows`.
pub fn render_table(headers: &Vec<String>, rows: &Vec<Vec<String>>) -> (r: String)
    requires
        cells_fit(strs(headers@), rows_view(rows@)),
    ensures
        r@ == table_text(strs(headers@), rows_view(rows@)),
{
    let ghost hs = strs(headers@);
    let ghost rs = rows_view(rows@);
    let n = headers.len();
    let mut widths: Vec<usize> = Vec::new();
    let mut c: usize = 0;
    while c < n
        invariant
            c <= n,
            n == headers@.len(),
            hs == strs(headers@),
            rs == rows_view(rows@),
            cells_fit(hs, rs),
            widths@.len() == c,
            forall|k: int| 0 <= k < c ==> #[trigger] widths@[k] == col_width(hs, rs.take(0), k),
        decreases n - c,
    {
        assert(hs[c as int] == headers@[c as int]@);
        let l = utf8_len_of(headers[c].as_str());
        widths.push(l);
        c = c + 1;
    }
    let mut r: usize = 0;
    while r < rows.len()
        invariant
            r <= rows@.len(),
            n == headers@.len(),
            hs == strs(headers@),
            rs == rows_view(rows@),
            cells_fit(hs, rs),
            widths@.len() == n,
            forall|k: int| 0 <= k < n ==> #[trigger] widths@[k] == col_width(hs, rs.take(r as int), k),
        decreases rows@.len() - r,
    {
        let ghost t = rs.take(r + 1);
        assert(t.drop_last() =~= rs.take(r as int));
        assert(t.last() == rs[r as int]);
        assert(rs[r as int] == strs(rows@[r as int]@));
        assert(rs[r as int].len() == n);
        let mut k: usize = 0;
        while k < n
            invariant
                k <= n,
                n == headers@.len(),
                r < rows@.len(),
                rs == rows_view(rows@),
                rs[r as int] == strs(rows@[r as int]@),
                rows@[r as int]@.len() == n,
                cells_fit(hs, rs),
                t == rs.take(r + 1),
                t.drop_last() == rs.take(r as int),
                t.last() == rs[r as int],
                widths@.len() == n,
                forall|j: int| 0 <= j < k ==> #[trigger] widths@[j] == col_width(hs, t, j),
                forall|j: int| k <= j < n ==> #[trigger] widths@[j] == col_width(hs, rs.take(r as int), j),
            decreases n - k,
        {
            assert(rs[r as int][k as int] == rows@[r as int]@[k as int]@);
            let l = utf8_len_of(rows[r][k].as_str());
            if l > widths[k] {
                widths.set(k, l);
            }
            k = k + 1;
        }
        r = r + 1;
    }
    assert(rs.take(rows@.len() as int) =~= rs);
    let ghost w = widths@.map_values(|x: usize| x as nat);
    assert(w =~= table_widths(hs, rs));
    proof {
        lemma_widths_cover(hs, rs);
    }
    let mut out = String::new();
    push_row(&mut out, headers, &widths, Ghost(w));
    let mut k: usize = 0;
    while k < n
        invariant
            k <= n,
            n == widths@.len(),
            w == widths@.map_values(|x: usize| x as nat),
            out@ == row_text(hs, w) + seq!['\n'] + sep_text(w.take(k as int)),
        decreases n - k,
    {
        if k > 0 {
            push_str(&mut out, "  ");
        }
        push_repeat(&mut out, '-', widths[k]);
        proof {
            reveal_strlit("  ");
            assert(w.take(k + 1).drop_last() =~= w.take(k as int));
            assert(w.take(k + 1).last() == widths@[k as int] as nat);
            assert(out@ =~= row_text(hs, w) + seq!['\n'] + sep_text(w.take(k + 1)));
        }
        k = k + 1;
    }
    assert(w.take(n as int) =~= w);
    push_char(&mut out, '\n');
    let mut r2: usize = 0;
    while r2 < rows.len()
        invariant
            r2 <= rows@.len(),
            n == widths@.len(),
            n == headers@.len(),
            rs == rows_view(rows@),
            cells_fit(hs, rs),
            w == widths@.map_values(|x: usize| x as nat),
            w == table_widths(hs, rs),
            forall|a: int, b: int|
                0 <= a < rs.len() && 0 <= b < hs.len() ==> utf8_len(#[trigger] rs[a][b]) <= w[b],
            out@ == row_text(hs, w) + seq!['\n'] + sep_text(w) + seq!['\n'] + rows_text(
                rs.take(r2 as int),
                w,
            ),
        decreases rows@.len() - r2,
    {
        proof {
            assert(rs[r2 as int] == strs(rows@[r2 as int]@));
            assert forall|c: int| 0 <= c < rows@[r2 as int]@.len() implies utf8_len(
                #[trigger] rows@[r2 as int]@[c]@,
            ) <= widths@[c] by {
                assert(rs[r2 as int][c] == rows@[r2 as int]@[c]@);
            }
        }
        push_row(&mut out, &rows[r2], &widths, Ghost(w));
        proof {
            assert(rs.take(r2 + 1).drop_last() =~= rs.take(r2 as int));
            assert(rs.take(r2 + 1).last() == rs[r2 as int]);
            assert(out@ =~= row_text(hs, w) + seq!['\n'] + sep_text(w) + seq!['\n'] + rows_text(
                rs.take(r2 + 1),
                w,
            ));
        }
        r2 = r2 + 1;
    }
    assert(rs.take(rows@.len() as int) =~= rs);
    let v = chars_of(out.as_str());
    let e = skip_ws_end(&v, 0, v.len());
    assert(v@.subrange(0, v@.len() as int) =~= v@);
    string_of_range(&v, 0, e)
}

proof fn lemma_col_width_ge(hs: Seq<Seq<char>>, rs: Seq<Seq<Seq<char>>>, a: int, c: int)
    requires
        0 <= a < rs.len(),
    ensures
        utf8_len(rs[a][c]) <= col_width(hs, rs, c),
    decreases rs.len(),
{
    if a < rs.len() - 1 {
        assert(rs.drop_last()[a] == rs[a]);
        lemma_col_width_ge(hs, rs.drop_last(), a, c);
    }
}

proof fn lemma_col_width_header(hs: Seq<Seq<char>>, rs: Seq<Seq<Seq<char>>>, c: int)
    ensures
        utf8_len(hs[c]) <= col_width(hs, rs, c),
    decreases rs.len(),
{
    if rs.len() > 0 {
        lemma_col_width_header(hs, rs.drop_last(), c);
    }
}

proof fn lemma_widths_cover(hs: Seq<Seq<char>>, rs: Seq<Seq<Seq<char>>>)
    ensures
        forall|a: int, b: int|
            0 <= a < rs.len() && 0 <= b < hs.len() ==> utf8_len(#[trigger] rs[a][b])
                <= table_widths(hs, rs)[b],
        forall|b: int| 0 <= b < hs.len() ==> utf8_len(#[trigger] hs[b]) <= table_widths(hs, rs)[b],
{
    assert forall|a: int, b: int|
        0 <= a < rs.len() && 0 <= b < hs.len() implies utf8_len(#[trigger] rs[a][b])
        <= table_widths(hs, rs)[b] by {
        lemma_col_width_ge(hs, rs, a, b);
    }
    assert forall|b: int| 0 <= b < hs.len() implies utf8_len(#[trigger] hs[b]) <= table_widths(
        hs,
        rs,
    )[b] by {
        lemma_col_width_header(hs, rs, b);
    }
}

// ---------------------------------------------------------------------------
// The views.
pub struct GatewayCliView;

pub open spec fn opt_or_empty(o: Option<String>) -> Seq<char> {
    match o {
        Some(s) => s@,
        None => Seq::empty(),
    }
}

pub open spec fn action_cells(row: GatewayActionRow) -> Seq<Seq<char>> {
    seq![row.id@, row.name@, opt_or_empty(row.description)]
}

pub open spec fn search_cells(row: GatewaySearchRow) -> Seq<Seq<char>> {
    seq![
        row.action_id@,
        row.name@,
        decimal(row.score as nat),
        row.match_kind@,
        join(strs(row.matched_fields@), ","@),
        opt_or_empty(row.summary),
    ]
}

pub open spec fn all_cells_fit(rows: Seq<Seq<Seq<char>>>) -> bool {
    forall|r: int, c: int|
        0 <= r < rows.len() && 0 <= c < rows[r].len() ==> utf8_len(#[trigger] rows[r][c])
            <= usize::MAX
}

fn header_row(names: &Vec<&str>) -> (r: Vec<String>)
    ensures
        strs(r@) == names@.map_values(|s: &str| s@),
{
    let mut out: Vec<String> = Vec::new();
    let mut i: usize = 0;
    while i < names.len()
        invariant
            i <= names@.len(),
            strs(out@) == names@.take(i as int).map_values(|s: &str| s@),
        decreases names@.len() - i,
    {
        let ghost o = out@;
        out.push(string_from(names[i]));
        assert(strs(out@) =~= strs(o).push(names@[i as int]@));
        assert(names@.take(i + 1).map_values(|s: &str| s@) =~= names@.take(i as int).map_values(
            |s: &str| s@,
        ).push(names@[i as int]@));
        i = i + 1;
    }
    assert(names@.take(names@.len() as int) =~= names@);
    out
}

fn opt_string(o: &Option<String>) -> (r: String)
    ensures
        r@ == opt_or_empty(*o),
{
    match o {
        Some(s) => s.clone(),
        None => String::new(),
    }
}

proof fn lemma_utf8_len_bound(s: Seq<char>)
    ensures
        utf8_len(s) <= 4 * s.len(),
    decreases s.len(),
{
    if s.len() > 0 {
        lemma_utf8_len_bound(s.drop_last());
    }
}

proof fn lemma_short_fits(s: Seq<char>)
    requires
        s.len() <= 64,
    ensures
        utf8_len(s) <= usize::MAX,
{
    lemma_utf8_len_bound(s);
}

impl GatewayCliView {
    /// The status row of one subject and upstream: no token, only the
    /// status's lowercased name.
    pub fn oauth_status(subject: &str, upstream_id: &str, status: OAuthStatus) -> (r: OAuthStatusRow)
        ensures
            r.subject@ == subject@,
            r.upstream_id@ == upstream_id@,
            r.status@ == status_name(status),
    {
        let name = match status {
            OAuthStatus::Disconnected => "disconnected",
            OAuthStatus::DiscoveryFailed => "discoveryfailed",
            OAuthStatus::UnsupportedProvider => "unsupportedprovider",
            OAuthStatus::Connected => "connected",
            OAuthStatus::Expiring => "expiring",
            OAuthStatus::Expired => "expired",
            OAuthStatus::RefreshFailed => "refreshfailed",
        };
        OAuthStatusRow {
            subject: string_from(subject),
            upstream_id: string_from(upstream_id),
            status: string_from(name),
        }
    }

    /// The actions table: id, name and description of each action.
    pub fn render_actions_table(rows: &Vec<GatewayActionRow>) -> (r: String)
        requires
            all_cells_fit(rows@.map_values(|x: GatewayActionRow| action_cells(x))),
        ensures
            r@ == table_text(
                seq!["ACTION ID"@, "NAME"@, "DESCRIPTION"@],
                rows@.map_values(|x: GatewayActionRow| action_cells(x)),
            ),
    {
        let headers = header_row(&vec!["ACTION ID", "NAME", "DESCRIPTION"]);
        let ghost want = rows@.map_values(|x: GatewayActionRow| action_cells(x));
        let mut cells: Vec<Vec<String>> = Vec::new();
        let mut i: usize = 0;
        while i < rows.len()
            invariant
                i <= rows@.len(),
                want == rows@.map_values(|x: GatewayActionRow| action_cells(x)),
                rows_view(cells@) == want.take(i as int),
            decreases rows@.len() - i,
        {
            let row = &rows[i];
            let line = vec![row.id.clone(), row.name.clone(), opt_string(&row.description)];
            let ghost o = cells@;
            cells.push(line);
            proof {
                assert(strs(line@) =~= action_cells(rows@[i as int]));
                assert(rows_view(cells@) =~= rows_view(o).push(strs(line@)));
                assert(want.take(i + 1) =~= want.take(i as int).push(want[i as int]));
            }
            i = i + 1;
        }
        proof {
            assert(want.take(rows@.len() as int) =~= want);
            reveal_strlit("ACTION ID");
            reveal_strlit("NAME");
            reveal_strlit("DESCRIPTION");
            let hs = strs(headers@);
            assert(hs =~= seq!["ACTION ID"@, "NAME"@, "DESCRIPTION"@]);
            assert forall|c: int| 0 <= c < hs.len() implies utf8_len(#[trigger] hs[c]) <= usize::MAX by {
                lemma_short_fits(hs[c]);
            }
        }
        render_table(&headers, &cells)
    }

    /// The search table: id, name, score, match kind, matched fields and
    /// summary of each result.
    pub fn render_search_table(rows: &Vec<GatewaySearchRow>) -> (r: String)
        requires
            all_cells_fit(rows@.map_values(|x: GatewaySearchRow| search_cells(x))),
        ensures
            r@ == table_text(
                seq!["ACTION ID"@, "NAME"@, "SCORE"@, "MATCH"@, "FIELDS"@, "SUMMARY"@],
                rows@.map_values(|x: GatewaySearchRow| search_cells(x)),
            ),
    {
        let headers = header_row(&vec!["ACTION ID", "NAME", "SCORE", "MATCH", "FIELDS", "SUMMARY"]);
        let ghost want = rows@.map_values(|x: GatewaySearchRow| search_cells(x));
        let mut cells: Vec<Vec<String>> = Vec::new();
        let mut i: usize = 0;
        while i < rows.len()
            invariant
                i <= rows@.len(),
                want == rows@.map_values(|x: GatewaySearchRow| search_cells(x)),
                rows_view(cells@) == want.take(i as int),
            decreases rows@.len() - i,
        {
            let row = &rows[i];
            let line = vec![
                row.action_id.clone(),
                row.name.clone(),
                u64_to_decimal(row.score as u64),
                row.match_kind.clone(),
                join_strings(&row.matched_fields, ","),
                opt_string(&row.summary),
            ];
            let ghost o = cells@;
            cells.push(line);
            proof {
                assert(strs(line@) =~= search_cells(rows@[i as int]));
                assert(rows_view(cells@) =~= rows_view(o).push(strs(line@)));
                assert(want.take(i + 1) =~= want.take(i as int).push(want[i as int]));
            }
            i = i + 1;
        }
        proof {
            assert(want.take(rows@.len() as int) =~= want);
            reveal_strlit("ACTION ID");
            reveal_strlit("NAME");
            reveal_strlit("SCORE");
            reveal_strlit("MATCH");
            reveal_strlit("FIELDS");
            reveal_strlit("SUMMARY");
            let hs = strs(headers@);
            assert(hs =~= seq!["ACTION ID"@, "NAME"@, "SCORE"@, "MATCH"@, "FIELDS"@, "SUMMARY"@]);
            assert forall|c: int| 0 <= c < hs.len() implies utf8_len(#[trigger] hs[c]) <= usize::MAX by {
                lemma_short_fits(hs[c]);
            }
        }
        render_table(&headers, &cells)
    }

    /// The table of one OAuth status row.
    pub fn render_oauth_status(row: &OAuthStatusRow) -> (r: String)
        requires
            utf8_len(row.subject@) <= usize::MAX,
            utf8_len(row.upstream_id@) <= usize::MAX,
            utf8_len(row.status@) <= usize::MAX,
        ensures
            r@ == table_text(
                seq!["SUBJECT"@, "UPSTREAM"@, "STATUS"@],
                seq![seq![row.subject@, row.upstream_id@, row.status@]],
            ),
    {
        let headers = header_row(&vec!["SUBJECT", "UPSTREAM", "STATUS"]);
        let line = vec![row.subject.clone(), row.upstream_id.clone(), row.status.clone()];
        let cells = vec![line];
        proof {
            reveal_strlit("SUBJECT");
            reveal_strlit("UPSTREAM");
            reveal_strlit("STATUS");
            let hs = strs(headers@);
            assert(hs =~= seq!["SUBJECT"@, "UPSTREAM"@, "STATUS"@]);
            assert(strs(line@) =~= seq![row.subject@, row.upstream_id@, row.status@]);
            assert(rows_view(cells@) =~= seq![seq![row.subject@, row.upstream_id@, row.status@]]);
            assert forall|c: int| 0 <= c < hs.len() implies utf8_len(#[trigger] hs[c]) <= usize::MAX by {
                lemma_short_fits(hs[c]);
            }
        }
        render_table(&headers, &cells)
    }

    /// The table of one protected route row.
    pub fn render_protected_route(row: &ProtectedRouteRow) -> (r: String)
        requires
            utf8_len(row.name@) <= usize::MAX,
            utf8_len(row.resource_uri@) <= usize::MAX,
            utf8_len(row.metadata_path@) <= usize::MAX,
            utf8_len(join(strs(row.required_scopes@), " "@)) <= usize::MAX,
            utf8_len(row.target@) <= usize::MAX,
        ensures
            r@ == table_text(
                seq!["NAME"@, "RESOURCE"@, "METADATA"@, "SCOPES"@, "TARGET"@],
                seq![
                    seq![
                        row.name@,
                        row.resource_uri@,
                        row.metadata_path@,
                        join(strs(row.required_scopes@), " "@),
                        row.target@,
                    ],
                ],
            ),
    {
        let headers = header_row(&vec!["NAME", "RESOURCE", "METADATA", "SCOPES", "TARGET"]);
        let line = vec![
            row.name.clone(),
            row.resource_uri.clone(),
            row.metadata_path.clone(),
            join_strings(&row.required_scopes, " "),
            row.target.clone(),
        ];
        let cells = vec![line];
        proof {
            reveal_strlit("NAME");
            reveal_strlit("RESOURCE");
            reveal_strlit("METADATA");
            reveal_strlit("SCOPES");
            reveal_strlit("TARGET");
            let hs = strs(headers@);
            assert(hs =~= seq!["NAME"@, "RESOURCE"@, "METADATA"@, "SCOPES"@, "TARGET"@]);
            assert(strs(line@) =~= seq![
                row.name@,
                row.resource_uri@,
                row.metadata_path@,
                join(strs(row.required_scopes@), " "@),
                row.target@,
            ]);
            assert(rows_view(cells@) =~= seq![
                seq![
                    row.name@,
                    row.resource_uri@,
                    row.metadata_path@,
                    join(strs(row.required_scopes@), " "@),
                    row.target@,
                ],
            ]);
            assert forall|c: int| 0 <= c < hs.len() implies utf8_len(#[trigger] hs[c]) <= usize::MAX by {
                lemma_short_fits(hs[c]);
            }
        }
        render_table(&headers, &cells)
    }
}

} // verus!
