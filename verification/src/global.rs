//! `-g`/`--global`: every lane across every repository the registry knows
//! about, its snapshot cache, and the text columns it prints.

use vstd::prelude::*;
use crate::text::{
    chars_of, decimal, decimal_chars, extend_chars, extend_str, joined_with, pad_right,
    parse_u32, parse_u32_spec, push_padded, split_words, str_eq, string_of, trim_end, views,
    words, is_ws, is_ws_char, flush_word, has_prefix, has_suffix, lemma_words_of_padded, lemma_words_split,
    lemma_words_trim_end, spaces, words_from,
};

verus! {

broadcast use vstd::string::group_string_axioms;

/// How long, in seconds, the derived columns of a cached `-g` may lag
/// reality. Membership does not rely on this: lane drops the cache whenever
/// it changes which lanes exist.
pub const TTL_SECS: i64 = 120;

/// One `-g` row, exactly as `--json` prints it and the cache stores it.
#[derive(Debug, Clone)]
pub struct GlobalRow {
    pub repo: String,
    /// Absolute, because `repo` is only a directory name.
    pub repo_path: String,
    pub lane: String,
    pub path: String,
    /// Unix timestamp of the lane branch's last commit.
    pub committed_at: i64,
    /// An estimate of unshared storage; `None` when it was not measured.
    pub disk_estimate_bytes: Option<u64>,
    pub ahead: u32,
    pub behind: u32,
    pub state: String,
}

/// A row as plain values.
pub struct GlobalRowV {
    pub repo: Seq<char>,
    pub repo_path: Seq<char>,
    pub lane: Seq<char>,
    pub path: Seq<char>,
    pub committed_at: i64,
    pub disk_estimate_bytes: Option<u64>,
    pub ahead: u32,
    pub behind: u32,
    pub state: Seq<char>,
}

impl GlobalRow {
    pub open spec fn view_spec(&self) -> GlobalRowV {
        GlobalRowV {
            repo: self.repo@,
            repo_path: self.repo_path@,
            lane: self.lane@,
            path: self.path@,
            committed_at: self.committed_at,
            disk_estimate_bytes: self.disk_estimate_bytes,
            ahead: self.ahead,
            behind: self.behind,
            state: self.state@,
        }
    }

    fn copy(&self) -> (r: GlobalRow)
        ensures
            r.view_spec() == self.view_spec(),
    {
        GlobalRow {
            repo: self.repo.clone(),
            repo_path: self.repo_path.clone(),
            lane: self.lane.clone(),
            path: self.path.clone(),
            committed_at: self.committed_at,
            disk_estimate_bytes: self.disk_estimate_bytes,
            ahead: self.ahead,
            behind: self.behind,
            state: self.state.clone(),
        }
    }
}

/// Rows as plain values.
pub open spec fn row_views(rows: Seq<GlobalRow>) -> Seq<GlobalRowV> {
    rows.map_values(|r: GlobalRow| r.view_spec())
}

// ---------------------------------------------------------------------------
// Numbers git prints, and the columns made of them
// ---------------------------------------------------------------------------

/// A count read from `git rev-list --count` output, `0` when absent or not a
/// number.
pub open spec fn count_or_zero(w: Seq<Seq<char>>, i: int) -> u32 {
    if 0 <= i < w.len() {
        match parse_u32_spec(w[i]) {
            Some(v) => v,
            None => 0,
        }
    } else {
        0
    }
}

/// `git rev-list --left-right --count trunk...branch` prints
/// "<trunk-only> <branch-only>": how far the lane is behind trunk, then how
/// far it is ahead.
pub fn parse_left_right(out: &str) -> (r: (u32, u32))
    ensures
        r == (count_or_zero(words(out@), 0), count_or_zero(words(out@), 1)),
{
    let v = chars_of(out);
    let parts = split_words(&v);
    let behind = if parts.len() > 0 {
        match parse_u32(&parts[0]) {
            Some(n) => n,
            None => 0,
        }
    } else {
        0
    };
    let ahead = if parts.len() > 1 {
        match parse_u32(&parts[1]) {
            Some(n) => n,
            None => 0,
        }
    } else {
        0
    };
    (behind, ahead)
}

/// Compact "time since" for AGE, from the largest unit that is at least one:
/// minutes, hours, days, weeks, months of 30 days, years of 365 days. A
/// negative age reads as zero.
pub open spec fn age_spec(seconds: int) -> Seq<char> {
    let s: nat = if seconds < 0 {
        0
    } else {
        seconds as nat
    };
    let minutes = s / 60;
    let hours = s / 3600;
    let days = s / 86400;
    let weeks = days / 7;
    let months = days / 30;
    let years = days / 365;
    if hours < 1 {
        decimal(minutes) + "m"@
    } else if days < 1 {
        decimal(hours) + "h"@
    } else if weeks < 1 {
        decimal(days) + "d"@
    } else if months < 1 {
        decimal(weeks) + "w"@
    } else if years < 1 {
        decimal(months) + "mo"@
    } else {
        decimal(years) + "y"@
    }
}

/// Compact "time since" for AGE: `3h`, `2d`, `3w`, `4mo`, `2y`.
pub fn format_age(seconds: i64) -> (r: String)
    ensures
        r@ == age_spec(seconds as int),
{
    let s: u64 = if seconds < 0 {
        0
    } else {
        seconds as u64
    };
    let minutes = s / 60;
    let hours = s / 3600;
    let days = s / 86400;
    let weeks = days / 7;
    let months = days / 30;
    let years = days / 365;
    let (n, unit) = if hours < 1 {
        (minutes, "m")
    } else if days < 1 {
        (hours, "h")
    } else if weeks < 1 {
        (days, "d")
    } else if months < 1 {
        (weeks, "w")
    } else if years < 1 {
        (months, "mo")
    } else {
        (years, "y")
    };
    let mut out = decimal_chars(n);
    extend_str(&mut out, unit);
    string_of(&out)
}

/// `+3`, `+1 -12`, `-5`, or empty when the lane and trunk are in sync.
pub open spec fn commits_spec(ahead: u32, behind: u32) -> Seq<char> {
    if ahead == 0 && behind == 0 {
        Seq::empty()
    } else if behind == 0 {
        seq!['+'] + decimal(ahead as nat)
    } else if ahead == 0 {
        seq!['-'] + decimal(behind as nat)
    } else {
        seq!['+'] + decimal(ahead as nat) + " -"@ + decimal(behind as nat)
    }
}

/// `+3`, `+1 -12`, or empty when the lane and trunk are in sync.
pub fn format_commits(ahead: u32, behind: u32) -> (r: String)
    ensures
        r@ == commits_spec(ahead, behind),
{
    let mut out: Vec<char> = Vec::new();
    if ahead == 0 && behind == 0 {
        return string_of(&out);
    }
    if behind == 0 {
        out.push('+');
        let a = decimal_chars(ahead as u64);
        extend_chars(&mut out, &a);
    } else if ahead == 0 {
        out.push('-');
        let b = decimal_chars(behind as u64);
        extend_chars(&mut out, &b);
    } else {
        out.push('+');
        let a = decimal_chars(ahead as u64);
        extend_chars(&mut out, &a);
        extend_str(&mut out, " -");
        let b = decimal_chars(behind as u64);
        extend_chars(&mut out, &b);
    }
    assert(out@ =~= commits_spec(ahead, behind));
    string_of(&out)
}

// ---------------------------------------------------------------------------
// The text table
// ---------------------------------------------------------------------------

/// The widest entry of column `i` among `rows`.
pub open spec fn column_width(rows: Seq<Seq<Seq<char>>>, i: int) -> nat
    decreases rows.len(),
{
    if rows.len() == 0 {
        0
    } else {
        let w = column_width(rows.drop_last(), i);
        let here = rows.last()[i].len();
        if here > w {
            here
        } else {
            w
        }
    }
}

/// Every column but the last padded to its width; the last left ragged.
pub open spec fn padded_cells(cols: Seq<Seq<char>>, widths: Seq<nat>) -> Seq<Seq<char>> {
    Seq::new(
        cols.len(),
        |i: int|
            if i + 1 == cols.len() {
                cols[i]
            } else {
                pad_right(cols[i], widths[i])
            },
    )
}

/// One table line: the cells, padded, joined by single spaces, trailing
/// whitespace removed.
pub open spec fn table_line(cols: Seq<Seq<char>>, widths: Seq<nat>) -> Seq<char> {
    trim_end(joined_with(padded_cells(cols, widths), seq![' ']))
}

/// Each column widens to its longest entry, header included.
pub open spec fn table_widths(all: Seq<Seq<Seq<char>>>, n: nat) -> Seq<nat> {
    Seq::new(n, |i: int| column_width(all, i))
}

/// The header line, then one line per row.
pub open spec fn table_spec(header: Seq<Seq<char>>, cells: Seq<Seq<Seq<char>>>) -> Seq<Seq<char>> {
    let all = seq![header] + cells;
    let widths = table_widths(all, header.len());
    Seq::new(all.len(), |r: int| table_line(all[r], widths))
}

/// The widest entry of a column is at least as wide as each of its entries.
proof fn lemma_column_width_covers(rows: Seq<Seq<Seq<char>>>, i: int)
    ensures
        forall|r: int| 0 <= r < rows.len() ==> (#[trigger] rows[r])[i].len() <= column_width(rows, i),
    decreases rows.len(),
{
    if rows.len() > 0 {
        let d = rows.drop_last();
        lemma_column_width_covers(d, i);
        assert forall|r: int| 0 <= r < rows.len() implies (#[trigger] rows[r])[i].len() <= column_width(rows, i) by {
            if r < d.len() {
                assert(rows[r] == d[r]);
            }
        }
    }
}

/// The widths of a table's columns: each its widest entry, header included.
pub open spec fn header_and_cell_widths(header: Seq<Seq<char>>, cells: Seq<Seq<Seq<char>>>) -> Seq<nat> {
    table_widths(seq![header] + cells, header.len())
}

/// The table's columns line up: in the header and in every row, each cell but
/// the last is padded to its column's width, the widest entry of that column
/// (header included), so every column starts at the same place on every line.
pub proof fn table_columns_line_up(header: Seq<Seq<char>>, cells: Seq<Seq<Seq<char>>>)
    requires
        forall|k: int| 0 <= k < cells.len() ==> (#[trigger] cells[k]).len() == header.len(),
    ensures
        forall|r: int, i: int|
            0 <= r <= cells.len() && 0 <= i < header.len() - 1 ==> {
                &&& (#[trigger] padded_cells(
                    (seq![header] + cells)[r],
                    header_and_cell_widths(header, cells),
                )[i]).len() == header_and_cell_widths(header, cells)[i]
                &&& (seq![header] + cells)[r][i].len() <= header_and_cell_widths(header, cells)[i]
            },
{
    let all = seq![header] + cells;
    let widths = header_and_cell_widths(header, cells);
    assert forall|r: int, i: int| 0 <= r <= cells.len() && 0 <= i < header.len() - 1 implies {
        &&& (#[trigger] padded_cells(all[r], widths)[i]).len() == widths[i]
        &&& all[r][i].len() <= widths[i]
    } by {
        lemma_column_width_covers(all, i);
        assert(all[r][i].len() <= column_width(all, i));
        if r > 0 {
            assert(all[r] == cells[r - 1]);
        }
        assert(all[r].len() == header.len());
    }
}

/// `piece` is the word `cell` followed by whitespace alone.
pub open spec fn padded_word(piece: Seq<char>, cell: Seq<char>) -> bool {
    &&& cell.len() > 0
    &&& forall|k: int| 0 <= k < cell.len() ==> !is_ws(#[trigger] cell[k])
    &&& cell.len() <= piece.len()
    &&& piece.take(cell.len() as int) == cell
    &&& forall|k: int| cell.len() <= k < piece.len() ==> is_ws(#[trigger] piece[k])
}

/// Words padded with whitespace and joined by single spaces read back as the
/// words.
proof fn lemma_words_of_joined(pieces: Seq<Seq<char>>, cells: Seq<Seq<char>>)
    requires
        pieces.len() == cells.len(),
        forall|i: int| 0 <= i < pieces.len() ==> padded_word(#[trigger] pieces[i], cells[i]),
    ensures
        words(joined_with(pieces, seq![' '])) == cells,
    decreases pieces.len(),
{
    if pieces.len() == 0 {
        assert(words(joined_with(pieces, seq![' '])) =~= cells);
    } else {
        let n = pieces.len() - 1;
        let last = pieces[n];
        assert(padded_word(last, cells[n]));
        let pad = last.skip(cells[n].len() as int);
        assert(last =~= cells[n] + pad);
        assert forall|k: int| 0 <= k < pad.len() implies is_ws(#[trigger] pad[k]) by {
            assert(pad[k] == last[k + cells[n].len()]);
        }
        lemma_words_of_padded(cells[n], pad);
        if pieces.len() == 1 {
            assert(cells =~= seq![cells[0]]);
        } else {
            let d = pieces.drop_last();
            let dc = cells.drop_last();
            assert forall|i: int| 0 <= i < d.len() implies padded_word(#[trigger] d[i], dc[i]) by {
                assert(d[i] == pieces[i] && dc[i] == cells[i]);
            }
            lemma_words_of_joined(d, dc);
            let head = joined_with(d, seq![' ']);
            let tail = seq![' '] + last;
            assert(joined_with(pieces, seq![' ']) =~= head + tail);
            assert(is_ws(' '));
            lemma_words_split(head, tail, seq![]);
            assert(tail[0] == ' ');
            assert(tail.drop_first() =~= last);
            assert(words_from(tail, seq![]) == flush_word(seq![]) + words_from(last, seq![]));
            assert(words_from(tail, seq![]) =~= seq![cells[n]]);
            assert(dc.push(cells[n]) =~= cells);
        }
    }
}

/// The header line of a table reads, split at whitespace, as the column
/// names, whatever the rows hold: each name is padded only with spaces.
pub proof fn the_header_line_names_the_columns(header: Seq<Seq<char>>, cells: Seq<Seq<Seq<char>>>)
    requires
        forall|i: int|
            0 <= i < header.len() ==> (#[trigger] header[i]).len() > 0 && forall|k: int|
                0 <= k < header[i].len() ==> !is_ws(#[trigger] header[i][k]),
    ensures
        words(table_spec(header, cells)[0]) == header,
{
    let all = seq![header] + cells;
    let widths = table_widths(all, header.len());
    let pieces = padded_cells(header, widths);
    assert(all[0] == header);
    assert forall|i: int| 0 <= i < pieces.len() implies padded_word(#[trigger] pieces[i], header[i]) by {
        let c = header[i];
        if i + 1 == header.len() {
            assert(pieces[i] == c);
            assert(c.take(c.len() as int) =~= c);
        } else {
            let w = widths[i];
            if c.len() >= w {
                assert(pieces[i] == c);
                assert(c.take(c.len() as int) =~= c);
            } else {
                let sp = spaces((w - c.len()) as nat);
                assert(pieces[i] == c + sp);
                assert((c + sp).take(c.len() as int) =~= c);
                assert forall|k: int| c.len() <= k < (c + sp).len() implies is_ws(#[trigger] (c + sp)[k]) by {
                    assert((c + sp)[k] == ' ');
                }
            }
        }
    }
    lemma_words_of_joined(pieces, header);
    lemma_words_trim_end(joined_with(pieces, seq![' ']));
}

/// The `-g` table's first line, split at whitespace, is REPO, LANE, AGE, DISK
/// when it was asked for, COMMITS and STATE.
pub proof fn the_global_header_names_its_columns(disk: bool, cells: Seq<Seq<Seq<char>>>)
    ensures
        words(table_spec(global_header_spec(disk), cells)[0]) == global_header_spec(disk),
{
    reveal_strlit("REPO");
    reveal_strlit("LANE");
    reveal_strlit("AGE");
    reveal_strlit("DISK");
    reveal_strlit("COMMITS");
    reveal_strlit("STATE");
    let h = global_header_spec(disk);
    assert forall|i: int| 0 <= i < h.len() implies (#[trigger] h[i]).len() > 0 && forall|k: int|
        0 <= k < h[i].len() ==> !is_ws(#[trigger] h[i][k]) by {
        assert forall|k: int| 0 <= k < h[i].len() implies !is_ws(#[trigger] h[i][k]) by {
            let c = h[i][k];
            assert('A' <= c <= 'Z');
        }
    }
    the_header_line_names_the_columns(h, cells);
}

fn trim_end_chars(v: Vec<char>) -> (r: Vec<char>)
    ensures
        r@ == trim_end(v@),
{
    let mut n: usize = v.len();
    assert(v@.take(n as int) =~= v@);
    while n > 0 && is_ws_char(v[n - 1])
        invariant
            n <= v.len(),
            trim_end(v@) == trim_end(v@.take(n as int)),
        decreases n,
    {
        assert(v@.take(n as int).drop_last() =~= v@.take(n - 1));
        n = n - 1;
    }
    let r = crate::text::prefix_to(&v, n);
    assert(r@.len() == 0 || !is_ws(r@.last()));
    r
}

fn render_line(cols: &Vec<String>, widths: &Vec<usize>) -> (r: String)
    requires
        widths.len() == cols.len(),
    ensures
        r@ == table_line(cols.deep_view(), widths@.map_values(|w: usize| w as nat)),
{
    let ghost c = cols.deep_view();
    let ghost wv = widths@.map_values(|w: usize| w as nat);
    let ghost cells = padded_cells(c, wv);
    let mut out: Vec<char> = Vec::new();
    let mut i: usize = 0;
    assert(cells.take(0) =~= Seq::<Seq<char>>::empty());
    while i < cols.len()
        invariant
            i <= cols.len(),
            widths.len() == cols.len(),
            c == cols.deep_view(),
            wv == widths@.map_values(|w: usize| w as nat),
            cells == padded_cells(c, wv),
            out@ == joined_with(cells.take(i as int), seq![' ']),
        decreases cols.len() - i,
    {
        assert(cells.take(i + 1).drop_last() =~= cells.take(i as int));
        let cell = chars_of(cols[i].as_str());
        assert(cell@ == c[i as int]);
        if i > 0 {
            out.push(' ');
        }
        let ghost before = out@;
        if i + 1 == cols.len() {
            extend_chars(&mut out, &cell);
        } else {
            push_padded(&mut out, &cell, widths[i]);
        }
        assert(cells.take(i + 1).last() == cells[i as int]);
        i = i + 1;
    }
    assert(cells.take(cols.len() as int) =~= cells);
    let t = trim_end_chars(out);
    string_of(&t)
}

/// The widths of `rows`' first `n` columns.
fn widths_of(rows: &Vec<Vec<String>>, n: usize) -> (r: Vec<usize>)
    requires
        forall|k: int| 0 <= k < rows.len() ==> (#[trigger] rows@[k]).len() == n,
    ensures
        r@.map_values(|w: usize| w as nat) == table_widths(
            rows@.map_values(|row: Vec<String>| row.deep_view()),
            n as nat,
        ),
        r.len() == n,
{
    let ghost all = rows@.map_values(|row: Vec<String>| row.deep_view());
    let mut out: Vec<usize> = Vec::new();
    let mut i: usize = 0;
    while i < n
        invariant
            i <= n,
            all == rows@.map_values(|row: Vec<String>| row.deep_view()),
            forall|k: int| 0 <= k < rows.len() ==> (#[trigger] rows@[k]).len() == n,
            out.len() == i,
            forall|j: int| 0 <= j < i ==> out@[j] as nat == column_width(all, j),
        decreases n - i,
    {
        let mut w: usize = 0;
        let mut r: usize = 0;
        assert(all.take(0) =~= Seq::<Seq<Seq<char>>>::empty());
        while r < rows.len()
            invariant
                r <= rows.len(),
                i < n,
                all == rows@.map_values(|row: Vec<String>| row.deep_view()),
                forall|k: int| 0 <= k < rows.len() ==> (#[trigger] rows@[k]).len() == n,
                w as nat == column_width(all.take(r as int), i as int),
            decreases rows.len() - r,
        {
            assert(all.take(r + 1).drop_last() =~= all.take(r as int));
            assert(all.take(r + 1).last() == rows@[r as int].deep_view());
            let cell = chars_of(rows[r][i].as_str());
            assert(all.take(r + 1).last()[i as int] == cell@);
            if cell.len() > w {
                w = cell.len();
            }
            r = r + 1;
        }
        assert(all.take(rows.len() as int) =~= all);
        out.push(w);
        i = i + 1;
    }
    assert(out@.map_values(|w: usize| w as nat) =~= table_widths(all, n as nat));
    out
}

fn copy_strings(v: &Vec<String>) -> (r: Vec<String>)
    ensures
        r@ == v@,
{
    let mut out: Vec<String> = Vec::new();
    let mut i: usize = 0;
    while i < v.len()
        invariant
            i <= v.len(),
            out@ == v@.take(i as int),
        decreases v.len() - i,
    {
        out.push(v[i].clone());
        assert(out@ =~= v@.take(i + 1));
        i = i + 1;
    }
    assert(v@.take(v.len() as int) =~= v@);
    out
}

/// Renders a table: each column widens to its longest entry, header
/// included, the last column is left ragged, and each line loses its
/// trailing whitespace.
pub fn render_table(header: &Vec<String>, cells: &Vec<Vec<String>>) -> (r: Vec<String>)
    requires
        forall|k: int| 0 <= k < cells.len() ==> (#[trigger] cells@[k]).len() == header.len(),
    ensures
        r.deep_view() == table_spec(
            header.deep_view(),
            cells@.map_values(|row: Vec<String>| row.deep_view()),
        ),
{
    let mut all: Vec<Vec<String>> = Vec::new();
    all.push(copy_strings(header));
    let mut k: usize = 0;
    while k < cells.len()
        invariant
            k <= cells.len(),
            all.len() == k + 1,
            all@[0]@ == header@,
            forall|j: int| 0 < j < all.len() ==> (#[trigger] all@[j])@ == cells@[j - 1]@,
            forall|j: int| 0 <= j < cells.len() ==> (#[trigger] cells@[j]).len() == header.len(),
        decreases cells.len() - k,
    {
        all.push(copy_strings(&cells[k]));
        k = k + 1;
    }
    let ghost allv = all@.map_values(|row: Vec<String>| row.deep_view());
    let ghost spec_all = seq![header.deep_view()] + cells@.map_values(|row: Vec<String>| row.deep_view());
    assert forall|j: int| 0 <= j < allv.len() implies #[trigger] allv[j] == spec_all[j] by {
        if j == 0 {
            assert(all@[0]@ == header@);
            assert(allv[0] =~= header.deep_view());
        } else {
            assert(all@[j]@ == cells@[j - 1]@);
            assert(allv[j] =~= cells@[j - 1].deep_view());
        }
    }
    assert(allv =~= spec_all);
    assert forall|j: int| 0 <= j < all.len() implies (#[trigger] all@[j]).len() == header.len() by {
        if j > 0 {
            assert(all@[j]@ == cells@[j - 1]@);
        }
    }
    let widths = widths_of(&all, header.len());
    let mut out: Vec<String> = Vec::new();
    let mut r: usize = 0;
    while r < all.len()
        invariant
            r <= all.len(),
            widths.len() == header.len(),
            allv == all@.map_values(|row: Vec<String>| row.deep_view()),
            widths@.map_values(|w: usize| w as nat) == table_widths(allv, header.len() as nat),
            forall|j: int| 0 <= j < all.len() ==> (#[trigger] all@[j]).len() == header.len(),
            out.len() == r,
            forall|j: int|
                0 <= j < r ==> (#[trigger] out@[j])@ == table_line(
                    allv[j],
                    table_widths(allv, header.len() as nat),
                ),
        decreases all.len() - r,
    {
        let line = render_line(&all[r], &widths);
        out.push(line);
        r = r + 1;
    }
    assert(out.deep_view() =~= table_spec(
        header.deep_view(),
        cells@.map_values(|row: Vec<String>| row.deep_view()),
    ));
    out
}

/// One row's cells: REPO, LANE, AGE, then DISK when asked for, then COMMITS
/// and STATE.
pub open spec fn global_cells_spec(row: GlobalRowV, disk_cell: Option<Seq<char>>, now: i64) -> Seq<
    Seq<char>,
> {
    seq![row.repo, row.lane, age_spec(now - row.committed_at)] + (match disk_cell {
        Some(d) => seq![d],
        None => Seq::empty(),
    }) + seq![commits_spec(row.ahead, row.behind), row.state]
}

/// The column headers, DISK only when asked for.
pub open spec fn global_header_spec(disk: bool) -> Seq<Seq<char>> {
    seq!["REPO"@, "LANE"@, "AGE"@] + (if disk {
        seq!["DISK"@]
    } else {
        Seq::empty()
    }) + seq!["COMMITS"@, "STATE"@]
}

/// The COMMITS cell of a `-g` row shows any divergence from trunk: it is
/// empty exactly when the lane is in sync, begins `+<ahead>` when the lane is
/// ahead, and ends `-<behind>` when it is behind. It sits just before STATE,
/// after DISK when that column was asked for.
pub proof fn the_commits_cell_shows_any_divergence(
    row: GlobalRowV,
    disk_cell: Option<Seq<char>>,
    now: i64,
)
    ensures
        ({
            let c = global_cells_spec(row, disk_cell, now);
            let k: int = if disk_cell is Some {
                4
            } else {
                3
            };
            &&& c.len() == k + 2
            &&& c[k + 1] == row.state
            &&& (c[k].len() == 0 <==> row.ahead == 0 && row.behind == 0)
            &&& row.ahead > 0 ==> has_prefix(c[k], seq!['+'] + decimal(row.ahead as nat))
            &&& row.behind > 0 ==> has_suffix(c[k], seq!['-'] + decimal(row.behind as nat))
        }),
{
    reveal_strlit(" -");
    let c = global_cells_spec(row, disk_cell, now);
    let k: int = if disk_cell is Some {
        4
    } else {
        3
    };
    let m = commits_spec(row.ahead, row.behind);
    assert(c[k] == m);
    assert(c[k + 1] == row.state);
    let a = seq!['+'] + decimal(row.ahead as nat);
    let b = seq!['-'] + decimal(row.behind as nat);
    if row.ahead > 0 && row.behind > 0 {
        assert(m =~= a + (seq![' '] + b));
        assert(m.take(a.len() as int) =~= a);
        assert(m.skip(m.len() - b.len()) =~= b);
    } else if row.ahead > 0 {
        assert(m.take(a.len() as int) =~= a);
    } else if row.behind > 0 {
        assert(m.skip(m.len() - b.len()) =~= b);
    }
    if row.ahead > 0 || row.behind > 0 {
        assert(m.len() > 0);
    }
}

/// The `-g` table. `disk_cells`, when DISK was asked for, holds each row's
/// already formatted estimate (empty where none was measured); a header with
/// nothing under it is worse than no header, so without it there is no DISK
/// column. `now` is the current Unix time, from which AGE is counted.
pub fn format_global_rows(rows: &Vec<GlobalRow>, disk_cells: &Option<Vec<String>>, now: i64) -> (r: Vec<String>)
    requires
        forall|i: int| 0 <= i < rows.len() ==> i64::MIN <= now - (#[trigger] rows@[i]).committed_at <= i64::MAX,
        disk_cells matches Some(d) ==> d.len() == rows.len(),
    ensures
        r.deep_view() == table_spec(
            global_header_spec(disk_cells is Some),
            Seq::new(
                rows.len() as nat,
                |i: int|
                    global_cells_spec(
                        rows@[i].view_spec(),
                        match disk_cells {
                            Some(d) => Some(d@[i]@),
                            None => None,
                        },
                        now,
                    ),
            ),
        ),
{
    let disk = disk_cells.is_some();
    let mut header: Vec<String> = Vec::new();
    header.push("REPO".to_owned());
    header.push("LANE".to_owned());
    header.push("AGE".to_owned());
    if disk {
        header.push("DISK".to_owned());
    }
    header.push("COMMITS".to_owned());
    header.push("STATE".to_owned());
    assert(header.deep_view() =~= global_header_spec(disk));
    let ghost want = Seq::new(
        rows.len() as nat,
        |i: int|
            global_cells_spec(
                rows@[i].view_spec(),
                match disk_cells {
                    Some(d) => Some(d@[i]@),
                    None => None,
                },
                now,
            ),
    );
    let mut cells: Vec<Vec<String>> = Vec::new();
    let mut i: usize = 0;
    while i < rows.len()
        invariant
            i <= rows.len(),
            disk == disk_cells is Some,
            disk_cells matches Some(d) ==> d.len() == rows.len(),
            header.len() == if disk { 6nat } else { 5nat },
            forall|k: int| 0 <= k < rows.len() ==> i64::MIN <= now - (#[trigger] rows@[k]).committed_at <= i64::MAX,
            cells.len() == i,
            want == Seq::new(
                rows.len() as nat,
                |i: int|
                    global_cells_spec(
                        rows@[i].view_spec(),
                        match disk_cells {
                            Some(d) => Some(d@[i]@),
                            None => None,
                        },
                        now,
                    ),
            ),
            forall|k: int| 0 <= k < i ==> (#[trigger] cells@[k]).deep_view() == want[k],
            forall|k: int| 0 <= k < i ==> (#[trigger] cells@[k]).len() == header.len(),
        decreases rows.len() - i,
    {
        let row = &rows[i];
        let mut cols: Vec<String> = Vec::new();
        cols.push(row.repo.clone());
        cols.push(row.lane.clone());
        cols.push(format_age(now - row.committed_at));
        match disk_cells {
            Some(d) => {
                cols.push(d[i].clone());
            },
            None => {},
        }
        cols.push(format_commits(row.ahead, row.behind));
        cols.push(row.state.clone());
        let ghost dc = match disk_cells {
            Some(d) => Some(d@[i as int]@),
            None => None,
        };
        assert(want[i as int] == global_cells_spec(rows@[i as int].view_spec(), dc, now));
        assert(cols.deep_view() =~= global_cells_spec(rows@[i as int].view_spec(), dc, now));
        cells.push(cols);
        i = i + 1;
    }
    assert(cells@.map_values(|row: Vec<String>| row.deep_view()) =~= want);
    render_table(&header, &cells)
}

// ---------------------------------------------------------------------------
// The cache, and what `-g` makes of it
// ---------------------------------------------------------------------------

/// A snapshot written at `generated_at` is still fresh at `now`: at most
/// [`TTL_SECS`] seconds old.
pub fn is_fresh(generated_at: i64, now: i64) -> (r: bool)
    ensures
        r == (now - generated_at <= TTL_SECS),
{
    (now as i128) - (generated_at as i128) <= (TTL_SECS as i128)
}

/// Whether any row lacks a disk estimate.
fn any_unmeasured(rows: &Vec<GlobalRow>) -> (r: bool)
    ensures
        r == exists|i: int| 0 <= i < rows.len() && (#[trigger] rows@[i]).disk_estimate_bytes is None,
{
    let mut i: usize = 0;
    while i < rows.len()
        invariant
            i <= rows.len(),
            forall|j: int| 0 <= j < i ==> (#[trigger] rows@[j]).disk_estimate_bytes is Some,
        decreases rows.len() - i,
    {
        if rows[i].disk_estimate_bytes.is_none() {
            return true;
        }
        i = i + 1;
    }
    false
}

/// The rows whose repository is still registered.
pub open spec fn live_rows(rows: Seq<GlobalRowV>, live: Seq<Seq<char>>) -> Seq<GlobalRowV>
    decreases rows.len(),
{
    if rows.len() == 0 {
        Seq::empty()
    } else {
        live_rows(rows.drop_last(), live) + if live.contains(rows.last().repo_path) {
            seq![rows.last()]
        } else {
            Seq::empty()
        }
    }
}

/// What `-g` takes from the cache: nothing under `--refresh`; nothing when a
/// cached row set without estimates meets `--disk` (it cannot answer it);
/// otherwise the cached rows whose repository is still registered (`live`
/// holds the registered roots as text). `None` means compute afresh.
pub open spec fn cached_rows_spec(
    cached: Option<Seq<GlobalRowV>>,
    refresh: bool,
    disk: bool,
    live: Seq<Seq<char>>,
) -> Option<Seq<GlobalRowV>> {
    if refresh {
        None
    } else {
        match cached {
            None => None,
            Some(rows) => if disk && exists|i: int|
                0 <= i < rows.len() && (#[trigger] rows[i]).disk_estimate_bytes is None {
                None
            } else {
                Some(live_rows(rows, live))
            },
        }
    }
}

fn registered_root(live: &Vec<String>, repo_path: &String) -> (r: bool)
    ensures
        r == live.deep_view().contains(repo_path@),
{
    let mut i: usize = 0;
    while i < live.len()
        invariant
            i <= live.len(),
            forall|j: int| 0 <= j < i ==> live@[j]@ != repo_path@,
        decreases live.len() - i,
    {
        if str_eq(live[i].as_str(), repo_path.as_str()) {
            assert(live.deep_view()[i as int] == repo_path@);
            return true;
        }
        i = i + 1;
    }
    assert forall|j: int| 0 <= j < live.deep_view().len() implies live.deep_view()[j] != repo_path@ by {
        assert(live.deep_view()[j] == live@[j]@);
    }
    false
}

/// What `-g` takes from the cache, if anything.
pub fn cached_rows(cached: Option<Vec<GlobalRow>>, refresh: bool, disk: bool, live: &Vec<String>) -> (r: Option<Vec<GlobalRow>>)
    ensures
        match cached_rows_spec(
            match cached {
                Some(rows) => Some(row_views(rows@)),
                None => None,
            },
            refresh,
            disk,
            live.deep_view(),
        ) {
            None => r is None,
            Some(v) => r matches Some(rows) && row_views(rows@) == v,
        },
{
    if refresh {
        return None;
    }
    let rows = match cached {
        None => {
            return None;
        },
        Some(rows) => rows,
    };
    if disk && any_unmeasured(&rows) {
        proof {
            let i = choose|i: int| 0 <= i < rows.len() && (#[trigger] rows@[i]).disk_estimate_bytes is None;
            assert(row_views(rows@)[i].disk_estimate_bytes is None);
        }
        return None;
    }
    proof {
        if disk {
            assert forall|i: int| 0 <= i < row_views(rows@).len() implies (#[trigger] row_views(rows@)[i]).disk_estimate_bytes is Some by {
                assert(row_views(rows@)[i] == rows@[i].view_spec());
            }
        }
    }
    let ghost all = row_views(rows@);
    let mut out: Vec<GlobalRow> = Vec::new();
    let mut i: usize = 0;
    assert(all.take(0) =~= Seq::<GlobalRowV>::empty());
    assert(row_views(out@) =~= Seq::<GlobalRowV>::empty());
    while i < rows.len()
        invariant
            i <= rows.len(),
            all == row_views(rows@),
            row_views(out@) == live_rows(all.take(i as int), live.deep_view()),
        decreases rows.len() - i,
    {
        assert(all.take(i + 1).drop_last() =~= all.take(i as int));
        assert(all.take(i + 1).last() == rows@[i as int].view_spec());
        let ghost before = row_views(out@);
        if registered_root(live, &rows[i].repo_path) {
            out.push(rows[i].copy());
            assert(row_views(out@) =~= before.push(rows@[i as int].view_spec()));
        }
        i = i + 1;
    }
    assert(all.take(rows.len() as int) =~= all);
    Some(out)
}

/// The live rows are rows of the set, each of a registered repository.
proof fn lemma_live_rows(rows: Seq<GlobalRowV>, live: Seq<Seq<char>>)
    ensures
        forall|i: int|
            0 <= i < live_rows(rows, live).len() ==> live.contains(
                (#[trigger] live_rows(rows, live)[i]).repo_path,
            ) && exists|k: int| 0 <= k < rows.len() && rows[k] == live_rows(rows, live)[i],
    decreases rows.len(),
{
    if rows.len() > 0 {
        let d = rows.drop_last();
        lemma_live_rows(d, live);
        let t = live_rows(d, live);
        let r = live_rows(rows, live);
        assert forall|i: int| 0 <= i < r.len() implies live.contains((#[trigger] r[i]).repo_path)
            && exists|k: int| 0 <= k < rows.len() && rows[k] == r[i] by {
            if i < t.len() {
                assert(r[i] == t[i]);
                let k = choose|k: int| 0 <= k < d.len() && d[k] == t[i];
                assert(rows[k] == d[k]);
            } else {
                assert(r[i] == rows.last());
                assert(rows[rows.len() - 1] == r[i]);
            }
        }
    }
}

/// The cache answers `-g` only when it may: never under `--refresh`, never
/// for `--disk` with a row it did not measure, and never with a row of a
/// repository that is no longer registered.
pub proof fn the_cache_answers_only_for_what_it_holds(
    cached: Option<Seq<GlobalRowV>>,
    refresh: bool,
    disk: bool,
    live: Seq<Seq<char>>,
)
    ensures
        cached_rows_spec(cached, refresh, disk, live) matches Some(rows) ==> {
            &&& !refresh
            &&& forall|i: int| 0 <= i < rows.len() ==> live.contains((#[trigger] rows[i]).repo_path)
            &&& disk ==> forall|i: int| 0 <= i < rows.len() ==> (#[trigger] rows[i]).disk_estimate_bytes is Some
        },
{
    if let Some(all) = cached {
        lemma_live_rows(all, live);
        if !refresh && !(disk && exists|i: int|
            0 <= i < all.len() && (#[trigger] all[i]).disk_estimate_bytes is None) {
            let rows = live_rows(all, live);
            assert forall|i: int| 0 <= i < rows.len() && disk implies (#[trigger] rows[i]).disk_estimate_bytes is Some by {
                let k = choose|k: int| 0 <= k < all.len() && all[k] == rows[i];
                assert(all[k].disk_estimate_bytes is Some);
            }
        }
    }
}

/// Output depends only on what was asked for, never on what a cache happened
/// to hold: without `--disk`, every estimate is cleared.
pub fn without_unasked_disk(rows: Vec<GlobalRow>, disk: bool) -> (r: Vec<GlobalRow>)
    ensures
        r.len() == rows.len(),
        forall|i: int|
            0 <= i < rows.len() ==> (#[trigger] r@[i]).view_spec() == (if disk {
                rows@[i].view_spec()
            } else {
                (GlobalRowV { disk_estimate_bytes: None, ..rows@[i].view_spec() })
            }),
{
    if disk {
        return rows;
    }
    let mut out: Vec<GlobalRow> = Vec::new();
    let mut i: usize = 0;
    while i < rows.len()
        invariant
            i <= rows.len(),
            out.len() == i,
            forall|j: int|
                0 <= j < i ==> (#[trigger] out@[j]).view_spec() == (GlobalRowV {
                    disk_estimate_bytes: None,
                    ..rows@[j].view_spec()
                }),
        decreases rows.len() - i,
    {
        let mut row = rows[i].copy();
        row.disk_estimate_bytes = None;
        out.push(row);
        i = i + 1;
    }
    out
}

/// What `-g` prints when there are no rows: an empty registry and registered
/// repositories that simply hold no lanes are different situations, and only
/// the first is the reader's to act on.
pub open spec fn no_rows_spec(repos: nat) -> Seq<Seq<char>> {
    if repos == 0 {
        seq![
            "no repositories registered"@,
            "  lane registers one when you run `lane --init` or create a lane in it"@,
        ]
    } else if repos == 1 {
        seq!["no lanes in the 1 registered repository"@]
    } else {
        seq!["no lanes in any of the "@ + decimal(repos) + " registered repositories"@]
    }
}

/// A row with its estimate cleared.
pub open spec fn cleared(row: GlobalRowV) -> GlobalRowV {
    GlobalRowV { disk_estimate_bytes: None, ..row }
}

/// The rows `-g` prints carry an estimate exactly when `--disk` was given,
/// whatever the cache held: without it every estimate is cleared, and with it
/// the cache answers only with rows that all hold one.
pub proof fn printed_estimates_follow_the_flag(
    cached: Option<Seq<GlobalRowV>>,
    refresh: bool,
    disk: bool,
    live: Seq<Seq<char>>,
)
    ensures
        cached_rows_spec(cached, refresh, disk, live) matches Some(rows) ==> forall|i: int|
            0 <= i < rows.len() ==> ((if disk {
                rows[i]
            } else {
                cleared(#[trigger] rows[i])
            }).disk_estimate_bytes is Some <==> disk),
{
    the_cache_answers_only_for_what_it_holds(cached, refresh, disk, live);
}

/// What `-g` prints when there are no rows.
pub fn no_rows_message(repos: usize) -> (r: Vec<String>)
    ensures
        r.deep_view() == no_rows_spec(repos as nat),
{
    let mut out: Vec<String> = Vec::new();
    if repos == 0 {
        out.push("no repositories registered".to_owned());
        out.push("  lane registers one when you run `lane --init` or create a lane in it".to_owned());
    } else if repos == 1 {
        out.push("no lanes in the 1 registered repository".to_owned());
    } else {
        let mut m = chars_of("no lanes in any of the ");
        let n = decimal_chars(repos as u64);
        extend_chars(&mut m, &n);
        extend_str(&mut m, " registered repositories");
        out.push(string_of(&m));
    }
    assert(out.deep_view() =~= no_rows_spec(repos as nat));
    out
}


// ---------------------------------------------------------------------------
// Newest first
// ---------------------------------------------------------------------------

/// `x` placed into `s` after every row at least as new: how a stable sort on
/// commit time, newest first, places a later row among earlier ones.
pub open spec fn insert_newest(s: Seq<GlobalRowV>, x: GlobalRowV) -> Seq<GlobalRowV>
    decreases s.len(),
{
    if s.len() == 0 {
        seq![x]
    } else if x.committed_at > s.last().committed_at {
        insert_newest(s.drop_last(), x).push(s.last())
    } else {
        s.push(x)
    }
}

/// The rows stably sorted by the time of their branch's last commit, newest
/// first; rows committed at the same second keep their order.
pub open spec fn newest_first_spec(s: Seq<GlobalRowV>) -> Seq<GlobalRowV>
    decreases s.len(),
{
    if s.len() == 0 {
        Seq::empty()
    } else {
        insert_newest(newest_first_spec(s.drop_last()), s.last())
    }
}

/// No row is newer than the one before it.
pub open spec fn is_newest_first(s: Seq<GlobalRowV>) -> bool {
    forall|i: int, j: int| 0 <= i < j < s.len() ==> s[i].committed_at >= s[j].committed_at
}

proof fn lemma_insert_newest(s: Seq<GlobalRowV>, x: GlobalRowV)
    requires
        is_newest_first(s),
    ensures
        is_newest_first(insert_newest(s, x)),
        insert_newest(s, x).len() == s.len() + 1,
        forall|i: int|
            0 <= i < insert_newest(s, x).len() ==> (#[trigger] insert_newest(s, x)[i]).committed_at
                == x.committed_at || exists|j: int|
                0 <= j < s.len() && s[j].committed_at == insert_newest(s, x)[i].committed_at,
        s.len() > 0 ==> (insert_newest(s, x).last().committed_at == s.last().committed_at
            || insert_newest(s, x).last() == x),
    decreases s.len(),
{
    if s.len() > 0 && x.committed_at > s.last().committed_at {
        let t = s.drop_last();
        assert(is_newest_first(t));
        lemma_insert_newest(t, x);
        let u = insert_newest(t, x);
        assert forall|i: int| 0 <= i < u.len() implies (#[trigger] u[i]).committed_at >= s.last().committed_at by {
            if u[i].committed_at != x.committed_at {
                let j = choose|j: int| 0 <= j < t.len() && t[j].committed_at == u[i].committed_at;
                assert(s[j] == t[j]);
            }
        }
        assert forall|i: int| 0 <= i < u.push(s.last()).len() implies (#[trigger] u.push(s.last())[i]).committed_at
            == x.committed_at || exists|j: int|
            0 <= j < s.len() && s[j].committed_at == u.push(s.last())[i].committed_at by {
            if i < u.len() {
                if u[i].committed_at != x.committed_at {
                    let j = choose|j: int| 0 <= j < t.len() && t[j].committed_at == u[i].committed_at;
                    assert(s[j] == t[j]);
                }
            } else {
                assert(s[s.len() - 1].committed_at == u.push(s.last())[i].committed_at);
            }
        }
    } else if s.len() > 0 {
        assert forall|i: int| 0 <= i < s.push(x).len() implies (#[trigger] s.push(x)[i]).committed_at
            == x.committed_at || exists|j: int|
            0 <= j < s.len() && s[j].committed_at == s.push(x)[i].committed_at by {
            if i < s.len() {
                assert(s[i].committed_at == s.push(x)[i].committed_at);
            }
        }
    }
}

proof fn lemma_newest_first(s: Seq<GlobalRowV>)
    ensures
        is_newest_first(newest_first_spec(s)),
        newest_first_spec(s).len() == s.len(),
    decreases s.len(),
{
    if s.len() > 0 {
        lemma_newest_first(s.drop_last());
        lemma_insert_newest(newest_first_spec(s.drop_last()), s.last());
    }
}

/// The `-g` rows come out newest first, and none is lost or added.
pub proof fn global_rows_come_newest_first(s: Seq<GlobalRowV>)
    ensures
        is_newest_first(newest_first_spec(s)),
        newest_first_spec(s).len() == s.len(),
{
    lemma_newest_first(s);
}

fn insert_row(v: &mut Vec<GlobalRow>, x: GlobalRow)
    ensures
        row_views(final(v)@) == insert_newest(row_views(old(v)@), x.view_spec()),
{
    let ghost s = row_views(v@);
    let mut k: usize = v.len();
    assert(s.take(k as int) =~= s);
    assert(s.skip(k as int) =~= Seq::<GlobalRowV>::empty());
    while k > 0 && x.committed_at > v[k - 1].committed_at
        invariant
            k <= v.len(),
            s == row_views(v@),
            insert_newest(s, x.view_spec()) == insert_newest(s.take(k as int), x.view_spec()) + s.skip(k as int),
        decreases k,
    {
        let ghost t = s.take(k as int);
        assert(t.last() == v@[k - 1].view_spec());
        assert(t.drop_last() =~= s.take(k - 1));
        assert(insert_newest(s.take(k - 1), x.view_spec()).push(t.last()) + s.skip(k as int) =~= insert_newest(
            s.take(k - 1),
            x.view_spec(),
        ) + s.skip(k - 1));
        k = k - 1;
    }
    proof {
        let t = s.take(k as int);
        if k > 0 {
            assert(t.last() == v@[k - 1].view_spec());
        }
        assert(insert_newest(t, x.view_spec()) =~= t.push(x.view_spec()));
    }
    let ghost xv = x.view_spec();
    v.insert(k, x);
    assert(row_views(v@) =~= s.take(k as int).push(xv) + s.skip(k as int));
}

/// The rows stably sorted newest first: `sort_by` on commit time, reversed.
pub fn newest_first(rows: Vec<GlobalRow>) -> (r: Vec<GlobalRow>)
    ensures
        row_views(r@) == newest_first_spec(row_views(rows@)),
{
    let ghost s = row_views(rows@);
    let mut out: Vec<GlobalRow> = Vec::new();
    let mut i: usize = 0;
    assert(s.take(0) =~= Seq::<GlobalRowV>::empty());
    assert(row_views(out@) =~= Seq::<GlobalRowV>::empty());
    while i < rows.len()
        invariant
            i <= rows.len(),
            s == row_views(rows@),
            row_views(out@) == newest_first_spec(s.take(i as int)),
        decreases rows.len() - i,
    {
        assert(s.take(i + 1).drop_last() =~= s.take(i as int));
        assert(s.take(i + 1).last() == rows@[i as int].view_spec());
        insert_row(&mut out, rows[i].copy());
        i = i + 1;
    }
    assert(s.take(rows.len() as int) =~= s);
    out
}


/// A Unix time read from `git log -1 --format=%ct`, `0` when it is not a
/// number.
pub fn commit_time(log_out: &str) -> (r: i64)
    ensures
        r == match crate::text::parse_i64_spec(log_out@) {
            Some(t) => t,
            None => 0,
        },
{
    let v = chars_of(log_out);
    match crate::text::parse_i64(&v) {
        Some(t) => t,
        None => 0,
    }
}

} // verus!
