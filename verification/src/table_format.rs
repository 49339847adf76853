//! Table layout and prose reflow on the markdown source.
//!
//! The column-width negotiation here is the one the preview uses as well, so
//! that a table which fits the viewport looks the same once it is saved.

use vstd::prelude::*;
use vstd::arithmetic::div_mod::{lemma_fundamental_div_mod, lemma_mod_bound};
use crate::text::{
    append, chars_of, contains_char, copy, find_from, find_text, has_prefix, is_ascii_digit,
    is_digit, is_whitespace, join, joined, last_index_before, lemma_joined_first,
    lemma_last_index_before, lemma_ws_end_bounds, lines_from, lines_of, match_at, repeat_char, repeated,
    rfind_char, skip_ws, slice, split, split_lines, split_on, string_of, texts, trim,
    trim_start, trimmed, trimmed_start, without_cr, ws_end,
};

verus! {

/// The narrowest a column is ever made.
pub const MIN_COLUMN: usize = 3;

/// The sum of the widths.
pub open spec fn total(w: Seq<usize>) -> int
    decreases w.len(),
{
    if w.len() == 0 {
        0
    } else {
        total(w.drop_last()) + w.last()
    }
}

/// `a * w / t`, rounded to the nearest whole number, halves upward.
pub open spec fn rounded_share(a: int, w: int, t: int) -> int {
    (a * w) / t + if 2 * ((a * w) % t) >= t {
        1int
    } else {
        0int
    }
}

/// `a * w / t`, rounded down.
pub open spec fn floored_share(a: int, w: int, t: int) -> int {
    (a * w) / t
}

/// The surplus handed to the first `k` columns together: each takes its
/// rounded proportional share, as far as the surplus lasts.
pub open spec fn shares_given(natural: Seq<usize>, extra: int, k: int) -> int
    decreases k,
{
    if k <= 0 {
        0
    } else {
        let given = shares_given(natural, extra, k - 1) + rounded_share(
            extra,
            natural[k - 1] as int,
            total(natural),
        );
        if given < extra {
            given
        } else {
            extra
        }
    }
}

/// The width of column `i` after the surplus `available - total` was
/// distributed: each column but the last grows by its rounded proportional
/// share, as far as the surplus lasts, and the last takes what is left of
/// the surplus.
pub open spec fn grown_width(natural: Seq<usize>, available: int, i: int) -> int {
    let t = total(natural);
    let extra = available - t;
    if t == 0 || t >= available {
        natural[i] as int
    } else if i == natural.len() - 1 {
        natural[i] + extra - shares_given(natural, extra, natural.len() - 1)
    } else {
        natural[i] + shares_given(natural, extra, i + 1) - shares_given(natural, extra, i)
    }
}

/// The width that column `i` is shrunk to where the columns before it take
/// `used`: its proportional share rounded down, but no more than what
/// leaves the minimum for every column after it, and no less than the
/// minimum.
pub open spec fn shrunk_share(natural: Seq<usize>, available: int, i: int, used: int) -> int {
    let share = floored_share(available, natural[i] as int, total(natural));
    let room = available - used - 3 * (natural.len() - 1 - i);
    let fit = if share < room {
        share
    } else {
        room
    };
    if fit < MIN_COLUMN {
        MIN_COLUMN as int
    } else {
        fit
    }
}

/// The width taken by the first `k` columns after shrinking.
pub open spec fn shrunk_used(natural: Seq<usize>, available: int, k: int) -> int
    decreases k,
{
    if k <= 0 {
        0
    } else {
        shrunk_used(natural, available, k - 1) + shrunk_share(
            natural,
            available,
            k - 1,
            shrunk_used(natural, available, k - 1),
        )
    }
}

/// The width of column `i` after shrinking to `available`: the last column
/// takes what the others left, but no less than the minimum.
pub open spec fn shrunk_width(natural: Seq<usize>, available: int, i: int) -> int {
    let t = total(natural);
    if t == 0 {
        natural[i] as int
    } else if i == natural.len() - 1 {
        let used = shrunk_used(natural, available, natural.len() - 1);
        if available - used < MIN_COLUMN {
            MIN_COLUMN as int
        } else {
            available - used
        }
    } else {
        shrunk_share(natural, available, i, shrunk_used(natural, available, i))
    }
}

/// The width of column `i` for the available width: grown where there is
/// room to spare, shrunk where there is too little, else the natural width.
pub open spec fn negotiated_width(natural: Seq<usize>, available: int, i: int) -> int {
    let t = total(natural);
    if t > 0 && available > t {
        grown_width(natural, available, i)
    } else if t > available && available > 0 {
        shrunk_width(natural, available, i)
    } else {
        natural[i] as int
    }
}

/// The total of the first `k + 1` widths is that of the first `k` plus the next width.
pub proof fn lemma_total_take(w: Seq<usize>, k: int)
    requires
        0 <= k < w.len(),
    ensures
        total(w.take(k + 1)) == total(w.take(k)) + w[k],
        0 <= total(w.take(k)) <= k * usize::MAX,
{
    assert(w.take(k + 1).drop_last() =~= w.take(k));
    lemma_total_bounds(w.take(k));
}

/// The total is at most the number of widths times the largest width that there can be.
pub proof fn lemma_total_bounds(w: Seq<usize>)
    ensures
        0 <= total(w) <= w.len() * usize::MAX,
    decreases w.len(),
{
    if w.len() > 0 {
        lemma_total_bounds(w.drop_last());
        assert(w.len() * usize::MAX == (w.len() - 1) * usize::MAX + usize::MAX) by (nonlinear_arith);
    }
}

/// Every width is at most the total.
pub proof fn lemma_total_covers(w: Seq<usize>, i: int)
    requires
        0 <= i < w.len(),
    ensures
        w[i] <= total(w),
    decreases w.len(),
{
    lemma_total_bounds(w.drop_last());
    if i < w.len() - 1 {
        lemma_total_covers(w.drop_last(), i);
    }
}

/// A share of `a` for a part `w` of the whole `t` is at most `a`.
pub proof fn lemma_share_bounds(a: int, w: int, t: int)
    requires
        0 <= a,
        0 <= w <= t,
        0 < t,
    ensures
        0 <= floored_share(a, w, t) <= rounded_share(a, w, t) <= a,
{
    let x = a * w;
    assert(0 <= x) by (nonlinear_arith)
        requires
            0 <= a,
            0 <= w,
            x == a * w,
    ;
    assert(x <= a * t) by (nonlinear_arith)
        requires
            0 <= a,
            w <= t,
            x == a * w,
    ;
    lemma_fundamental_div_mod(x, t);
    lemma_mod_bound(x, t);
    let q = x / t;
    let r = x % t;
    assert(0 <= q) by (nonlinear_arith)
        requires
            x == t * q + r,
            0 <= r < t,
            0 <= x,
            0 < t,
    ;
    assert(q <= a && (2 * r >= t ==> q < a)) by (nonlinear_arith)
        requires
            x == t * q + r,
            0 <= r < t,
            x <= a * t,
            0 < t,
    ;
}

fn sum_widths(w: &[usize]) -> (t: u128)
    ensures
        t == total(w@),
{
    let mut t: u128 = 0;
    let mut i: usize = 0;
    while i < w.len()
        invariant
            i <= w.len(),
            t == total(w@.take(i as int)),
            t <= i * usize::MAX,
        decreases w.len() - i,
    {
        proof {
            lemma_total_take(w@, i as int);
            assert((i + 1) * usize::MAX == i * usize::MAX + usize::MAX) by (nonlinear_arith);
            assert(i * usize::MAX <= usize::MAX * usize::MAX) by (nonlinear_arith)
                requires
                    i <= usize::MAX,
            ;
        }
        t = t + w[i] as u128;
        i += 1;
    }
    assert(w@.take(w.len() as int) =~= w@);
    t
}

fn copy_widths(w: &[usize]) -> (r: Vec<usize>)
    ensures
        r@ == w@,
{
    let mut r: Vec<usize> = Vec::new();
    let mut i: usize = 0;
    while i < w.len()
        invariant
            i <= w.len(),
            r@ == w@.take(i as int),
        decreases w.len() - i,
    {
        r.push(w[i]);
        i += 1;
    }
    assert(w@.take(w.len() as int) =~= w@);
    r
}

/// `a * w / t` as quotient and remainder.
fn proportion(a: usize, w: usize, t: u128) -> (r: (u128, u128))
    requires
        0 < t,
    ensures
        r.0 == (a * w) / (t as int),
        r.1 == (a * w) % (t as int),
{
    assert(a * w <= usize::MAX * usize::MAX) by (nonlinear_arith)
        requires
            a <= usize::MAX,
            w <= usize::MAX,
    ;
    let x: u128 = (a as u128) * (w as u128);
    (x / t, x % t)
}

/// Distributes the available width proportionally across the columns: the
/// widths add up to the available width, and no column gets narrower.
///
/// Columns that already take the available width or more stay as they are.
pub fn distribute_widths(natural: &[usize], available: usize) -> (widths: Vec<usize>)
    ensures
        widths@.len() == natural@.len(),
        forall|i: int|
            0 <= i < natural@.len() ==> widths@[i] as int == grown_width(
                natural@,
                available as int,
                i,
            ),
        0 < total(natural@) < available ==> total(widths@) == available,
        forall|i: int| 0 <= i < natural@.len() ==> widths@[i] >= natural@[i],
{
    let t = sum_widths(natural);
    if t == 0 || t >= available as u128 {
        return copy_widths(natural);
    }
    let n = natural.len();
    let extra: usize = available - t as usize;
    let mut widths: Vec<usize> = Vec::new();
    let mut given: usize = 0;
    let mut i: usize = 0;
    while i < n
        invariant
            n == natural.len(),
            i <= n,
            0 < t < available,
            t == total(natural@),
            extra == available - t,
            widths@.len() == i,
            given == shares_given(natural@, extra as int, if i < n {
                i as int
            } else {
                n - 1
            }),
            given <= extra,
            forall|j: int|
                0 <= j < i ==> widths@[j] as int == grown_width(natural@, available as int, j),
        decreases n - i,
    {
        let w = natural[i];
        proof {
            lemma_total_covers(natural@, i as int);
            lemma_share_bounds(extra as int, w as int, t as int);
        }
        let left: usize = extra - given;
        if i == n - 1 {
            widths.push(w + left);
        } else {
            let (q, r) = proportion(extra, w, t);
            let share: u128 = if 2 * r >= t {
                q + 1
            } else {
                q
            };
            let taken: usize = if share < left as u128 {
                share as usize
            } else {
                left
            };
            widths.push(w + taken);
            given = given + taken;
        }
        i += 1;
    }
    proof {
        lemma_distributed_widths_fill(natural@, available as int, widths@);
        assert forall|k: int| 0 <= k < natural@.len() implies widths@[k] >= natural@[k] by {
            lemma_grown_width_bounds(natural@, available as int, k);
        }
    }
    widths
}

/// Shrinks the columns proportionally to fit the available width, with no
/// column under the minimum: the widths add up to the available width
/// where that leaves the minimum for every column.
pub fn shrink_widths(natural: &[usize], available: usize) -> (widths: Vec<usize>)
    ensures
        widths@.len() == natural@.len(),
        forall|i: int|
            0 <= i < natural@.len() ==> widths@[i] as int == shrunk_width(
                natural@,
                available as int,
                i,
            ),
        total(natural@) > 0 && available >= 3 * natural@.len() ==> total(widths@) == available,
        total(natural@) > 0 ==> forall|i: int|
            0 <= i < natural@.len() ==> widths@[i] >= MIN_COLUMN,
{
    let t = sum_widths(natural);
    if t == 0 {
        return copy_widths(natural);
    }
    let n = natural.len();
    let mut widths: Vec<usize> = Vec::new();
    let mut used: u128 = 0;
    let mut i: usize = 0;
    while i < n
        invariant
            n == natural.len(),
            i <= n,
            0 < t,
            t == total(natural@),
            widths@.len() == i,
            used == shrunk_used(natural@, available as int, if i < n {
                i as int
            } else {
                n - 1
            }),
            used <= i * usize::MAX,
            forall|j: int|
                0 <= j < i ==> widths@[j] as int == shrunk_width(natural@, available as int, j),
        decreases n - i,
    {
        let w = natural[i];
        proof {
            lemma_total_covers(natural@, i as int);
            lemma_share_bounds(available as int, w as int, t as int);
            assert((i + 1) * usize::MAX == i * usize::MAX + usize::MAX) by (nonlinear_arith);
            assert(i * usize::MAX <= usize::MAX * usize::MAX) by (nonlinear_arith)
                requires
                    i <= usize::MAX,
            ;
        }
        if i == n - 1 {
            let left: usize = if used <= available as u128 {
                available - used as usize
            } else {
                0
            };
            widths.push(if left < MIN_COLUMN {
                MIN_COLUMN
            } else {
                left
            });
        } else {
            let (q, _r) = proportion(available, w, t);
            // what the columns before and the minimum of those after take
            let held: u128 = used + 3 * ((n - 1 - i) as u128);
            let fit: u128 = if held >= available as u128 {
                0
            } else if q < available as u128 - held {
                q
            } else {
                available as u128 - held
            };
            let clamped: usize = if fit < MIN_COLUMN as u128 {
                MIN_COLUMN
            } else {
                fit as usize
            };
            widths.push(clamped);
            used = used + clamped as u128;
        }
        i += 1;
    }
    proof {
        if available >= 3 * n {
            lemma_shrunk_widths_fit(natural@, available as int, widths@);
        }
        assert forall|k: int| 0 <= k < natural@.len() implies widths@[k] >= MIN_COLUMN by {}
    }
    widths
}

/// The column widths for the available width: grown, shrunk or natural, as
/// the available width compares with the natural total. Where the available
/// width leaves the minimum for every column, the widths add up to it.
pub fn negotiate_widths(natural: &[usize], available: usize) -> (widths: Vec<usize>)
    ensures
        widths@.len() == natural@.len(),
        forall|i: int|
            0 <= i < natural@.len() ==> widths@[i] as int == negotiated_width(
                natural@,
                available as int,
                i,
            ),
        total(natural@) > 0 && available >= 3 * natural@.len() ==> total(widths@) == available,
{
    let t = sum_widths(natural);
    if t > 0 && available as u128 > t {
        distribute_widths(natural, available)
    } else if t > available as u128 && available > 0 {
        shrink_widths(natural, available)
    } else {
        let widths = copy_widths(natural);
        proof {
            if t > 0 && available >= 3 * natural@.len() {
                lemma_total_bounds(natural@);
                assert(natural@.len() > 0);
                assert(available > 0);
            }
        }
        widths
    }
}

/// Whether the line opens or closes a fenced code block.
pub open spec fn is_fence_line(line: Seq<char>) -> bool {
    let t = trimmed_start(line);
    has_prefix(t, seq!['`', '`', '`']) || has_prefix(t, seq!['~', '~', '~'])
}

/// Whether the line is a heading.
pub open spec fn is_heading_line(line: Seq<char>) -> bool {
    let t = trimmed_start(line);
    t.len() > 0 && t[0] == '#'
}

/// Whether a table cell holds nothing but whitespace.
pub open spec fn is_blank(cell: Seq<char>) -> bool {
    trimmed(cell).len() == 0
}

/// Whether a table cell is part of a separator row: not blank, and made of
/// `-`, `:` and spaces only.
pub open spec fn is_dashes(cell: Seq<char>) -> bool {
    let c = trimmed(cell);
    c.len() > 0 && forall|i: int|
        0 <= i < c.len() ==> (#[trigger] c[i] == '-' || c[i] == ':' || c[i] == ' ')
}

/// The index of the first cell that counts: a blank first cell does not.
pub open spec fn inner_start(cells: Seq<Seq<char>>) -> int {
    if cells.len() > 0 && is_blank(cells[0]) {
        1
    } else {
        0
    }
}

/// The index after the last cell that counts: a blank last cell does not.
pub open spec fn inner_end(cells: Seq<Seq<char>>) -> int {
    if cells.len() > inner_start(cells) && is_blank(cells.last()) {
        cells.len() - 1
    } else {
        cells.len() as int
    }
}

/// Whether the line is the separator row of a table: it holds a `|`, and
/// between an optional blank first and last cell there is at least one cell,
/// each of them made of dashes.
pub open spec fn is_separator(line: Seq<char>) -> bool {
    let t = trimmed(line);
    let cells = split(t, '|');
    &&& t.contains('|')
    &&& inner_start(cells) < inner_end(cells)
    &&& forall|k: int| inner_start(cells) <= k < inner_end(cells) ==> is_dashes(#[trigger] cells[k])
}

fn blank_cell(cell: &Vec<char>) -> (r: bool)
    ensures
        r == is_blank(cell@),
{
    trim(cell).len() == 0
}

fn dashes_cell(cell: &Vec<char>) -> (r: bool)
    ensures
        r == is_dashes(cell@),
{
    let c = trim(cell);
    if c.len() == 0 {
        return false;
    }
    let mut i: usize = 0;
    while i < c.len()
        invariant
            i <= c.len(),
            c@ == trimmed(cell@),
            forall|j: int| 0 <= j < i ==> (#[trigger] c@[j] == '-' || c@[j] == ':' || c@[j] == ' '),
        decreases c.len() - i,
    {
        let ch = c[i];
        if !(ch == '-' || ch == ':' || ch == ' ') {
            return false;
        }
        i += 1;
    }
    true
}

/// The same test on characters.
pub fn separator_chars(line: &Vec<char>) -> (r: bool)
    ensures
        r == is_separator(line@),
{
    let t = trim(line);
    if !contains_char(&t, '|') {
        return false;
    }
    let cells = split_on(&t, '|');
    let ghost c = split(t@, '|');
    assert(c.len() == cells.len());
    assert(forall|k: int| 0 <= k < cells.len() ==> c[k] == cells@[k]@);
    let lo: usize = if cells.len() > 0 && blank_cell(&cells[0]) {
        1
    } else {
        0
    };
    let hi: usize = if cells.len() > lo && blank_cell(&cells[cells.len() - 1]) {
        cells.len() - 1
    } else {
        cells.len()
    };
    if lo >= hi {
        return false;
    }
    let mut k = lo;
    while k < hi
        invariant
            lo <= k <= hi <= cells.len(),
            c == split(t@, '|'),
            t@ == trimmed(line@),
            t@.contains('|'),
            c.len() == cells.len(),
            lo == inner_start(c),
            hi == inner_end(c),
            forall|j: int| 0 <= j < cells.len() ==> c[j] == cells@[j]@,
            forall|j: int| lo <= j < k ==> is_dashes(#[trigger] c[j]),
        decreases hi - k,
    {
        if !dashes_cell(&cells[k]) {
            assert(!is_dashes(c[k as int]));
            return false;
        }
        k += 1;
    }
    true
}

/// Returns true if the line looks like a markdown table separator row.
pub fn is_separator_row(line: &str) -> (r: bool)
    ensures
        r == is_separator(line@),
{
    separator_chars(&chars_of(line))
}

/// The row without the whitespace around it and without one leading and one
/// trailing `|`.
pub open spec fn bare_row(line: Seq<char>) -> Seq<char> {
    let t = trimmed(line);
    let a = if t.len() > 0 && t[0] == '|' {
        t.subrange(1, t.len() as int)
    } else {
        t
    };
    if a.len() > 0 && a.last() == '|' {
        a.subrange(0, a.len() - 1)
    } else {
        a
    }
}

/// The cells of a table row, each without the whitespace around it.
pub open spec fn cells_of(line: Seq<char>) -> Seq<Seq<char>> {
    let p = split(bare_row(line), '|');
    Seq::new(p.len(), |i: int| trimmed(p[i]))
}

/// The same parse on characters.
pub fn parse_cell_chars(line: &Vec<char>) -> (r: Vec<Vec<char>>)
    ensures
        texts(r@) == cells_of(line@),
{
    let t = trim(line);
    let a = if t.len() > 0 && t[0] == '|' {
        slice(&t, 1, t.len())
    } else {
        t
    };
    let b = if a.len() > 0 && a[a.len() - 1] == '|' {
        slice(&a, 0, a.len() - 1)
    } else {
        a
    };
    assert(b@ == bare_row(line@));
    let pieces = split_on(&b, '|');
    let ghost p = split(b@, '|');
    let mut r: Vec<Vec<char>> = Vec::new();
    let mut i: usize = 0;
    while i < pieces.len()
        invariant
            i <= pieces.len(),
            p == texts(pieces@),
            r@.len() == i,
            forall|j: int| 0 <= j < i ==> r@[j]@ == trimmed(p[j]),
        decreases pieces.len() - i,
    {
        let c = trim(&pieces[i]);
        assert(p[i as int] == pieces@[i as int]@);
        r.push(c);
        i += 1;
    }
    assert(texts(r@) =~= cells_of(line@));
    r
}

/// Parses a markdown table row into cells.
pub fn parse_cells(line: &str) -> (r: Vec<String>)
    ensures
        crate::text::string_texts(r@) == cells_of(line@),
{
    let cells = parse_cell_chars(&chars_of(line));
    let mut r: Vec<String> = Vec::new();
    let mut i: usize = 0;
    while i < cells.len()
        invariant
            i <= cells.len(),
            r@.len() == i,
            forall|j: int| 0 <= j < i ==> r@[j]@ == cells@[j]@,
        decreases cells.len() - i,
    {
        r.push(string_of(&cells[i]));
        i += 1;
    }
    assert(crate::text::string_texts(r@) =~= texts(cells@));
    r
}

/// Whether every character of `s` is a decimal digit.
pub open spec fn only_digits(s: Seq<char>) -> bool {
    forall|i: int| 0 <= i < s.len() ==> is_digit(#[trigger] s[i])
}

/// What the lines after the first start with, once `line` is wrapped: spaces
/// up to the text of a list item, the quote marker of a quoted line, else the
/// line's own leading whitespace.
pub open spec fn continuation(line: Seq<char>) -> Seq<char> {
    let lead = ws_end(line, 0);
    let rest = line.subrange(lead, line.len() as int);
    let pos = find_from(rest, seq!['.', ' '], 0);
    if 0 <= pos <= 4 && only_digits(rest.subrange(0, pos)) {
        repeated(' ', (lead + pos + 2) as nat)
    } else if has_prefix(rest, seq!['-', ' ']) || has_prefix(rest, seq!['*', ' ']) || has_prefix(
        rest,
        seq!['+', ' '],
    ) {
        repeated(' ', (lead + 2) as nat)
    } else if has_prefix(rest, seq!['>', ' ']) {
        line.subrange(0, lead) + seq!['>', ' ']
    } else {
        line.subrange(0, lead)
    }
}

fn pair(a: char, b: char) -> (r: Vec<char>)
    ensures
        r@ == seq![a, b],
{
    let mut r: Vec<char> = Vec::new();
    r.push(a);
    r.push(b);
    r
}

fn triple(a: char, b: char, c: char) -> (r: Vec<char>)
    ensures
        r@ == seq![a, b, c],
{
    let mut r: Vec<char> = Vec::new();
    r.push(a);
    r.push(b);
    r.push(c);
    r
}

fn digits_only(s: &Vec<char>, end: usize) -> (r: bool)
    requires
        end <= s.len(),
    ensures
        r == only_digits(s@.subrange(0, end as int)),
{
    let mut i: usize = 0;
    while i < end
        invariant
            i <= end <= s.len(),
            forall|j: int| 0 <= j < i ==> is_digit(#[trigger] s@[j]),
        decreases end - i,
    {
        if !is_ascii_digit(s[i]) {
            assert(s@.subrange(0, end as int)[i as int] == s@[i as int]);
            return false;
        }
        i += 1;
    }
    assert forall|j: int| 0 <= j < end implies is_digit(
        #[trigger] s@.subrange(0, end as int)[j],
    ) by {
        assert(is_digit(s@[j]));
    }
    true
}

/// The same on characters.
pub fn continuation_chars(line: &Vec<char>) -> (r: Vec<char>)
    ensures
        r@ == continuation(line@),
{
    let lead = skip_ws(line, 0);
    let rest = slice(line, lead, line.len());
    if let Some(pos) = find_text(&rest, &pair('.', ' '), 0) {
        if pos <= 4 && digits_only(&rest, pos) {
            return repeat_char(' ', lead + pos + 2);
        }
    }
    if match_at(&rest, &pair('-', ' '), 0) || match_at(&rest, &pair('*', ' '), 0) || match_at(
        &rest,
        &pair('+', ' '),
        0,
    ) {
        return repeat_char(' ', lead + 2);
    }
    let mut indent = slice(line, 0, lead);
    if match_at(&rest, &pair('>', ' '), 0) {
        indent.push('>');
        indent.push(' ');
        assert(indent@ =~= line@.subrange(0, lead as int) + seq!['>', ' ']);
    }
    indent
}

/// Figures out what indent continuation lines should use.
pub fn continuation_indent(line: &str) -> (r: String)
    ensures
        r@ == continuation(line@),
{
    string_of(&continuation_chars(&chars_of(line)))
}

/// The lines that `rem` is wrapped into. The first line starts at once, each
/// later one after `cont`. A line is cut at the last space at or before the
/// width left for it, so that a word that just fills the width stays whole;
/// where there is no such space after the first character, the line is cut
/// at the width. The whitespace at a cut is dropped. Where `cont` alone
/// fills the width, the rest goes on one line.
pub open spec fn wrapped(rem: Seq<char>, width: int, cont: Seq<char>, first: bool) -> Seq<
    Seq<char>,
>
    decreases rem.len(),
{
    let prefix = if first {
        Seq::empty()
    } else {
        cont
    };
    let avail = if width > prefix.len() {
        width - prefix.len()
    } else {
        0
    };
    let region = if avail < rem.len() {
        avail
    } else {
        rem.len() as int
    };
    let bound = if avail < rem.len() {
        avail + 1
    } else {
        rem.len() as int
    };
    let pos = last_index_before(rem, ' ', bound);
    if rem.len() == 0 {
        Seq::empty()
    } else if avail == 0 || prefix.len() + rem.len() <= width {
        seq![prefix + rem]
    } else if pos > 0 {
        proof {
            lemma_last_index_before(rem, ' ', bound);
            lemma_ws_end_bounds(rem.subrange(pos, rem.len() as int), 0);
        }
        seq![prefix + rem.subrange(0, pos)] + wrapped(
            trimmed_start(rem.subrange(pos, rem.len() as int)),
            width,
            cont,
            false,
        )
    } else {
        seq![prefix + rem.subrange(0, region)] + wrapped(
            rem.subrange(region, rem.len() as int),
            width,
            cont,
            false,
        )
    }
}

/// A text added to the list adds its view.
pub proof fn lemma_texts_push(v: Seq<Vec<char>>, x: Vec<char>)
    ensures
        texts(v.push(x)) == texts(v).push(x@),
{
    assert(texts(v.push(x)) =~= texts(v).push(x@));
}

/// Word-wraps a single line, pushing the wrapped segments into `out`.
pub fn wrap_line(line: &Vec<char>, width: usize, continuation: &Vec<char>, out: &mut Vec<Vec<char>>)
    ensures
        texts(final(out)@) == texts(old(out)@) + wrapped(
            line@,
            width as int,
            continuation@,
            true,
        ),
{
    let mut remaining = copy(line);
    let mut is_first = true;
    assert(texts(out@) + wrapped(remaining@, width as int, continuation@, true) == texts(
        old(out)@,
    ) + wrapped(line@, width as int, continuation@, true));
    while remaining.len() > 0
        invariant
            texts(out@) + wrapped(remaining@, width as int, continuation@, is_first) == texts(
                old(out)@,
            ) + wrapped(line@, width as int, continuation@, true),
        decreases remaining.len(),
    {
        let ghost goal = texts(out@) + wrapped(remaining@, width as int, continuation@, is_first);
        let mut piece: Vec<char> = Vec::new();
        if !is_first {
            append(&mut piece, continuation);
        }
        let avail = if width > piece.len() {
            width - piece.len()
        } else {
            0
        };
        if avail == 0 || remaining.len() <= avail {
            append(&mut piece, &remaining);
            proof {
                lemma_texts_push(out@, piece);
                assert(texts(out@.push(piece)) =~= goal);
            }
            out.push(piece);
            return ;
        }
        let region = if avail < remaining.len() {
            avail
        } else {
            remaining.len()
        };
        let found = rfind_char(&remaining, ' ', region + 1);
        let cut: usize = match found {
            Some(pos) => pos,
            None => 0,
        };
        if cut > 0 {
            append(&mut piece, &slice(&remaining, 0, cut));
            let next = trim_start(&slice(&remaining, cut, remaining.len()));
            proof {
                lemma_ws_end_bounds(remaining@.subrange(cut as int, remaining.len() as int), 0);
                lemma_texts_push(out@, piece);
                assert(texts(out@.push(piece)) + wrapped(
                    next@,
                    width as int,
                    continuation@,
                    false,
                ) =~= goal);
            }
            out.push(piece);
            remaining = next;
        } else {
            append(&mut piece, &slice(&remaining, 0, region));
            let next = slice(&remaining, region, remaining.len());
            proof {
                lemma_texts_push(out@, piece);
                assert(texts(out@.push(piece)) + wrapped(
                    next@,
                    width as int,
                    continuation@,
                    false,
                ) =~= goal);
            }
            out.push(piece);
            remaining = next;
        }
        is_first = false;
    }
    assert(texts(out@) + Seq::<Seq<char>>::empty() =~= texts(out@));
}

/// Whether the line is a table row: it holds a `|` and is a separator row or
/// starts with `|`.
pub open spec fn is_table_line(line: Seq<char>) -> bool {
    line.contains('|') && (is_separator(line) || has_prefix(trimmed_start(line), seq!['|']))
}

/// Whether the line stays as it is when the text is wrapped to `width`:
/// fenced code, headings and table rows always, any other line where it
/// fits, not counting a carriage return at its end.
pub open spec fn is_kept(line: Seq<char>, width: int, in_fence: bool) -> bool {
    is_fence_line(line) || in_fence || is_heading_line(line) || is_table_line(line)
        || without_cr(line).len() <= width
}

/// The pieces with a carriage return put back at the end of the last one.
pub open spec fn with_cr(pieces: Seq<Seq<char>>) -> Seq<Seq<char>> {
    if pieces.len() > 0 {
        pieces.drop_last().push(pieces.last().push('\r'))
    } else {
        seq![seq!['\r']]
    }
}

/// The lines that a line too long is wrapped into: the line is wrapped
/// without the carriage return at its end, which goes back to the end of
/// the last piece.
pub open spec fn wrapped_line(line: Seq<char>, width: int) -> Seq<Seq<char>> {
    let body = without_cr(line);
    let pieces = wrapped(body, width, continuation(body), true);
    if body.len() < line.len() {
        with_cr(pieces)
    } else {
        pieces
    }
}

/// The wrapped lines for the lines from `i` on, where `in_fence` says whether
/// line `i` stands inside a fenced code block.
pub open spec fn wrapped_lines_from(
    lines: Seq<Seq<char>>,
    width: int,
    i: int,
    in_fence: bool,
) -> Seq<Seq<char>>
    decreases lines.len() - i,
{
    if i < 0 || i >= lines.len() {
        Seq::empty()
    } else {
        let line = lines[i];
        let next_fence = if is_fence_line(line) {
            !in_fence
        } else {
            in_fence
        };
        let here = if is_kept(line, width, in_fence) {
            seq![line]
        } else {
            wrapped_line(line, width)
        };
        here + wrapped_lines_from(lines, width, i + 1, next_fence)
    }
}

/// What `hard_wrap` makes of `content`: with a width of 0 the text itself,
/// else the pieces between its line feeds, each kept or wrapped, joined by
/// line feeds again, so that every line ending stays where it was.
pub open spec fn hard_wrapped(content: Seq<char>, width: int) -> Seq<char> {
    if width == 0 {
        content
    } else {
        joined(wrapped_lines_from(split(content, '\n'), width, 0, false), seq!['\n'])
    }
}

fn fence_line(line: &Vec<char>) -> (r: bool)
    ensures
        r == is_fence_line(line@),
{
    let t = trim_start(line);
    match_at(&t, &triple('`', '`', '`'), 0) || match_at(&t, &triple('~', '~', '~'), 0)
}

fn heading_line(line: &Vec<char>) -> (r: bool)
    ensures
        r == is_heading_line(line@),
{
    let t = trim_start(line);
    t.len() > 0 && t[0] == '#'
}

fn table_line(line: &Vec<char>) -> (r: bool)
    ensures
        r == is_table_line(line@),
{
    if !contains_char(line, '|') {
        return false;
    }
    if separator_chars(line) {
        return true;
    }
    let t = trim_start(line);
    let mut bar: Vec<char> = Vec::new();
    bar.push('|');
    assert(bar@ =~= seq!['|']);
    match_at(&t, &bar, 0)
}

fn line_feed() -> (r: Vec<char>)
    ensures
        r@ == seq!['\n'],
{
    let mut r: Vec<char> = Vec::new();
    r.push('\n');
    r
}

fn push_pieces(out: &mut Vec<Vec<char>>, more: &Vec<Vec<char>>)
    ensures
        texts(final(out)@) == texts(old(out)@) + texts(more@),
{
    let mut k: usize = 0;
    assert(texts(out@) + texts(more@).take(0) =~= texts(old(out)@));
    while k < more.len()
        invariant
            k <= more.len(),
            texts(out@) == texts(old(out)@) + texts(more@).take(k as int),
        decreases more.len() - k,
    {
        let piece = copy(&more[k]);
        proof {
            lemma_texts_push(out@, piece);
            assert(texts(out@.push(piece)) =~= texts(old(out)@) + texts(more@).take(k + 1));
        }
        out.push(piece);
        k += 1;
    }
    assert(texts(more@).take(more.len() as int) =~= texts(more@));
}

/// The same on characters.
pub fn hard_wrap_chars(content: &Vec<char>, width: usize) -> (r: Vec<char>)
    ensures
        r@ == hard_wrapped(content@, width as int),
{
    if width == 0 {
        return copy(content);
    }
    let lines = split_on(content, '\n');
    let ghost l = split(content@, '\n');
    let mut result: Vec<Vec<char>> = Vec::new();
    let mut in_code_fence = false;
    let mut i: usize = 0;
    assert(texts(result@) =~= Seq::<Seq<char>>::empty());
    while i < lines.len()
        invariant
            i <= lines.len(),
            l == texts(lines@),
            texts(result@) + wrapped_lines_from(l, width as int, i as int, in_code_fence)
                == wrapped_lines_from(l, width as int, 0, false),
        decreases lines.len() - i,
    {
        let line = &lines[i];
        assert(l[i as int] == line@);
        let ghost goal = texts(result@) + wrapped_lines_from(
            l,
            width as int,
            i as int,
            in_code_fence,
        );
        let fence = fence_line(line);
        let length = if line.len() > 0 && line[line.len() - 1] == '\r' {
            line.len() - 1
        } else {
            line.len()
        };
        if fence || in_code_fence || heading_line(line) || table_line(line) || length <= width {
            let kept = copy(line);
            proof {
                lemma_texts_push(result@, kept);
                assert(texts(result@.push(kept)) + wrapped_lines_from(
                    l,
                    width as int,
                    i + 1,
                    if fence {
                        !in_code_fence
                    } else {
                        in_code_fence
                    },
                ) =~= goal);
            }
            result.push(kept);
        } else {
            let body = slice(line, 0, length);
            assert(body@ =~= without_cr(line@));
            let indent = continuation_chars(&body);
            let mut pieces: Vec<Vec<char>> = Vec::new();
            assert(texts(pieces@) =~= Seq::<Seq<char>>::empty());
            wrap_line(&body, width, &indent, &mut pieces);
            assert(texts(pieces@) =~= wrapped(body@, width as int, indent@, true));
            if length < line.len() {
                let ghost plain = texts(pieces@);
                let mut last = match pieces.pop() {
                    Some(piece) => piece,
                    None => Vec::new(),
                };
                last.push('\r');
                proof {
                    lemma_texts_push(pieces@, last);
                    if plain.len() > 0 {
                        assert(texts(pieces@) =~= plain.drop_last());
                    }
                    assert(texts(pieces@.push(last)) =~= with_cr(plain));
                }
                pieces.push(last);
            }
            assert(texts(pieces@) == wrapped_line(line@, width as int));
            push_pieces(&mut result, &pieces);
            proof {
                assert(texts(result@) + wrapped_lines_from(l, width as int, i + 1, in_code_fence)
                    =~= goal);
            }
        }
        if fence {
            in_code_fence = !in_code_fence;
        }
        i += 1;
    }
    assert(texts(result@) + Seq::<Seq<char>>::empty() =~= texts(result@));
    join(&result, &line_feed())
}

/// Hard-wraps long lines to fit within `width`, preserving markdown
/// structure: fenced code, headings and table rows are never wrapped.
pub fn hard_wrap(content: &str, width: usize) -> (r: String)
    ensures
        r@ == hard_wrapped(content@, width as int),
{
    string_of(&hard_wrap_chars(&chars_of(content), width))
}

/// The index after the run of lines holding a `|` that starts at `i`.
pub open spec fn table_end(lines: Seq<Seq<char>>, i: int) -> int
    decreases lines.len() - i,
{
    if 0 <= i < lines.len() && lines[i].contains('|') {
        table_end(lines, i + 1)
    } else {
        i
    }
}

/// Whether line `k` is a separator row.
pub open spec fn separator_at(lines: Seq<Seq<char>>, k: int) -> bool {
    is_separator(lines[k])
}

/// Whether one of the lines from `from` up to `to` is a separator row.
pub open spec fn has_separator(lines: Seq<Seq<char>>, from: int, to: int) -> bool {
    exists|k: int| from <= k < to && #[trigger] separator_at(lines, k)
}

/// The cells of a table line; a separator row has none.
pub open spec fn row_cells(line: Seq<char>) -> Seq<Seq<char>> {
    if is_separator(line) {
        Seq::empty()
    } else {
        cells_of(line)
    }
}

/// The rows of the table that spans the lines from `start` up to `end`.
pub open spec fn table_rows(lines: Seq<Seq<char>>, start: int, end: int) -> Seq<Seq<Seq<char>>> {
    Seq::new((end - start) as nat, |k: int| row_cells(lines[start + k]))
}

/// The number of cells of the longest row.
pub open spec fn column_count(rows: Seq<Seq<Seq<char>>>) -> nat
    decreases rows.len(),
{
    if rows.len() == 0 {
        0
    } else if column_count(rows.drop_last()) >= rows.last().len() {
        column_count(rows.drop_last())
    } else {
        rows.last().len()
    }
}

/// The length of cell `j` of the row; 0 where the row has no such cell.
pub open spec fn cell_len(row: Seq<Seq<char>>, j: int) -> nat {
    if 0 <= j < row.len() {
        row[j].len()
    } else {
        0
    }
}

/// The natural width of column `j`: the length of its longest cell, but no
/// less than the minimum.
pub open spec fn column_natural(rows: Seq<Seq<Seq<char>>>, j: int) -> nat
    decreases rows.len(),
{
    if rows.len() == 0 {
        MIN_COLUMN as nat
    } else if column_natural(rows.drop_last(), j) >= cell_len(rows.last(), j) {
        column_natural(rows.drop_last(), j)
    } else {
        cell_len(rows.last(), j)
    }
}

/// The natural widths of all columns.
pub open spec fn natural_widths(rows: Seq<Seq<Seq<char>>>) -> Seq<usize> {
    Seq::new(column_count(rows), |j: int| column_natural(rows, j) as usize)
}

/// The width left for cell content at `terminal_width` with `cols` columns:
/// each column costs a bar and two spaces, and one more bar closes the row.
pub open spec fn available_width(terminal_width: int, cols: int) -> int {
    let overhead = (cols + 1) + cols * 2;
    if terminal_width > overhead {
        terminal_width - overhead
    } else {
        0
    }
}

/// The negotiated widths of all columns.
pub open spec fn negotiated(natural: Seq<usize>, available: int) -> Seq<usize> {
    Seq::new(natural.len(), |i: int| negotiated_width(natural, available, i) as usize)
}

/// `content` made exactly `w` wide: cut at `w` where it is longer, else
/// filled up with spaces on the right.
pub open spec fn fitted(content: Seq<char>, w: int) -> Seq<char> {
    if content.len() > w {
        content.take(w)
    } else {
        content + repeated(' ', (w - content.len()) as nat)
    }
}

/// Cell `j` of the row; empty where the row has no such cell.
pub open spec fn cell_or_empty(row: Seq<Seq<char>>, j: int) -> Seq<char> {
    if 0 <= j < row.len() {
        row[j]
    } else {
        Seq::empty()
    }
}

/// A table line made of the parts: `| a | b |`.
pub open spec fn bar_row(parts: Seq<Seq<char>>) -> Seq<char> {
    seq!['|', ' '] + joined(parts, seq![' ', '|', ' ']) + seq![' ', '|']
}

/// The fitted cells of a data row.
pub open spec fn data_cells(row: Seq<Seq<char>>, widths: Seq<usize>) -> Seq<Seq<char>> {
    Seq::new(widths.len(), |j: int| fitted(cell_or_empty(row, j), widths[j] as int))
}

/// The dashes of a separator row.
pub open spec fn rule_cells(widths: Seq<usize>) -> Seq<Seq<char>> {
    Seq::new(widths.len(), |j: int| repeated('-', widths[j] as nat))
}

/// The formatted line for a table line.
pub open spec fn formatted_row(line: Seq<char>, widths: Seq<usize>) -> Seq<char> {
    if is_separator(line) {
        bar_row(rule_cells(widths))
    } else {
        bar_row(data_cells(cells_of(line), widths))
    }
}

/// The table block starting at line `start`, formatted for the terminal
/// width: the index after its last line, and its lines. There is a table
/// where at least two lines in a row hold a `|`, one of them is a separator
/// row, and some row has a cell.
pub open spec fn formatted_table(lines: Seq<Seq<char>>, start: int, terminal_width: int) -> Option<
    (int, Seq<Seq<char>>),
> {
    let end = table_end(lines, start);
    let rows = table_rows(lines, start, end);
    let widths = negotiated(
        natural_widths(rows),
        available_width(terminal_width, column_count(rows) as int),
    );
    if end - start >= 2 && has_separator(lines, start, end) && column_count(rows) > 0 {
        Some((end, Seq::new((end - start) as nat, |k: int| formatted_row(lines[start + k], widths))))
    } else {
        None
    }
}

/// The lines from `i` on with every table block formatted.
pub open spec fn tables_formatted_from(lines: Seq<Seq<char>>, terminal_width: int, i: int) -> Seq<
    Seq<char>,
>
    decreases lines.len() - i,
{
    if i < 0 || i >= lines.len() {
        Seq::empty()
    } else {
        match formatted_table(lines, i, terminal_width) {
            Some((end, rows)) => if i < end <= lines.len() {
                rows + tables_formatted_from(lines, terminal_width, end)
            } else {
                seq![lines[i]] + tables_formatted_from(lines, terminal_width, i + 1)
            },
            None => seq![lines[i]] + tables_formatted_from(lines, terminal_width, i + 1),
        }
    }
}

/// What `format_tables` makes of `content`.
pub open spec fn tables_formatted(content: Seq<char>, terminal_width: int) -> Seq<char> {
    joined(tables_formatted_from(lines_of(content), terminal_width, 0), seq!['\n'])
}

/// The views of a list of rows.
pub open spec fn row_texts(rows: Seq<Vec<Vec<char>>>) -> Seq<Seq<Seq<char>>> {
    Seq::new(rows.len(), |i: int| texts(rows[i]@))
}

fn fit(content: &Vec<char>, w: usize) -> (r: Vec<char>)
    ensures
        r@ == fitted(content@, w as int),
{
    if content.len() > w {
        slice(content, 0, w)
    } else {
        let mut r = copy(content);
        append(&mut r, &repeat_char(' ', w - content.len()));
        r
    }
}

fn bar_line(parts: &Vec<Vec<char>>) -> (r: Vec<char>)
    ensures
        r@ == bar_row(texts(parts@)),
{
    let mut r = pair('|', ' ');
    append(&mut r, &join(parts, &triple(' ', '|', ' ')));
    append(&mut r, &pair(' ', '|'));
    r
}

fn rule_line(widths: &Vec<usize>) -> (r: Vec<char>)
    ensures
        r@ == bar_row(rule_cells(widths@)),
{
    let mut parts: Vec<Vec<char>> = Vec::new();
    let mut j: usize = 0;
    while j < widths.len()
        invariant
            j <= widths.len(),
            parts@.len() == j,
            forall|k: int| 0 <= k < j ==> parts@[k]@ == repeated('-', widths@[k] as nat),
        decreases widths.len() - j,
    {
        parts.push(repeat_char('-', widths[j]));
        j += 1;
    }
    assert(texts(parts@) =~= rule_cells(widths@));
    bar_line(&parts)
}

fn data_line(row: &Vec<Vec<char>>, widths: &Vec<usize>) -> (r: Vec<char>)
    ensures
        r@ == bar_row(data_cells(texts(row@), widths@)),
{
    let mut parts: Vec<Vec<char>> = Vec::new();
    let empty: Vec<char> = Vec::new();
    let mut j: usize = 0;
    while j < widths.len()
        invariant
            j <= widths.len(),
            parts@.len() == j,
            empty@ == Seq::<char>::empty(),
            forall|k: int|
                0 <= k < j ==> parts@[k]@ == fitted(
                    cell_or_empty(texts(row@), k),
                    widths@[k] as int,
                ),
        decreases widths.len() - j,
    {
        let cell = if j < row.len() {
            assert(texts(row@)[j as int] == row@[j as int]@);
            fit(&row[j], widths[j])
        } else {
            fit(&empty, widths[j])
        };
        parts.push(cell);
        j += 1;
    }
    assert(texts(parts@) =~= data_cells(texts(row@), widths@));
    bar_line(&parts)
}

fn count_columns(rows: &Vec<Vec<Vec<char>>>) -> (n: usize)
    ensures
        n == column_count(row_texts(rows@)),
{
    let mut n: usize = 0;
    let mut k: usize = 0;
    while k < rows.len()
        invariant
            k <= rows.len(),
            n == column_count(row_texts(rows@).take(k as int)),
        decreases rows.len() - k,
    {
        proof {
            let t = row_texts(rows@).take(k + 1);
            assert(t.drop_last() =~= row_texts(rows@).take(k as int));
            assert(t.last().len() == rows@[k as int].len());
        }
        if rows[k].len() > n {
            n = rows[k].len();
        }
        k += 1;
    }
    assert(row_texts(rows@).take(rows.len() as int) =~= row_texts(rows@));
    n
}

fn natural_column(rows: &Vec<Vec<Vec<char>>>, j: usize) -> (w: usize)
    ensures
        w == column_natural(row_texts(rows@), j as int),
{
    let mut w: usize = MIN_COLUMN;
    let mut k: usize = 0;
    while k < rows.len()
        invariant
            k <= rows.len(),
            w == column_natural(row_texts(rows@).take(k as int), j as int),
        decreases rows.len() - k,
    {
        proof {
            let t = row_texts(rows@).take(k + 1);
            assert(t.drop_last() =~= row_texts(rows@).take(k as int));
            assert(t.last() == texts(rows@[k as int]@));
        }
        if j < rows[k].len() {
            assert(texts(rows@[k as int]@)[j as int] == rows@[k as int]@[j as int]@);
            if rows[k][j].len() > w {
                w = rows[k][j].len();
            }
        }
        k += 1;
    }
    assert(row_texts(rows@).take(rows.len() as int) =~= row_texts(rows@));
    w
}

fn available_for(terminal_width: usize, cols: usize) -> (a: usize)
    ensures
        a == available_width(terminal_width as int, cols as int),
{
    if cols >= terminal_width {
        return 0;
    }
    let overhead: u128 = (cols as u128 + 1) + (cols as u128) * 2;
    if (terminal_width as u128) > overhead {
        terminal_width - overhead as usize
    } else {
        0
    }
}

/// Tries to parse and format a table block starting at line `start`; there
/// is none beyond the last line.
pub fn try_format_table(lines: &Vec<Vec<char>>, start: usize, terminal_width: usize) -> (r: Option<
    (usize, Vec<Vec<char>>),
>)
    ensures
        match r {
            Some((end, rows)) => formatted_table(texts(lines@), start as int, terminal_width as int)
                == Some((end as int, texts(rows@))) && start + 2 <= end <= lines.len(),
            None => formatted_table(texts(lines@), start as int, terminal_width as int).is_none(),
        },
{
    let ghost l = texts(lines@);
    if start > lines.len() {
        assert(table_end(l, start as int) == start);
        return None;
    }
    let mut end = start;
    while end < lines.len() && contains_char(&lines[end], '|')
        invariant
            start <= end <= lines.len(),
            l == texts(lines@),
            table_end(l, end as int) == table_end(l, start as int),
        decreases lines.len() - end,
    {
        assert(l[end as int] == lines@[end as int]@);
        end += 1;
    }
    proof {
        if end < lines.len() {
            assert(l[end as int] == lines@[end as int]@);
        }
    }
    if end - start < 2 {
        return None;
    }
    let mut rows: Vec<Vec<Vec<char>>> = Vec::new();
    let mut separators: Vec<bool> = Vec::new();
    let mut found = false;
    let mut k = start;
    while k < end
        invariant
            start <= k <= end <= lines.len(),
            l == texts(lines@),
            rows@.len() == k - start,
            separators@.len() == k - start,
            forall|m: int| 0 <= m < k - start ==> separators@[m] == is_separator(l[start + m]),
            forall|m: int| 0 <= m < k - start ==> texts(rows@[m]@) == row_cells(l[start + m]),
            found == has_separator(l, start as int, k as int),
        decreases end - k,
    {
        assert(l[k as int] == lines@[k as int]@);
        let sep = separator_chars(&lines[k]);
        let cells: Vec<Vec<char>> = if sep {
            Vec::new()
        } else {
            parse_cell_chars(&lines[k])
        };
        assert(texts(cells@) =~= row_cells(l[k as int]));
        proof {
            if sep {
                assert(separator_at(l, k as int));
            } else {
                assert(!separator_at(l, k as int));
            }
        }
        rows.push(cells);
        separators.push(sep);
        if sep {
            found = true;
        }
        k += 1;
    }
    let ghost r = table_rows(l, start as int, end as int);
    assert(row_texts(rows@) =~= r);
    if !found {
        return None;
    }
    let num_cols = count_columns(&rows);
    if num_cols == 0 {
        return None;
    }
    let mut natural: Vec<usize> = Vec::new();
    let mut j: usize = 0;
    while j < num_cols
        invariant
            j <= num_cols,
            natural@.len() == j,
            r == row_texts(rows@),
            forall|m: int| 0 <= m < j ==> natural@[m] == column_natural(r, m),
        decreases num_cols - j,
    {
        natural.push(natural_column(&rows, j));
        j += 1;
    }
    assert(natural@ =~= natural_widths(r));
    let available = available_for(terminal_width, num_cols);
    let widths = negotiate_widths(natural.as_slice(), available);
    assert(widths@ =~= negotiated(natural@, available as int));
    let mut formatted: Vec<Vec<char>> = Vec::new();
    let mut k: usize = 0;
    while k < rows.len()
        invariant
            k <= rows.len(),
            rows.len() == end - start,
            separators.len() == rows.len(),
            end <= lines.len(),
            l == texts(lines@),
            formatted@.len() == k,
            forall|m: int| 0 <= m < rows.len() ==> separators@[m] == is_separator(l[start + m]),
            forall|m: int| 0 <= m < rows.len() ==> texts(rows@[m]@) == row_cells(l[start + m]),
            forall|m: int| 0 <= m < k ==> formatted@[m]@ == formatted_row(l[start + m], widths@),
        decreases rows.len() - k,
    {
        let line = if separators[k] {
            rule_line(&widths)
        } else {
            data_line(&rows[k], &widths)
        };
        formatted.push(line);
        k += 1;
    }
    assert(texts(formatted@) =~= Seq::new(
        (end - start) as nat,
        |m: int| formatted_row(l[start + m], widths@),
    ));
    Some((end, formatted))
}

/// The same on characters.
pub fn format_table_chars(content: &Vec<char>, terminal_width: usize) -> (r: Vec<char>)
    ensures
        r@ == tables_formatted(content@, terminal_width as int),
{
    let lines = split_lines(content);
    let ghost l = lines_of(content@);
    let mut result: Vec<Vec<char>> = Vec::new();
    let mut i: usize = 0;
    assert(texts(result@) =~= Seq::<Seq<char>>::empty());
    while i < lines.len()
        invariant
            i <= lines.len(),
            l == texts(lines@),
            texts(result@) + tables_formatted_from(l, terminal_width as int, i as int)
                == tables_formatted_from(l, terminal_width as int, 0),
        decreases lines.len() - i,
    {
        let ghost goal = texts(result@) + tables_formatted_from(
            l,
            terminal_width as int,
            i as int,
        );
        match try_format_table(&lines, i, terminal_width) {
            Some((end, rows)) => {
                let ghost before = texts(result@);
                let mut k: usize = 0;
                while k < rows.len()
                    invariant
                        k <= rows.len(),
                        texts(result@) == before + texts(rows@).take(k as int),
                    decreases rows.len() - k,
                {
                    let row = copy(&rows[k]);
                    proof {
                        lemma_texts_push(result@, row);
                        assert(texts(rows@).take(k + 1) =~= texts(rows@).take(k as int).push(
                            row@,
                        ));
                        assert(before + texts(rows@).take(k + 1) =~= (before + texts(rows@).take(
                            k as int,
                        )).push(row@));
                    }
                    result.push(row);
                    k += 1;
                }
                assert(texts(rows@).take(rows.len() as int) =~= texts(rows@));
                assert(texts(result@) + tables_formatted_from(l, terminal_width as int, end as int)
                    =~= goal);
                i = end;
            },
            None => {
                let line = copy(&lines[i]);
                assert(l[i as int] == line@);
                proof {
                    lemma_texts_push(result@, line);
                    assert(texts(result@.push(line)) + tables_formatted_from(
                        l,
                        terminal_width as int,
                        i + 1,
                    ) =~= goal);
                }
                result.push(line);
                i += 1;
            },
        }
    }
    assert(texts(result@) + Seq::<Seq<char>>::empty() =~= texts(result@));
    join(&result, &line_feed())
}

/// Formats the markdown tables in `content` to fill the terminal width.
/// Everything that is not a table passes through unchanged.
pub fn format_tables(content: &str, terminal_width: usize) -> (r: String)
    ensures
        r@ == tables_formatted(content@, terminal_width as int),
{
    string_of(&format_table_chars(&chars_of(content), terminal_width))
}

/// The sum of the first `k` grown widths.
pub open spec fn grown_total(natural: Seq<usize>, available: int, k: int) -> int
    decreases k,
{
    if k <= 0 {
        0
    } else {
        grown_total(natural, available, k - 1) + grown_width(natural, available, k - 1)
    }
}

/// What was handed out grows from column to column and stays within the
/// surplus.
pub proof fn lemma_shares_given_bounds(natural: Seq<usize>, extra: int, k: int)
    requires
        0 <= k <= natural.len(),
        0 <= extra,
        0 < total(natural),
    ensures
        0 <= shares_given(natural, extra, k) <= extra,
        k > 0 ==> shares_given(natural, extra, k - 1) <= shares_given(natural, extra, k),
    decreases k,
{
    if k > 0 {
        lemma_shares_given_bounds(natural, extra, k - 1);
        lemma_total_covers(natural, k - 1);
        lemma_share_bounds(extra, natural[k - 1] as int, total(natural));
    }
}

/// A grown column is no narrower than it was and no wider than the
/// available width.
pub proof fn lemma_grown_width_bounds(natural: Seq<usize>, available: int, i: int)
    requires
        0 <= i < natural.len(),
        0 < total(natural) < available,
    ensures
        natural[i] <= grown_width(natural, available, i) <= available,
{
    let extra = available - total(natural);
    lemma_total_covers(natural, i);
    lemma_shares_given_bounds(natural, extra, i);
    lemma_shares_given_bounds(natural, extra, i + 1);
    lemma_shares_given_bounds(natural, extra, natural.len() - 1);
}

proof fn lemma_grown_prefix(natural: Seq<usize>, available: int, k: int)
    requires
        0 <= k < natural.len(),
        0 < total(natural) < available,
    ensures
        grown_total(natural, available, k) == total(natural.take(k)) + shares_given(
            natural,
            available - total(natural),
            k,
        ),
    decreases k,
{
    if k > 0 {
        lemma_grown_prefix(natural, available, k - 1);
        lemma_total_take(natural, k - 1);
    } else {
        assert(natural.take(0) =~= Seq::<usize>::empty());
    }
}

/// Where the available width is more than the natural total, the grown
/// widths add up to the available width exactly.
pub proof fn lemma_grown_widths_fill(natural: Seq<usize>, available: int)
    requires
        0 < total(natural) < available,
    ensures
        grown_total(natural, available, natural.len() as int) == available,
{
    let n = natural.len() as int;
    assert(n > 0);
    lemma_grown_prefix(natural, available, n - 1);
    lemma_total_take(natural, n - 1);
    assert(natural.take(n) =~= natural);
}

proof fn lemma_grown_sum(natural: Seq<usize>, available: int, widths: Seq<usize>, k: int)
    requires
        0 <= k <= natural.len(),
        widths.len() == natural.len(),
        forall|i: int|
            0 <= i < natural.len() ==> widths[i] as int == grown_width(natural, available, i),
    ensures
        total(widths.take(k)) == grown_total(natural, available, k),
    decreases k,
{
    if k > 0 {
        lemma_grown_sum(natural, available, widths, k - 1);
        lemma_total_take(widths, k - 1);
    } else {
        assert(widths.take(0) =~= Seq::<usize>::empty());
    }
}

/// Where the available width is more than the natural total, widths that
/// are the grown widths of their columns add up to the available width
/// exactly.
pub proof fn lemma_distributed_widths_fill(
    natural: Seq<usize>,
    available: int,
    widths: Seq<usize>,
)
    requires
        0 < total(natural) < available,
        widths.len() == natural.len(),
        forall|i: int|
            0 <= i < natural.len() ==> widths[i] as int == grown_width(natural, available, i),
    ensures
        total(widths) == available,
{
    lemma_grown_widths_fill(natural, available);
    lemma_grown_sum(natural, available, widths, natural.len() as int);
    assert(widths.take(natural.len() as int) =~= widths);
}

/// Where the available width leaves the minimum for every column, the
/// columns before `k` leave it for every column from `k` on.
pub proof fn lemma_shrunk_used_fits(natural: Seq<usize>, available: int, k: int)
    requires
        0 <= k < natural.len(),
        0 < total(natural),
        available >= 3 * natural.len(),
    ensures
        0 <= shrunk_used(natural, available, k),
        shrunk_used(natural, available, k) + 3 * (natural.len() - k) <= available,
    decreases k,
{
    if k > 0 {
        lemma_shrunk_used_fits(natural, available, k - 1);
    }
}

/// The sum of the first `k` shrunk widths.
pub open spec fn shrunk_total(natural: Seq<usize>, available: int, k: int) -> int
    decreases k,
{
    if k <= 0 {
        0
    } else {
        shrunk_total(natural, available, k - 1) + shrunk_width(natural, available, k - 1)
    }
}

proof fn lemma_shrunk_prefix(natural: Seq<usize>, available: int, k: int)
    requires
        0 <= k < natural.len(),
        0 < total(natural),
    ensures
        shrunk_total(natural, available, k) == shrunk_used(natural, available, k),
    decreases k,
{
    if k > 0 {
        lemma_shrunk_prefix(natural, available, k - 1);
    }
}

proof fn lemma_shrunk_sum(natural: Seq<usize>, available: int, widths: Seq<usize>, k: int)
    requires
        0 <= k <= natural.len(),
        widths.len() == natural.len(),
        forall|i: int|
            0 <= i < natural.len() ==> widths[i] as int == shrunk_width(natural, available, i),
    ensures
        total(widths.take(k)) == shrunk_total(natural, available, k),
    decreases k,
{
    if k > 0 {
        lemma_shrunk_sum(natural, available, widths, k - 1);
        lemma_total_take(widths, k - 1);
    } else {
        assert(widths.take(0) =~= Seq::<usize>::empty());
    }
}

/// Shrunk columns fit: where the available width leaves the minimum for
/// every column, widths that are the shrunk widths of their columns add up
/// to the available width exactly, so that the row is never wider.
pub proof fn lemma_shrunk_widths_fit(natural: Seq<usize>, available: int, widths: Seq<usize>)
    requires
        0 < total(natural),
        available >= 3 * natural.len(),
        widths.len() == natural.len(),
        forall|i: int|
            0 <= i < natural.len() ==> widths[i] as int == shrunk_width(natural, available, i),
    ensures
        total(widths) == available,
{
    let n = natural.len() as int;
    assert(n > 0);
    lemma_shrunk_used_fits(natural, available, n - 1);
    lemma_shrunk_prefix(natural, available, n - 1);
    lemma_shrunk_sum(natural, available, widths, n);
    assert(widths.take(n) =~= widths);
}

/// Negotiated columns take the available width: where it leaves the
/// minimum for every column, widths that are the negotiated widths of their
/// columns add up to it exactly.
pub proof fn lemma_negotiated_widths_fill(
    natural: Seq<usize>,
    available: int,
    widths: Seq<usize>,
)
    requires
        0 < total(natural),
        available >= 3 * natural.len(),
        widths.len() == natural.len(),
        forall|i: int|
            0 <= i < natural.len() ==> widths[i] as int == negotiated_width(
                natural,
                available,
                i,
            ),
    ensures
        total(widths) == available,
{
    let t = total(natural);
    assert(natural.len() > 0);
    if available > t {
        lemma_distributed_widths_fill(natural, available, widths);
    } else if t > available {
        lemma_shrunk_widths_fit(natural, available, widths);
    } else {
        assert(widths =~= natural);
    }
}

proof fn lemma_shrunk_used_bounds(natural: Seq<usize>, available: int, k: int)
    requires
        0 <= k <= natural.len(),
        0 <= available,
        0 < total(natural),
    ensures
        0 <= shrunk_used(natural, available, k),
    decreases k,
{
    if k > 0 {
        lemma_shrunk_used_bounds(natural, available, k - 1);
    }
}

/// A negotiated width is no more than the largest of the available width,
/// the natural width of its column and the minimum.
pub proof fn lemma_negotiated_width_bounds(natural: Seq<usize>, available: int, i: int)
    requires
        0 <= i < natural.len(),
        0 <= available,
    ensures
        0 <= negotiated_width(natural, available, i),
        negotiated_width(natural, available, i) <= available || negotiated_width(
            natural,
            available,
            i,
        ) <= natural[i] || negotiated_width(natural, available, i) <= MIN_COLUMN,
{
    let t = total(natural);
    lemma_total_covers(natural, i);
    if t > 0 && available > t {
        lemma_grown_width_bounds(natural, available, i);
    } else if t > available && available > 0 {
        lemma_share_bounds(available, natural[i] as int, t);
        lemma_shrunk_used_bounds(natural, available, natural.len() - 1);
        lemma_shrunk_used_bounds(natural, available, i);
    }
}

/// No negotiated width is under the minimum, where no natural width is.
pub proof fn lemma_widths_keep_minimum(natural: Seq<usize>, available: int, i: int)
    requires
        0 <= i < natural.len(),
        forall|j: int| 0 <= j < natural.len() ==> natural[j] >= MIN_COLUMN,
    ensures
        negotiated_width(natural, available, i) >= MIN_COLUMN,
{
    let t = total(natural);
    lemma_total_covers(natural, i);
    if t > 0 && available > t {
        lemma_grown_width_bounds(natural, available, i);
    }
}

proof fn lemma_joined_length(parts: Seq<Seq<char>>, widths: Seq<usize>, sep: Seq<char>)
    requires
        parts.len() == widths.len(),
        parts.len() > 0,
        forall|j: int| 0 <= j < parts.len() ==> (#[trigger] parts[j]).len() == widths[j],
    ensures
        joined(parts, sep).len() == total(widths) + sep.len() * (parts.len() - 1),
    decreases parts.len(),
{
    if parts.len() > 1 {
        let front = parts.drop_last();
        let front_widths = widths.drop_last();
        assert forall|j: int| 0 <= j < front.len() implies (#[trigger] front[j]).len()
            == front_widths[j] by {
            assert(front[j] == parts[j]);
        }
        lemma_joined_length(front, front_widths, sep);
        assert(sep.len() * (parts.len() - 1) == sep.len() * (front.len() - 1) + sep.len())
            by (nonlinear_arith)
            requires
                front.len() == parts.len() - 1,
        ;
        assert(joined(parts, sep) == joined(front, sep) + sep + parts.last());
        assert(total(widths) == total(front_widths) + widths.last());
        assert(parts.last().len() == widths.last());
    } else {
        assert(widths.drop_last() =~= Seq::<usize>::empty());
        assert(sep.len() * (parts.len() - 1) == 0) by (nonlinear_arith)
            requires
                parts.len() == 1,
        ;
        assert(joined(parts, sep) == parts[0]);
        assert(total(widths) == total(widths.drop_last()) + widths.last());
        assert(parts[0].len() == widths[0]);
    }
}

proof fn lemma_column_natural_minimum(rows: Seq<Seq<Seq<char>>>, j: int)
    ensures
        column_natural(rows, j) >= MIN_COLUMN,
    decreases rows.len(),
{
    if rows.len() > 0 {
        lemma_column_natural_minimum(rows.drop_last(), j);
    }
}

/// A table line formatted for widths is as long as the widths together
/// with a bar and two spaces for each column and the bar that closes the
/// row.
pub proof fn lemma_formatted_row_length(line: Seq<char>, widths: Seq<usize>)
    requires
        widths.len() > 0,
    ensures
        formatted_row(line, widths).len() == total(widths) + 3 * widths.len() + 1,
{
    let parts = if is_separator(line) {
        rule_cells(widths)
    } else {
        data_cells(cells_of(line), widths)
    };
    assert forall|j: int| 0 <= j < parts.len() implies (#[trigger] parts[j]).len()
        == widths[j] by {}
    let sep = seq![' ', '|', ' '];
    lemma_joined_length(parts, widths, sep);
    assert(sep.len() == 3);
    assert(formatted_row(line, widths) == bar_row(parts));
    assert(bar_row(parts).len() == 2 + joined(parts, sep).len() + 2);
}

/// A formatted table fills the terminal: where the terminal leaves three
/// columns for every cell beside the bars and spaces, every line of the
/// table is exactly as long as the terminal is wide.
pub proof fn lemma_formatted_table_fills(lines: Seq<Seq<char>>, start: int, terminal_width: int)
    requires
        formatted_table(lines, start, terminal_width).is_some(),
        terminal_width <= usize::MAX,
        terminal_width >= 6 * column_count(
            table_rows(lines, start, table_end(lines, start)),
        ) + 1,
        forall|j: int|
            column_natural(table_rows(lines, start, table_end(lines, start)), j) <= usize::MAX,
    ensures
        forall|k: int|
            0 <= k < formatted_table(lines, start, terminal_width).unwrap().1.len() ==> (
            #[trigger] formatted_table(lines, start, terminal_width).unwrap().1[k]).len()
                == terminal_width,
{
    let end = table_end(lines, start);
    let rows = table_rows(lines, start, end);
    let cols = column_count(rows) as int;
    let natural = natural_widths(rows);
    let available = available_width(terminal_width, cols);
    let widths = negotiated(natural, available);
    assert(available == terminal_width - (3 * cols + 1));
    assert forall|j: int| 0 <= j < natural.len() implies natural[j] >= MIN_COLUMN by {
        lemma_column_natural_minimum(rows, j);
    }
    lemma_total_covers(natural, 0);
    assert forall|i: int| 0 <= i < natural.len() implies widths[i] as int == negotiated_width(
        natural,
        available,
        i,
    ) by {
        lemma_negotiated_width_bounds(natural, available, i);
    }
    lemma_negotiated_widths_fill(natural, available, widths);
    let made = formatted_table(lines, start, terminal_width).unwrap().1;
    assert forall|k: int| 0 <= k < made.len() implies (#[trigger] made[k]).len()
        == terminal_width by {
        lemma_formatted_row_length(lines[start + k], widths);
    }
}

proof fn lemma_kept_lines(lines: Seq<Seq<char>>, width: int, i: int, in_fence: bool)
    requires
        0 <= i <= lines.len(),
        forall|k: int| 0 <= k < lines.len() ==> without_cr(#[trigger] lines[k]).len() <= width,
    ensures
        wrapped_lines_from(lines, width, i, in_fence) == lines.subrange(i, lines.len() as int),
    decreases lines.len() - i,
{
    if i < lines.len() {
        let next_fence = if is_fence_line(lines[i]) {
            !in_fence
        } else {
            in_fence
        };
        lemma_kept_lines(lines, width, i + 1, next_fence);
        assert(without_cr(lines[i]).len() <= width);
        assert(seq![lines[i]] + lines.subrange(i + 1, lines.len() as int) =~= lines.subrange(
            i,
            lines.len() as int,
        ));
    } else {
        assert(lines.subrange(i, lines.len() as int) =~= Seq::<Seq<char>>::empty());
    }
}

/// Wrapping changes nothing where every line fits already: the text comes
/// back as it is, line endings included.
pub proof fn lemma_hard_wrap_keeps_fitting_text(content: Seq<char>, width: int)
    requires
        0 <= width,
        forall|k: int|
            0 <= k < lines_of(content).len() ==> (#[trigger] lines_of(content)[k]).len() <= width,
    ensures
        hard_wrapped(content, width) == content,
{
    if width > 0 {
        let pieces = split(content, '\n');
        assert forall|k: int| 0 <= k < lines_from(content, 0, 0).len() implies (#[trigger] lines_from(content, 0, 0)[k]).len()
            <= width by {
            assert(lines_from(content, 0, 0)[k] == lines_of(content)[k]);
        }
        crate::text::lemma_pieces_fit(content, 0, 0, width);
        lemma_kept_lines(pieces, width, 0, false);
        assert(pieces.subrange(0, pieces.len() as int) =~= pieces);
        crate::text::lemma_joined_split(content, '\n');
    }
}

/// The continuation indent is at most two characters longer than the line.
pub proof fn lemma_continuation_length(line: Seq<char>)
    ensures
        continuation(line).len() <= line.len() + 2,
{
    lemma_ws_end_bounds(line, 0);
    let lead = ws_end(line, 0);
    let rest = line.subrange(lead, line.len() as int);
    crate::text::lemma_find_from(rest, seq!['.', ' '], 0);
}

/// Whether `s` is plain prose for the width: words of at most `width`
/// characters, with a single space between each two and none at either end,
/// and no other whitespace.
pub open spec fn is_plain_prose(s: Seq<char>, width: int) -> bool {
    &&& s.len() > 0 ==> s[0] != ' ' && s.last() != ' '
    &&& forall|i: int| 0 <= i < s.len() - 1 ==> !(#[trigger] s[i] == ' ' && s[i + 1] == ' ')
    &&& forall|i: int| 0 <= i < s.len() && is_whitespace(#[trigger] s[i]) ==> s[i] == ' '
    &&& forall|i: int|
        0 <= i && i + width < s.len() ==> last_index_before(s, ' ', #[trigger] (i + width) + 1)
            >= i
}

proof fn lemma_prose_wraps(s: Seq<char>, width: int, first: bool)
    requires
        width > 0,
        is_plain_prose(s, width),
    ensures
        joined(wrapped(s, width, Seq::empty(), first), seq![' ']) == s,
        s.len() > 0 ==> wrapped(s, width, Seq::empty(), first).len() > 0,
        forall|k: int|
            0 <= k < wrapped(s, width, Seq::empty(), first).len() ==> has_no_break(
                #[trigger] wrapped(s, width, Seq::empty(), first)[k],
            ) && 0 < wrapped(s, width, Seq::empty(), first)[k].len() <= width,
    decreases s.len(),
{
    let none = Seq::<char>::empty();
    assert(has_no_break(s)) by {
        assert forall|i: int| 0 <= i < s.len() implies #[trigger] s[i] != '\n' && s[i]
            != '\r' by {
            if s[i] == '\n' || s[i] == '\r' {
                assert(is_whitespace(s[i]));
            }
        }
    }
    if s.len() == 0 {
    } else if s.len() <= width {
        assert(none + s =~= s);
        assert(wrapped(s, width, none, first) =~= seq![s]);
    } else {
        let pos = last_index_before(s, ' ', width + 1);
        assert(last_index_before(s, ' ', (0 + width) + 1) >= 0);
        lemma_last_index_before(s, ' ', width + 1);
        assert(0 < pos <= width);
        let tail = s.subrange(pos, s.len() as int);
        let rest = s.subrange(pos + 1, s.len() as int);
        assert(tail[0] == s[pos]);
        assert(tail[1] == s[pos + 1]);
        assert(s[pos + 1] != ' ');
        assert(!is_whitespace(s[pos + 1]));
        assert(ws_end(tail, 1) == 1);
        assert(ws_end(tail, 0) == 1);
        assert(trimmed_start(tail) =~= rest);
        assert(rest.last() == s.last());
        assert(rest[0] == s[pos + 1]);
        assert forall|i: int| 0 <= i < rest.len() - 1 implies !(#[trigger] rest[i] == ' ' && rest[i
            + 1] == ' ') by {
            assert(rest[i] == s[pos + 1 + i] && rest[i + 1] == s[pos + 1 + i + 1]);
        }
        assert forall|i: int| 0 <= i < rest.len() && is_whitespace(#[trigger] rest[i]) implies rest[i]
            == ' ' by {
            assert(rest[i] == s[pos + 1 + i]);
        }
        assert forall|i: int| 0 <= i && i + width < rest.len() implies last_index_before(
            rest,
            ' ',
            #[trigger] (i + width) + 1,
        ) >= i by {
            let j = last_index_before(s, ' ', ((pos + 1 + i) + width) + 1);
            assert(j >= pos + 1 + i);
            lemma_last_index_before(s, ' ', pos + 1 + i + width + 1);
            lemma_last_index_before(rest, ' ', i + width + 1);
            assert(rest[j - pos - 1] == s[j]);
        }
        lemma_prose_wraps(rest, width, false);
        let head = none + s.subrange(0, pos);
        assert(head =~= s.subrange(0, pos));
        assert(wrapped(s, width, none, first) =~= seq![head] + wrapped(rest, width, none, false));
        lemma_joined_first(head, wrapped(rest, width, none, false), seq![' ']);
        assert(head + seq![' '] + rest =~= s);
        assert(has_no_break(head)) by {
            assert forall|i: int| 0 <= i < head.len() implies #[trigger] head[i] != '\n'
                && head[i] != '\r' by {
                assert(head[i] == s[i]);
            }
        }
        let pieces = wrapped(s, width, none, first);
        assert forall|k: int| 0 <= k < pieces.len() implies has_no_break(#[trigger] pieces[k])
            && 0 < pieces[k].len() <= width by {
            if k > 0 {
                assert(pieces[k] == wrapped(rest, width, none, false)[k - 1]);
            }
        }
    }
}

/// Plain prose that is wrapped comes back when its lines are joined by
/// single spaces again: for a line without list or quote marker, made of
/// words no longer than the width with single spaces between them.
pub proof fn lemma_wrapped_prose_rejoins(s: Seq<char>, width: int)
    requires
        width > 0,
        is_plain_prose(s, width),
        continuation(s).len() == 0,
    ensures
        joined(wrapped_lines_from(seq![s], width, 0, false), seq![' ']) == s,
{
    let lines = seq![s];
    assert(wrapped_lines_from(lines, width, 1, false) =~= Seq::<Seq<char>>::empty());
    assert(wrapped_lines_from(lines, width, 1, true) =~= Seq::<Seq<char>>::empty());
    assert(continuation(s) =~= Seq::<char>::empty());
    lemma_prose_wraps(s, width, true);
    assert(without_cr(s) == s) by {
        if s.len() > 0 && s.last() == '\r' {
            assert(is_whitespace(s[s.len() - 1]));
        }
    }
    if is_kept(s, width, false) {
        assert(wrapped_lines_from(lines, width, 0, false) =~= seq![s]);
    } else {
        assert(wrapped_line(s, width) == wrapped(s, width, Seq::empty(), true));
        assert(wrapped_lines_from(lines, width, 0, false) =~= wrapped(
            s,
            width,
            Seq::empty(),
            true,
        ));
    }
}

/// Plain prose comes back from `hard_wrap`: the lines of the wrapped text,
/// joined by single spaces, are the text. This holds for a line without
/// list or quote marker, made of words no longer than the width with single
/// spaces between them. Where the line is no heading, table row or fence
/// either, none of the wrapped lines is longer than the width.
pub proof fn lemma_hard_wrapped_prose_rejoins(s: Seq<char>, width: int)
    requires
        width > 0,
        is_plain_prose(s, width),
        continuation(s).len() == 0,
    ensures
        joined(lines_of(hard_wrapped(s, width)), seq![' ']) == s,
        !is_fence_line(s) && !is_heading_line(s) && !is_table_line(s) ==> forall|k: int|
            0 <= k < lines_of(hard_wrapped(s, width)).len() ==> (#[trigger] lines_of(
                hard_wrapped(s, width),
            )[k]).len() <= width,
{
    assert(has_no_break(s)) by {
        assert forall|i: int| 0 <= i < s.len() implies #[trigger] s[i] != '\n' && s[i]
            != '\r' by {
            if s[i] == '\n' || s[i] == '\r' {
                assert(is_whitespace(s[i]));
            }
        }
    }
    crate::text::lemma_split_single(s, '\n', 0);
    let lines = seq![s];
    assert(split(s, '\n') == lines);
    let pieces = wrapped_lines_from(lines, width, 0, false);
    assert(wrapped_lines_from(lines, width, 1, false) =~= Seq::<Seq<char>>::empty());
    assert(wrapped_lines_from(lines, width, 1, true) =~= Seq::<Seq<char>>::empty());
    assert(without_cr(s) == s);
    if s.len() == 0 {
        assert(pieces =~= seq![s]);
        assert(hard_wrapped(s, width) =~= s);
        assert(lines_of(s) =~= Seq::<Seq<char>>::empty());
    } else {
        lemma_prose_wraps(s, width, true);
        lemma_wrapped_prose_rejoins(s, width);
        assert(continuation(s) =~= Seq::<char>::empty());
        if is_kept(s, width, false) {
            assert(pieces =~= seq![s]);
        } else {
            assert(wrapped_line(s, width) == wrapped(s, width, Seq::empty(), true));
            assert(pieces =~= wrapped(s, width, Seq::empty(), true));
        }
        assert forall|k: int, j: int|
            0 <= k < pieces.len() && 0 <= j < pieces[k].len() implies #[trigger] pieces[k][j]
            != '\n' by {
            assert(has_no_break(pieces[k]));
        }
        assert forall|k: int|
            0 <= k < pieces.len() && pieces[k].len() > 0 implies (#[trigger] pieces[k]).last()
            != '\r' by {
            assert(has_no_break(pieces[k]));
            assert(pieces[k].last() == pieces[k][pieces[k].len() - 1]);
        }
        crate::text::lemma_lines_of_joined(pieces);
    }
}

/// Whether a text holds neither a line feed nor a carriage return.
pub open spec fn has_no_break(s: Seq<char>) -> bool {
    forall|i: int| 0 <= i < s.len() ==> #[trigger] s[i] != '\n' && s[i] != '\r'
}

/// The continuation indent of a line without line breaks has none either.
pub proof fn lemma_continuation_has_no_break(line: Seq<char>)
    requires
        has_no_break(line),
    ensures
        has_no_break(continuation(line)),
{
    lemma_ws_end_bounds(line, 0);
    let lead = ws_end(line, 0);
    let kept = line.subrange(0, lead);
    assert forall|i: int| 0 <= i < kept.len() implies #[trigger] kept[i] != '\n' && kept[i]
        != '\r' by {
        assert(kept[i] == line[i]);
    }
    let quoted = kept + seq!['>', ' '];
    assert forall|i: int| 0 <= i < quoted.len() implies #[trigger] quoted[i] != '\n' && quoted[i]
        != '\r' by {
        if i < kept.len() {
            assert(quoted[i] == kept[i]);
        }
    }
}

} // verus!
