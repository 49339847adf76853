//! Character-sequence primitives shared by the layout code.
//!
//! Every function here works on `Vec<char>` and is specified over `Seq<char>`,
//! so that widths and split points are counted in characters, never in bytes.

use vstd::prelude::*;

verus! {

/// `String::push` appends exactly one character to the end of the string.
pub assume_specification[ String::push ](s: &mut String, c: char)
    ensures
        final(s)@ == old(s)@.push(c),
;

/// The characters of `s`, in order.
pub fn chars_of(s: &str) -> (v: Vec<char>)
    ensures
        v@ == s@,
{
    let mut v: Vec<char> = Vec::new();
    for c in it: s.chars()
        invariant
            v@ == it.seq().take(it.index() as int),
            it.seq() == s@,
    {
        v.push(c);
    }
    v
}

/// The string made of the characters of `v`, in order.
pub fn string_of(v: &Vec<char>) -> (s: String)
    ensures
        s@ == v@,
{
    let mut s = String::new();
    let mut i: usize = 0;
    while i < v.len()
        invariant
            i <= v.len(),
            s@ == v@.take(i as int),
        decreases v.len() - i,
    {
        s.push(v[i]);
        i += 1;
    }
    s
}

/// The views of a list of texts.
pub open spec fn texts(v: Seq<Vec<char>>) -> Seq<Seq<char>> {
    Seq::new(v.len(), |i: int| v[i]@)
}

/// The views of a list of strings.
pub open spec fn string_texts(v: Seq<String>) -> Seq<Seq<char>> {
    Seq::new(v.len(), |i: int| v[i]@)
}

/// Characters with the Unicode `White_Space` property.
pub open spec fn is_whitespace(c: char) -> bool {
    ||| c == ' '
    ||| ('\u{9}' <= c && c <= '\u{d}')
    ||| c == '\u{85}'
    ||| c == '\u{a0}'
    ||| c == '\u{1680}'
    ||| ('\u{2000}' <= c && c <= '\u{200a}')
    ||| c == '\u{2028}'
    ||| c == '\u{2029}'
    ||| c == '\u{202f}'
    ||| c == '\u{205f}'
    ||| c == '\u{3000}'
}

/// Whether `c` is whitespace.
pub fn is_ws(c: char) -> (b: bool)
    ensures
        b == is_whitespace(c),
{
    c == ' ' || ('\u{9}' <= c && c <= '\u{d}') || c == '\u{85}' || c == '\u{a0}' || c
        == '\u{1680}' || ('\u{2000}' <= c && c <= '\u{200a}') || c == '\u{2028}' || c
        == '\u{2029}' || c == '\u{202f}' || c == '\u{205f}' || c == '\u{3000}'
}

/// Whether `c` is one of the digits 0 to 9.
pub open spec fn is_digit(c: char) -> bool {
    '0' <= c && c <= '9'
}

/// Whether `c` is one of the digits 0 to 9.
pub fn is_ascii_digit(c: char) -> (b: bool)
    ensures
        b == is_digit(c),
{
    '0' <= c && c <= '9'
}

/// The first position at or after `i` that holds no whitespace (`s.len()` if
/// everything from `i` on is whitespace).
pub open spec fn ws_end(s: Seq<char>, i: int) -> int
    decreases s.len() - i,
{
    if 0 <= i < s.len() && is_whitespace(s[i]) {
        ws_end(s, i + 1)
    } else {
        i
    }
}

/// The position after the last non-whitespace character before `j` (0 if
/// everything before `j` is whitespace).
pub open spec fn ws_begin(s: Seq<char>, j: int) -> int
    decreases j,
{
    if 0 < j <= s.len() && is_whitespace(s[j - 1]) {
        ws_begin(s, j - 1)
    } else {
        j
    }
}

/// The end of the whitespace from `i` on lies between `i` and the end of the text.
pub proof fn lemma_ws_end_bounds(s: Seq<char>, i: int)
    requires
        0 <= i <= s.len(),
    ensures
        i <= ws_end(s, i) <= s.len(),
    decreases s.len() - i,
{
    if i < s.len() && is_whitespace(s[i]) {
        lemma_ws_end_bounds(s, i + 1);
    }
}

/// `s` without its leading whitespace.
pub open spec fn trimmed_start(s: Seq<char>) -> Seq<char> {
    s.subrange(ws_end(s, 0), s.len() as int)
}

/// `s` without its trailing whitespace.
pub open spec fn trimmed_end(s: Seq<char>) -> Seq<char> {
    s.subrange(0, ws_begin(s, s.len() as int))
}

/// `s` without leading and trailing whitespace.
pub open spec fn trimmed(s: Seq<char>) -> Seq<char> {
    trimmed_end(trimmed_start(s))
}

/// The first position at or after `from` that holds no whitespace.
pub fn skip_ws(s: &Vec<char>, from: usize) -> (r: usize)
    requires
        from <= s.len(),
    ensures
        r == ws_end(s@, from as int),
        from <= r <= s.len(),
{
    let mut i = from;
    while i < s.len() && is_ws(s[i])
        invariant
            from <= i <= s.len(),
            ws_end(s@, i as int) == ws_end(s@, from as int),
        decreases s.len() - i,
    {
        i += 1;
    }
    i
}

/// The position after the last character before `to` that is no whitespace.
pub fn skip_ws_back(s: &Vec<char>, to: usize) -> (r: usize)
    requires
        to <= s.len(),
    ensures
        r == ws_begin(s@, to as int),
        r <= to,
{
    let mut j = to;
    while j > 0 && is_ws(s[j - 1])
        invariant
            j <= to <= s.len(),
            ws_begin(s@, j as int) == ws_begin(s@, to as int),
        decreases j,
    {
        j -= 1;
    }
    j
}

/// The characters of `s` from `a` up to, not including, `b`.
pub fn slice(s: &Vec<char>, a: usize, b: usize) -> (r: Vec<char>)
    requires
        a <= b <= s.len(),
    ensures
        r@ == s@.subrange(a as int, b as int),
{
    let mut r: Vec<char> = Vec::new();
    let mut i = a;
    while i < b
        invariant
            a <= i <= b <= s.len(),
            r@ == s@.subrange(a as int, i as int),
        decreases b - i,
    {
        r.push(s[i]);
        i += 1;
    }
    r
}

/// Appends `src` to `dst`.
pub fn append(dst: &mut Vec<char>, src: &Vec<char>)
    ensures
        final(dst)@ == old(dst)@ + src@,
{
    let mut i: usize = 0;
    while i < src.len()
        invariant
            i <= src.len(),
            dst@ == old(dst)@ + src@.take(i as int),
        decreases src.len() - i,
    {
        dst.push(src[i]);
        i += 1;
    }
    assert(src@.take(src.len() as int) == src@);
}

/// `a` followed by `b`.
pub fn concat(a: &Vec<char>, b: &Vec<char>) -> (r: Vec<char>)
    ensures
        r@ == a@ + b@,
{
    let mut r: Vec<char> = Vec::new();
    append(&mut r, a);
    append(&mut r, b);
    r
}

/// A copy of `a`.
pub fn copy(a: &Vec<char>) -> (r: Vec<char>)
    ensures
        r@ == a@,
{
    let mut r: Vec<char> = Vec::new();
    append(&mut r, a);
    r
}

/// `s` without its leading whitespace.
pub fn trim_start(s: &Vec<char>) -> (r: Vec<char>)
    ensures
        r@ == trimmed_start(s@),
{
    let a = skip_ws(s, 0);
    slice(s, a, s.len())
}

/// `s` without its trailing whitespace.
pub fn trim_end(s: &Vec<char>) -> (r: Vec<char>)
    ensures
        r@ == trimmed_end(s@),
{
    let b = skip_ws_back(s, s.len());
    slice(s, 0, b)
}

/// `s` without leading and trailing whitespace.
pub fn trim(s: &Vec<char>) -> (r: Vec<char>)
    ensures
        r@ == trimmed(s@),
{
    let t = trim_start(s);
    trim_end(&t)
}

/// Whether two texts hold the same characters.
pub fn same_text(a: &Vec<char>, b: &Vec<char>) -> (r: bool)
    ensures
        r == (a@ == b@),
{
    if a.len() != b.len() {
        return false;
    }
    let mut i: usize = 0;
    while i < a.len()
        invariant
            i <= a.len(),
            a.len() == b.len(),
            forall|j: int| 0 <= j < i ==> a@[j] == b@[j],
        decreases a.len() - i,
    {
        if a[i] != b[i] {
            return false;
        }
        i += 1;
    }
    assert(a@ =~= b@);
    true
}

/// Whether two strings hold the same characters.
pub fn same_str(a: &str, b: &str) -> (r: bool)
    ensures
        r == (a@ == b@),
{
    same_text(&chars_of(a), &chars_of(b))
}

/// Whether `p` occurs in `s` starting at position `i`.
pub open spec fn matches_at(s: Seq<char>, p: Seq<char>, i: int) -> bool {
    0 <= i && i + p.len() <= s.len() && s.subrange(i, i + p.len()) == p
}

/// Whether `s` starts with `p`.
pub open spec fn has_prefix(s: Seq<char>, p: Seq<char>) -> bool {
    matches_at(s, p, 0)
}

/// Whether `p` occurs in `s` at position `i`.
pub fn match_at(s: &Vec<char>, p: &Vec<char>, i: usize) -> (r: bool)
    ensures
        r == matches_at(s@, p@, i as int),
{
    if i > s.len() || p.len() > s.len() - i {
        return false;
    }
    let mut k: usize = 0;
    while k < p.len()
        invariant
            k <= p.len(),
            i + p.len() <= s.len(),
            forall|j: int| 0 <= j < k ==> s@[i + j] == p@[j],
        decreases p.len() - k,
    {
        if s[i + k] != p[k] {
            assert(s@.subrange(i as int, i + p.len())[k as int] == s@[i + k]);
            return false;
        }
        k += 1;
    }
    assert(s@.subrange(i as int, i + p.len()) =~= p@);
    true
}

/// The first position at or after `i` that holds `c`, or -1.
pub open spec fn index_of_from(s: Seq<char>, c: char, i: int) -> int
    decreases s.len() - i,
{
    if i < 0 || i >= s.len() {
        -1
    } else if s[i] == c {
        i
    } else {
        index_of_from(s, c, i + 1)
    }
}

/// The index found holds `c`, and no position from `i` up to it does.
pub proof fn lemma_index_of_from(s: Seq<char>, c: char, i: int)
    requires
        0 <= i,
    ensures
        index_of_from(s, c, i) == -1 || (i <= index_of_from(s, c, i) < s.len() && s[index_of_from(
            s,
            c,
            i,
        )] == c),
        forall|j: int|
            i <= j < s.len() && (index_of_from(s, c, i) == -1 || j < index_of_from(s, c, i))
                ==> s[j] != c,
    decreases s.len() - i,
{
    if i < s.len() && s[i] != c {
        lemma_index_of_from(s, c, i + 1);
    }
}

/// The first position at or after `from` that holds `c`.
pub fn find_char(s: &Vec<char>, c: char, from: usize) -> (r: Option<usize>)
    ensures
        match r {
            Some(k) => k == index_of_from(s@, c, from as int) && from <= k < s.len(),
            None => index_of_from(s@, c, from as int) == -1,
        },
{
    let mut i = from;
    while i < s.len()
        invariant
            from <= i,
            index_of_from(s@, c, i as int) == index_of_from(s@, c, from as int),
        decreases s.len() - i,
    {
        if s[i] == c {
            return Some(i);
        }
        i += 1;
    }
    None
}

/// Whether `c` occurs in `s`.
pub fn contains_char(s: &Vec<char>, c: char) -> (r: bool)
    ensures
        r == s@.contains(c),
{
    let r = find_char(s, c, 0);
    proof {
        lemma_index_of_from(s@, c, 0);
    }
    r.is_some()
}

/// The last position before `end` that holds `c`, or -1.
pub open spec fn last_index_before(s: Seq<char>, c: char, end: int) -> int
    decreases end,
{
    if end <= 0 || end > s.len() {
        -1
    } else if s[end - 1] == c {
        end - 1
    } else {
        last_index_before(s, c, end - 1)
    }
}

/// The index found holds `c`, and no position after it and before `end` does.
pub proof fn lemma_last_index_before(s: Seq<char>, c: char, end: int)
    requires
        end <= s.len(),
    ensures
        -1 <= last_index_before(s, c, end) < end || (end < 0 && last_index_before(s, c, end) == -1),
        last_index_before(s, c, end) >= 0 ==> s[last_index_before(s, c, end)] == c,
        forall|j: int| last_index_before(s, c, end) < j < end && 0 <= j ==> s[j] != c,
    decreases end,
{
    if end > 0 && s[end - 1] != c {
        lemma_last_index_before(s, c, end - 1);
    }
}

/// The last position before `end` that holds `c`.
pub fn rfind_char(s: &Vec<char>, c: char, end: usize) -> (r: Option<usize>)
    requires
        end <= s.len(),
    ensures
        match r {
            Some(k) => k == last_index_before(s@, c, end as int) && k < end,
            None => last_index_before(s@, c, end as int) == -1,
        },
{
    let mut j = end;
    while j > 0
        invariant
            j <= end <= s.len(),
            last_index_before(s@, c, j as int) == last_index_before(s@, c, end as int),
        decreases j,
    {
        if s[j - 1] == c {
            return Some(j - 1);
        }
        j -= 1;
    }
    None
}

/// The first position at or after `i` where `p` occurs in `s`, or -1.
pub open spec fn find_from(s: Seq<char>, p: Seq<char>, i: int) -> int
    decreases s.len() - i,
{
    if i < 0 || i + p.len() > s.len() {
        -1
    } else if matches_at(s, p, i) {
        i
    } else if i >= s.len() {
        -1
    } else {
        find_from(s, p, i + 1)
    }
}

/// `p` occurs at the position found, and at no position from `i` up to it.
pub proof fn lemma_find_from(s: Seq<char>, p: Seq<char>, i: int)
    requires
        0 <= i,
    ensures
        find_from(s, p, i) == -1 || (i <= find_from(s, p, i) && matches_at(
            s,
            p,
            find_from(s, p, i),
        )),
        forall|j: int|
            i <= j && (find_from(s, p, i) == -1 || j < find_from(s, p, i)) ==> !matches_at(s, p, j),
    decreases s.len() - i,
{
    if i + p.len() <= s.len() && !matches_at(s, p, i) && i < s.len() {
        lemma_find_from(s, p, i + 1);
    } else if i + p.len() <= s.len() && i >= s.len() {
        assert(s.subrange(i, i + p.len()) =~= p);
    }
}

/// The first position at or after `from` where `p` occurs in `s`.
pub fn find_text(s: &Vec<char>, p: &Vec<char>, from: usize) -> (r: Option<usize>)
    ensures
        match r {
            Some(k) => k == find_from(s@, p@, from as int) && from <= k && k + p.len() <= s.len(),
            None => find_from(s@, p@, from as int) == -1,
        },
{
    if p.len() > s.len() || from > s.len() - p.len() {
        return None;
    }
    let last = s.len() - p.len();
    let mut i = from;
    while i < last
        invariant
            from <= i <= last,
            last == s.len() - p.len(),
            find_from(s@, p@, i as int) == find_from(s@, p@, from as int),
        decreases last - i,
    {
        if match_at(s, p, i) {
            return Some(i);
        }
        i += 1;
    }
    if match_at(s, p, last) {
        Some(last)
    } else {
        assert(find_from(s@, p@, last + 1) == -1);
        None
    }
}

/// `n` copies of `c`.
pub open spec fn repeated(c: char, n: nat) -> Seq<char> {
    Seq::new(n, |i: int| c)
}

/// `n` copies of `c`.
pub fn repeat_char(c: char, n: usize) -> (r: Vec<char>)
    ensures
        r@ == repeated(c, n as nat),
{
    let mut r: Vec<char> = Vec::new();
    let mut i: usize = 0;
    while i < n
        invariant
            i <= n,
            r@ == repeated(c, i as nat),
        decreases n - i,
    {
        r.push(c);
        i += 1;
    }
    r
}

/// `n` copies of `c`, for a count that may be beyond `usize`.
pub fn repeat_char_wide(c: char, n: u128) -> (r: Vec<char>)
    ensures
        r@ == repeated(c, n as nat),
{
    let mut r: Vec<char> = Vec::new();
    let mut i: u128 = 0;
    while i < n
        invariant
            i <= n,
            r@ == repeated(c, i as nat),
        decreases n - i,
    {
        r.push(c);
        i += 1;
    }
    r
}

/// `n` copies of `p`, one after the other.
pub open spec fn repeated_text(p: Seq<char>, n: nat) -> Seq<char>
    decreases n,
{
    if n == 0 {
        Seq::empty()
    } else {
        repeated_text(p, (n - 1) as nat) + p
    }
}

/// `n` copies of `p`, one after the other.
pub fn repeat_text(p: &Vec<char>, n: usize) -> (r: Vec<char>)
    ensures
        r@ == repeated_text(p@, n as nat),
{
    let mut r: Vec<char> = Vec::new();
    let mut i: usize = 0;
    while i < n
        invariant
            i <= n,
            r@ == repeated_text(p@, i as nat),
        decreases n - i,
    {
        append(&mut r, p);
        i += 1;
    }
    r
}

/// The pieces of `s` between occurrences of `sep`, scanning from `i` with the
/// current piece starting at `cur`. There is always at least one piece.
pub open spec fn split_from(s: Seq<char>, sep: char, i: int, cur: int) -> Seq<Seq<char>>
    decreases s.len() - i,
{
    if i < 0 || i >= s.len() {
        seq![s.subrange(cur, s.len() as int)]
    } else if s[i] == sep {
        seq![s.subrange(cur, i)] + split_from(s, sep, i + 1, i + 1)
    } else {
        split_from(s, sep, i + 1, cur)
    }
}

/// The pieces of `s` between occurrences of `sep`.
pub open spec fn split(s: Seq<char>, sep: char) -> Seq<Seq<char>> {
    split_from(s, sep, 0, 0)
}

/// Splitting always gives a piece.
pub proof fn lemma_split_from_nonempty(s: Seq<char>, sep: char, i: int, cur: int)
    ensures
        split_from(s, sep, i, cur).len() > 0,
    decreases s.len() - i,
{
    if 0 <= i < s.len() {
        if s[i] != sep {
            lemma_split_from_nonempty(s, sep, i + 1, cur);
        }
    }
}

/// The pieces found from `i` on, joined by the separator, are the text from
/// the start of the current piece on.
pub proof fn lemma_joined_split_from(s: Seq<char>, sep: char, i: int, cur: int)
    requires
        0 <= cur <= i <= s.len(),
    ensures
        joined(split_from(s, sep, i, cur), seq![sep]) == s.subrange(cur, s.len() as int),
    decreases s.len() - i,
{
    if i < s.len() {
        if s[i] == sep {
            let head = s.subrange(cur, i);
            let rest = split_from(s, sep, i + 1, i + 1);
            lemma_split_from_nonempty(s, sep, i + 1, i + 1);
            lemma_joined_split_from(s, sep, i + 1, i + 1);
            lemma_joined_first(head, rest, seq![sep]);
            assert(head + seq![sep] + s.subrange(i + 1, s.len() as int) =~= s.subrange(
                cur,
                s.len() as int,
            ));
        } else {
            lemma_joined_split_from(s, sep, i + 1, cur);
        }
    }
}

/// The pieces of a text, joined by the separator, are the text again.
pub proof fn lemma_joined_split(s: Seq<char>, sep: char)
    ensures
        joined(split(s, sep), seq![sep]) == s,
{
    lemma_joined_split_from(s, sep, 0, 0);
    assert(s.subrange(0, s.len() as int) =~= s);
}

/// Where every line of a text is at most `width` long, so is every piece
/// between its line feeds, not counting a carriage return at its end.
pub proof fn lemma_pieces_fit(s: Seq<char>, i: int, cur: int, width: int)
    requires
        0 <= cur <= i <= s.len(),
        0 <= width,
        forall|k: int|
            0 <= k < lines_from(s, i, cur).len() ==> (#[trigger] lines_from(s, i, cur)[k]).len()
                <= width,
    ensures
        forall|k: int|
            0 <= k < split_from(s, '\n', i, cur).len() ==> without_cr(
                #[trigger] split_from(s, '\n', i, cur)[k],
            ).len() <= width,
    decreases s.len() - i,
{
    let lines = lines_from(s, i, cur);
    let pieces = split_from(s, '\n', i, cur);
    if i >= s.len() {
        let piece = s.subrange(cur, s.len() as int);
        assert(pieces =~= seq![piece]);
        if cur < s.len() {
            assert(lines[0] == piece);
            assert(lines[0].len() <= width);
        }
        assert(without_cr(piece).len() <= piece.len());
    } else if s[i] == '\n' {
        let more = lines_from(s, i + 1, i + 1);
        assert(lines =~= seq![without_cr(s.subrange(cur, i))] + more);
        assert(pieces =~= seq![s.subrange(cur, i)] + split_from(s, '\n', i + 1, i + 1));
        assert forall|k: int| 0 <= k < more.len() implies (#[trigger] more[k]).len() <= width by {
            assert(more[k] == lines[k + 1]);
        }
        lemma_pieces_fit(s, i + 1, i + 1, width);
        assert(lines[0].len() <= width);
        assert forall|k: int| 0 <= k < pieces.len() implies without_cr(#[trigger] pieces[k]).len()
            <= width by {
            if k > 0 {
                assert(pieces[k] == split_from(s, '\n', i + 1, i + 1)[k - 1]);
            } else {
                assert(without_cr(pieces[0]) == lines[0]);
            }
        }
    } else {
        assert(lines == lines_from(s, i + 1, cur));
        assert(pieces == split_from(s, '\n', i + 1, cur));
        lemma_pieces_fit(s, i + 1, cur, width);
    }
}

/// A text without the separator is its own single piece.
pub proof fn lemma_split_single(s: Seq<char>, sep: char, i: int)
    requires
        0 <= i <= s.len(),
        forall|j: int| 0 <= j < s.len() ==> s[j] != sep,
    ensures
        split_from(s, sep, i, 0) == seq![s],
    decreases s.len() - i,
{
    if i < s.len() {
        lemma_split_single(s, sep, i + 1);
    } else {
        assert(s.subrange(0, s.len() as int) =~= s);
    }
}

/// The pieces of `s` between occurrences of `sep`.
pub fn split_on(s: &Vec<char>, sep: char) -> (r: Vec<Vec<char>>)
    ensures
        texts(r@) == split(s@, sep),
{
    let mut r: Vec<Vec<char>> = Vec::new();
    let mut i: usize = 0;
    let mut cur: usize = 0;
    while i < s.len()
        invariant
            cur <= i <= s.len(),
            texts(r@) + split_from(s@, sep, i as int, cur as int) == split(s@, sep),
        decreases s.len() - i,
    {
        if s[i] == sep {
            let piece = slice(s, cur, i);
            proof {
                assert(texts(r@.push(piece)) =~= texts(r@) + seq![piece@]);
                assert(texts(r@.push(piece)) + split_from(s@, sep, i + 1, i + 1) =~= texts(r@)
                    + split_from(s@, sep, i as int, cur as int));
            }
            r.push(piece);
            cur = i + 1;
        }
        i += 1;
    }
    let piece = slice(s, cur, s.len());
    proof {
        assert(texts(r@.push(piece)) =~= texts(r@) + seq![piece@]);
    }
    r.push(piece);
    r
}

/// A line without the carriage return that came before its line feed.
pub open spec fn without_cr(l: Seq<char>) -> Seq<char> {
    if l.len() > 0 && l.last() == '\r' {
        l.drop_last()
    } else {
        l
    }
}

/// The lines of `s`, scanning from `i` with the current line starting at
/// `cur`: a line ends at a line feed, and a carriage return right before it
/// belongs to the line ending. A last line without a line ending counts, if
/// it is not empty.
pub open spec fn lines_from(s: Seq<char>, i: int, cur: int) -> Seq<Seq<char>>
    decreases s.len() - i,
{
    if i < 0 || i >= s.len() {
        if cur < s.len() {
            seq![s.subrange(cur, s.len() as int)]
        } else {
            Seq::empty()
        }
    } else if s[i] == '\n' {
        seq![without_cr(s.subrange(cur, i))] + lines_from(s, i + 1, i + 1)
    } else {
        lines_from(s, i + 1, cur)
    }
}

/// The lines of `s`.
pub open spec fn lines_of(s: Seq<char>) -> Seq<Seq<char>> {
    lines_from(s, 0, 0)
}

/// Scanning for lines from `k + j` on in `x` finds what scanning from `j`
/// on finds in `x` without its first `k` characters.
pub proof fn lemma_lines_from_shift(x: Seq<char>, k: int, j: int, c: int)
    requires
        0 <= k <= x.len(),
        0 <= c <= j,
    ensures
        lines_from(x, k + j, k + c) == lines_from(x.subrange(k, x.len() as int), j, c),
    decreases x.len() - (k + j),
{
    let y = x.subrange(k, x.len() as int);
    if k + j >= x.len() {
        if k + c < x.len() {
            assert(x.subrange(k + c, x.len() as int) =~= y.subrange(c, y.len() as int));
        }
    } else {
        assert(y[j] == x[k + j]);
        if x[k + j] == '\n' {
            assert(x.subrange(k + c, k + j) =~= y.subrange(c, j));
            lemma_lines_from_shift(x, k, j + 1, j + 1);
        } else {
            lemma_lines_from_shift(x, k, j + 1, c);
        }
    }
}

/// Scanning for lines skips what holds no line feed.
pub proof fn lemma_lines_from_skip(x: Seq<char>, i: int, n: int)
    requires
        0 <= i <= n <= x.len(),
        forall|j: int| i <= j < n ==> x[j] != '\n',
    ensures
        lines_from(x, i, 0) == lines_from(x, n, 0),
    decreases n - i,
{
    if i < n {
        lemma_lines_from_skip(x, i + 1, n);
    }
}

/// A text without a line feed that is not empty is its own single line.
pub proof fn lemma_lines_of_single(a: Seq<char>)
    requires
        a.len() > 0,
        forall|j: int| 0 <= j < a.len() ==> a[j] != '\n',
    ensures
        lines_of(a) == seq![a],
{
    lemma_lines_from_skip(a, 0, a.len() as int);
    assert(a.subrange(0, a.len() as int) =~= a);
}

/// The lines of a line, a line feed and a text are the line and the lines
/// of the text, for a line without line feed that does not end in a
/// carriage return.
pub proof fn lemma_lines_of_front(a: Seq<char>, t: Seq<char>)
    requires
        forall|j: int| 0 <= j < a.len() ==> a[j] != '\n',
        a.len() > 0 ==> a.last() != '\r',
    ensures
        lines_of(a + seq!['\n'] + t) == seq![a] + lines_of(t),
{
    let x = a + seq!['\n'] + t;
    let n = a.len() as int;
    assert forall|j: int| 0 <= j < n implies x[j] != '\n' by {
        assert(x[j] == a[j]);
    }
    lemma_lines_from_skip(x, 0, n);
    assert(x[n] == '\n');
    assert(x.subrange(0, n) =~= a);
    lemma_lines_from_shift(x, n + 1, 0, 0);
    assert(x.subrange(n + 1, x.len() as int) =~= t);
}

/// Lines joined by line feeds come back as the lines of the text, where no
/// line holds a line feed or ends in a carriage return and the last line
/// is not empty.
pub proof fn lemma_lines_of_joined(lines: Seq<Seq<char>>)
    requires
        lines.len() > 0,
        forall|k: int, j: int|
            0 <= k < lines.len() && 0 <= j < lines[k].len() ==> #[trigger] lines[k][j] != '\n',
        forall|k: int|
            0 <= k < lines.len() && lines[k].len() > 0 ==> (#[trigger] lines[k]).last() != '\r',
        lines.last().len() > 0,
    ensures
        lines_of(joined(lines, seq!['\n'])) == lines,
    decreases lines.len(),
{
    if lines.len() == 1 {
        lemma_lines_of_single(lines[0]);
        assert(seq![lines[0]] =~= lines);
    } else {
        let rest = lines.subrange(1, lines.len() as int);
        assert(lines =~= seq![lines[0]] + rest);
        assert(rest.last() == lines.last());
        assert forall|k: int, j: int|
            0 <= k < rest.len() && 0 <= j < rest[k].len() implies #[trigger] rest[k][j]
            != '\n' by {
            assert(rest[k] == lines[k + 1]);
        }
        assert forall|k: int|
            0 <= k < rest.len() && rest[k].len() > 0 implies (#[trigger] rest[k]).last()
            != '\r' by {
            assert(rest[k] == lines[k + 1]);
        }
        lemma_lines_of_joined(rest);
        lemma_joined_first(lines[0], rest, seq!['\n']);
        lemma_lines_of_front(lines[0], joined(rest, seq!['\n']));
    }
}

/// A text joined in front of others comes first, then the separator, then
/// the others joined.
pub proof fn lemma_joined_first(a: Seq<char>, rest: Seq<Seq<char>>, sep: Seq<char>)
    requires
        rest.len() > 0,
    ensures
        joined(seq![a] + rest, sep) == a + sep + joined(rest, sep),
    decreases rest.len(),
{
    let all = seq![a] + rest;
    assert(all.last() == rest.last());
    if rest.len() == 1 {
        assert(all.drop_last() =~= seq![a]);
        assert(joined(seq![a], sep) == a);
        assert(joined(rest, sep) == rest[0]);
    } else {
        assert(all.drop_last() =~= seq![a] + rest.drop_last());
        lemma_joined_first(a, rest.drop_last(), sep);
        assert(joined(all, sep) =~= a + sep + joined(rest, sep));
    }
}

/// The lines of `s`.
pub fn split_lines(s: &Vec<char>) -> (r: Vec<Vec<char>>)
    ensures
        texts(r@) == lines_of(s@),
{
    let mut r: Vec<Vec<char>> = Vec::new();
    let mut i: usize = 0;
    let mut cur: usize = 0;
    while i < s.len()
        invariant
            cur <= i <= s.len(),
            texts(r@) + lines_from(s@, i as int, cur as int) == lines_of(s@),
        decreases s.len() - i,
    {
        if s[i] == '\n' {
            let end = if i > cur && s[i - 1] == '\r' {
                i - 1
            } else {
                i
            };
            let piece = slice(s, cur, end);
            proof {
                assert(piece@ =~= without_cr(s@.subrange(cur as int, i as int)));
                assert(texts(r@.push(piece)) =~= texts(r@) + seq![piece@]);
                assert(texts(r@.push(piece)) + lines_from(s@, i + 1, i + 1) =~= texts(r@)
                    + lines_from(s@, i as int, cur as int));
            }
            r.push(piece);
            cur = i + 1;
        }
        i += 1;
    }
    if cur < s.len() {
        let piece = slice(s, cur, s.len());
        proof {
            assert(texts(r@.push(piece)) =~= texts(r@) + seq![piece@]);
        }
        r.push(piece);
    } else {
        assert(texts(r@) + Seq::<Seq<char>>::empty() =~= texts(r@));
    }
    r
}

/// The texts of `parts` with `sep` between each two neighbours.
pub open spec fn joined(parts: Seq<Seq<char>>, sep: Seq<char>) -> Seq<char>
    decreases parts.len(),
{
    if parts.len() == 0 {
        Seq::empty()
    } else if parts.len() == 1 {
        parts[0]
    } else {
        joined(parts.drop_last(), sep) + sep + parts.last()
    }
}

/// The texts of `parts` with `sep` between each two neighbours.
pub fn join(parts: &Vec<Vec<char>>, sep: &Vec<char>) -> (r: Vec<char>)
    ensures
        r@ == joined(texts(parts@), sep@),
{
    let mut r: Vec<char> = Vec::new();
    let mut i: usize = 0;
    while i < parts.len()
        invariant
            i <= parts.len(),
            r@ == joined(texts(parts@).take(i as int), sep@),
        decreases parts.len() - i,
    {
        proof {
            let t = texts(parts@).take(i + 1);
            assert(t.drop_last() =~= texts(parts@).take(i as int));
            assert(t.last() == parts@[i as int]@);
        }
        if i > 0 {
            append(&mut r, sep);
        }
        append(&mut r, &parts[i]);
        i += 1;
    }
    assert(texts(parts@).take(parts.len() as int) =~= texts(parts@));
    r
}

/// Whether `c` is a letter or a digit of any script.
pub uninterp spec fn alphanumeric(c: char) -> bool;

/// `char::is_alphanumeric`: whether the character has the Unicode property
/// `Alphabetic` or one of the number categories, which depends on the
/// character alone.
pub assume_specification[ char::is_alphanumeric ](c: char) -> (b: bool)
    ensures
        b == alphanumeric(c),
;

/// The decimal digit for `d`.
pub open spec fn digit_char(d: int) -> char {
    ((d + 48) as u8) as char
}

/// `n` in decimal, without leading zeros.
pub open spec fn decimal(n: nat) -> Seq<char>
    decreases n,
{
    if n < 10 {
        seq![digit_char(n as int)]
    } else {
        decimal(n / 10).push(digit_char((n % 10) as int))
    }
}

/// `n` in decimal.
pub fn format_number(n: u128) -> (r: Vec<char>)
    ensures
        r@ == decimal(n as nat),
    decreases n,
{
    let d = ((n % 10) as u8 + 48u8) as char;
    if n < 10 {
        let mut r: Vec<char> = Vec::new();
        r.push(d);
        r
    } else {
        let mut r = format_number(n / 10);
        r.push(d);
        r
    }
}

/// The value of the digits of `s`, read as a decimal number.
pub open spec fn digits_value(s: Seq<char>) -> nat
    decreases s.len(),
{
    if s.len() == 0 {
        0
    } else {
        (digits_value(s.drop_last()) * 10 + (s.last() as int - 48)) as nat
    }
}

/// Whether every character of `s` is a digit.
pub open spec fn all_digits(s: Seq<char>) -> bool {
    forall|i: int| 0 <= i < s.len() ==> is_digit(#[trigger] s[i])
}

/// The digits of a number written with an optional leading `+`.
pub open spec fn unsigned_digits(s: Seq<char>) -> Seq<char> {
    if s.len() > 0 && s[0] == '+' {
        s.drop_first()
    } else {
        s
    }
}

/// What `s` denotes as an unsigned 64-bit number: decimal digits, at least
/// one, after an optional `+`, with a value that fits.
pub open spec fn number_of(s: Seq<char>) -> Option<u64> {
    let d = unsigned_digits(s);
    if d.len() > 0 && all_digits(d) && digits_value(d) <= u64::MAX {
        Some(digits_value(d) as u64)
    } else {
        None
    }
}

/// The value of a prefix of digits is at most the value of all of them.
pub proof fn lemma_digits_value_grows(s: Seq<char>, k: int)
    requires
        all_digits(s),
        0 <= k <= s.len(),
    ensures
        digits_value(s.take(k)) <= digits_value(s),
    decreases s.len() - k,
{
    if k < s.len() {
        let t = s.take(k + 1);
        assert(t.drop_last() =~= s.take(k));
        assert(t.last() == s[k]);
        assert(is_digit(s[k]));
        lemma_digits_value_grows(s, k + 1);
    } else {
        assert(s.take(k) =~= s);
    }
}

/// Reads `s` as an unsigned 64-bit number.
pub fn parse_number(s: &Vec<char>) -> (r: Option<u64>)
    ensures
        r == number_of(s@),
{
    let start: usize = if s.len() > 0 && s[0] == '+' {
        1
    } else {
        0
    };
    if start >= s.len() {
        return None;
    }
    let ghost d = unsigned_digits(s@);
    assert(d =~= s@.subrange(start as int, s.len() as int));
    let mut value: u64 = 0;
    let mut i = start;
    while i < s.len()
        invariant
            start <= i <= s.len(),
            d == s@.subrange(start as int, s.len() as int),
            d == unsigned_digits(s@),
            all_digits(d.take(i - start)),
            value == digits_value(d.take(i - start)),
        decreases s.len() - i,
    {
        let c = s[i];
        if !is_ascii_digit(c) {
            assert(d[i - start] == c);
            return None;
        }
        let ghost t = d.take(i - start + 1);
        proof {
            assert(t.drop_last() =~= d.take(i - start));
            assert(t.last() == c);
            assert forall|j: int| 0 <= j < t.len() implies is_digit(#[trigger] t[j]) by {
                if j < i - start {
                    assert(d.take(i - start)[j] == t[j]);
                }
            }
        }
        let digit = (c as u8 - 48u8) as u64;
        if value > (u64::MAX - digit) / 10 {
            proof {
                assert(digits_value(t) > u64::MAX);
                assert(d[i - start] == c);
                if all_digits(d) {
                    lemma_digits_value_grows(d, i - start + 1);
                }
            }
            return None;
        }
        value = value * 10 + digit;
        i += 1;
    }
    assert(d.take(i - start) =~= d);
    Some(value)
}

} // verus!
