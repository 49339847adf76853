//! LaTeX-to-Unicode conversion for inline and display math.
//!
//! Commands for Greek letters, operators, relations and arrows become their
//! Unicode glyphs, `\frac{a}{b}` becomes `a⁄b`, and `^`/`_` groups become
//! superscript and subscript glyphs where every character has one.

use vstd::prelude::*;
use crate::text::{
    append, chars_of, matches_at, match_at, find_from, find_text, slice, string_of,
};

verus! {

/// The superscript glyph for `c`, or `c` itself where there is none.
pub open spec fn superscript_of(c: char) -> char {
    if c == '0' { '⁰' } else if c == '1' { '¹' } else if c == '2' { '²' } else if c == '3' { '³' }
    else if c == '4' { '⁴' } else if c == '5' { '⁵' } else if c == '6' { '⁶' } else if c == '7' { '⁷' }
    else if c == '8' { '⁸' } else if c == '9' { '⁹' } else if c == '+' { '⁺' } else if c == '-' { '⁻' }
    else if c == '=' { '⁼' } else if c == '(' { '⁽' } else if c == ')' { '⁾' } else if c == 'n' { 'ⁿ' }
    else if c == 'i' { 'ⁱ' } else { c }
}

/// The subscript glyph for `c`, or `c` itself where there is none.
pub open spec fn subscript_of(c: char) -> char {
    if c == '0' { '₀' } else if c == '1' { '₁' } else if c == '2' { '₂' } else if c == '3' { '₃' }
    else if c == '4' { '₄' } else if c == '5' { '₅' } else if c == '6' { '₆' } else if c == '7' { '₇' }
    else if c == '8' { '₈' } else if c == '9' { '₉' } else if c == '+' { '₊' } else if c == '-' { '₋' }
    else if c == '=' { '₌' } else if c == '(' { '₍' } else if c == ')' { '₎' } else if c == 'a' { 'ₐ' }
    else if c == 'e' { 'ₑ' } else if c == 'o' { 'ₒ' } else if c == 'x' { 'ₓ' } else if c == 'h' { 'ₕ' }
    else if c == 'k' { 'ₖ' } else if c == 'l' { 'ₗ' } else if c == 'm' { 'ₘ' } else if c == 'n' { 'ₙ' }
    else if c == 'p' { 'ₚ' } else if c == 's' { 'ₛ' } else if c == 't' { 'ₜ' } else { c }
}

/// Whether `c` has a superscript glyph.
pub open spec fn has_superscript(c: char) -> bool {
    ('0' <= c && c <= '9') || c == '+' || c == '-' || c == '=' || c == '(' || c == ')' || c == 'n'
        || c == 'i'
}

/// Whether `c` has a subscript glyph.
pub open spec fn has_subscript(c: char) -> bool {
    ('0' <= c && c <= '9') || c == '+' || c == '-' || c == '=' || c == '(' || c == ')' || c == 'a'
        || c == 'e' || c == 'o' || c == 'x' || c == 'h' || c == 'k' || c == 'l' || c == 'm' || c
        == 'n' || c == 'p' || c == 's' || c == 't'
}

/// `s` with every character raised where it can be.
pub open spec fn superscripted(s: Seq<char>) -> Seq<char> {
    Seq::new(s.len(), |i: int| superscript_of(s[i]))
}

/// `s` with every character lowered where it can be.
pub open spec fn subscripted(s: Seq<char>) -> Seq<char> {
    Seq::new(s.len(), |i: int| subscript_of(s[i]))
}

/// Whether every character of `s` has a superscript glyph.
pub open spec fn all_superscript(s: Seq<char>) -> bool {
    forall|i: int| 0 <= i < s.len() ==> has_superscript(#[trigger] s[i])
}

/// Whether every character of `s` has a subscript glyph.
pub open spec fn all_subscript(s: Seq<char>) -> bool {
    forall|i: int| 0 <= i < s.len() ==> has_subscript(#[trigger] s[i])
}

fn superscript_char(c: char) -> (r: char)
    ensures
        r == superscript_of(c),
{
    match c {
        '0' => '⁰',
        '1' => '¹',
        '2' => '²',
        '3' => '³',
        '4' => '⁴',
        '5' => '⁵',
        '6' => '⁶',
        '7' => '⁷',
        '8' => '⁸',
        '9' => '⁹',
        '+' => '⁺',
        '-' => '⁻',
        '=' => '⁼',
        '(' => '⁽',
        ')' => '⁾',
        'n' => 'ⁿ',
        'i' => 'ⁱ',
        _ => c,
    }
}

fn subscript_char(c: char) -> (r: char)
    ensures
        r == subscript_of(c),
{
    match c {
        '0' => '₀',
        '1' => '₁',
        '2' => '₂',
        '3' => '₃',
        '4' => '₄',
        '5' => '₅',
        '6' => '₆',
        '7' => '₇',
        '8' => '₈',
        '9' => '₉',
        '+' => '₊',
        '-' => '₋',
        '=' => '₌',
        '(' => '₍',
        ')' => '₎',
        'a' => 'ₐ',
        'e' => 'ₑ',
        'o' => 'ₒ',
        'x' => 'ₓ',
        'h' => 'ₕ',
        'k' => 'ₖ',
        'l' => 'ₗ',
        'm' => 'ₘ',
        'n' => 'ₙ',
        'p' => 'ₚ',
        's' => 'ₛ',
        't' => 'ₜ',
        _ => c,
    }
}

fn superscript_known(c: char) -> (r: bool)
    ensures
        r == has_superscript(c),
{
    ('0' <= c && c <= '9') || c == '+' || c == '-' || c == '=' || c == '(' || c == ')' || c == 'n'
        || c == 'i'
}

fn subscript_known(c: char) -> (r: bool)
    ensures
        r == has_subscript(c),
{
    ('0' <= c && c <= '9') || c == '+' || c == '-' || c == '=' || c == '(' || c == ')' || c == 'a'
        || c == 'e' || c == 'o' || c == 'x' || c == 'h' || c == 'k' || c == 'l' || c == 'm' || c
        == 'n' || c == 'p' || c == 's' || c == 't'
}

/// Raises every character of `s` that has a superscript glyph.
pub fn superscript_chars(s: &Vec<char>) -> (r: Vec<char>)
    ensures
        r@ == superscripted(s@),
{
    let mut r: Vec<char> = Vec::new();
    let mut i: usize = 0;
    while i < s.len()
        invariant
            i <= s.len(),
            r@ == superscripted(s@.take(i as int)),
        decreases s.len() - i,
    {
        r.push(superscript_char(s[i]));
        i += 1;
        assert(r@ =~= superscripted(s@.take(i as int)));
    }
    assert(s@.take(s.len() as int) =~= s@);
    r
}

/// Lowers every character of `s` that has a subscript glyph.
pub fn subscript_chars(s: &Vec<char>) -> (r: Vec<char>)
    ensures
        r@ == subscripted(s@),
{
    let mut r: Vec<char> = Vec::new();
    let mut i: usize = 0;
    while i < s.len()
        invariant
            i <= s.len(),
            r@ == subscripted(s@.take(i as int)),
        decreases s.len() - i,
    {
        r.push(subscript_char(s[i]));
        i += 1;
        assert(r@ =~= subscripted(s@.take(i as int)));
    }
    assert(s@.take(s.len() as int) =~= s@);
    r
}

/// Raises every character of `s` that has a superscript glyph.
pub fn to_superscript(s: &str) -> (r: String)
    ensures
        r@ == superscripted(s@),
{
    string_of(&superscript_chars(&chars_of(s)))
}

/// Lowers every character of `s` that has a subscript glyph.
pub fn to_subscript(s: &str) -> (r: String)
    ensures
        r@ == subscripted(s@),
{
    string_of(&subscript_chars(&chars_of(s)))
}

fn can_superscript(s: &Vec<char>) -> (r: bool)
    ensures
        r == all_superscript(s@),
{
    let mut i: usize = 0;
    while i < s.len()
        invariant
            i <= s.len(),
            forall|j: int| 0 <= j < i ==> has_superscript(#[trigger] s@[j]),
        decreases s.len() - i,
    {
        if !superscript_known(s[i]) {
            return false;
        }
        i += 1;
    }
    true
}

fn can_subscript(s: &Vec<char>) -> (r: bool)
    ensures
        r == all_subscript(s@),
{
    let mut i: usize = 0;
    while i < s.len()
        invariant
            i <= s.len(),
            forall|j: int| 0 <= j < i ==> has_subscript(#[trigger] s@[j]),
        decreases s.len() - i,
    {
        if !subscript_known(s[i]) {
            return false;
        }
        i += 1;
    }
    true
}

/// The position of the `}` that closes the group open at `depth` when the
/// scan stands at `i`, or -1 if the group is never closed.
pub open spec fn closing_brace(s: Seq<char>, i: int, depth: nat) -> int
    decreases s.len() - i,
{
    if i < 0 || i >= s.len() {
        -1
    } else if s[i] == '{' {
        closing_brace(s, i + 1, depth + 1)
    } else if s[i] == '}' {
        if depth <= 1 {
            i
        } else {
            closing_brace(s, i + 1, (depth - 1) as nat)
        }
    } else {
        closing_brace(s, i + 1, depth)
    }
}

/// Finds the `}` that closes a group whose `{` stands right before `start`.
fn find_matching_brace_chars(chars: &Vec<char>, start: usize) -> (r: Option<usize>)
    ensures
        match r {
            Some(k) => k == closing_brace(chars@, start as int, 1) && start <= k < chars.len(),
            None => closing_brace(chars@, start as int, 1) == -1,
        },
{
    let mut depth: u128 = 1;
    let mut i = start;
    while i < chars.len()
        invariant
            start <= i,
            1 <= depth <= i - start + 1,
            closing_brace(chars@, i as int, depth as nat) == closing_brace(
                chars@,
                start as int,
                1,
            ),
        decreases chars.len() - i,
    {
        let c = chars[i];
        if c == '{' {
            depth += 1;
        } else if c == '}' {
            if depth == 1 {
                return Some(i);
            }
            depth -= 1;
        }
        i += 1;
    }
    None
}

/// `s` from position `i` on, with every occurrence of `pat` replaced by
/// `rep`, found from left to right without overlap. An empty `pat` occurs
/// nowhere.
pub open spec fn replaced_from(s: Seq<char>, pat: Seq<char>, rep: Seq<char>, i: int) -> Seq<char>
    decreases s.len() - i,
{
    if i < 0 || i >= s.len() {
        Seq::empty()
    } else if pat.len() > 0 && matches_at(s, pat, i) {
        rep + replaced_from(s, pat, rep, i + pat.len())
    } else {
        seq![s[i]] + replaced_from(s, pat, rep, i + 1)
    }
}

/// `s` with every occurrence of `pat` replaced by `rep`.
pub open spec fn replaced(s: Seq<char>, pat: Seq<char>, rep: Seq<char>) -> Seq<char> {
    replaced_from(s, pat, rep, 0)
}

/// Replaces every occurrence of `pat` in `s` by `rep`.
pub fn replace_all(s: &Vec<char>, pat: &Vec<char>, rep: &Vec<char>) -> (r: Vec<char>)
    ensures
        r@ == replaced(s@, pat@, rep@),
{
    let mut r: Vec<char> = Vec::new();
    let mut i: usize = 0;
    while i < s.len()
        invariant
            i <= s.len(),
            r@ + replaced_from(s@, pat@, rep@, i as int) == replaced(s@, pat@, rep@),
        decreases s.len() - i,
    {
        if pat.len() > 0 && match_at(s, pat, i) {
            proof {
                assert((r@ + rep@) + replaced_from(s@, pat@, rep@, i + pat.len()) =~= r@
                    + replaced_from(s@, pat@, rep@, i as int));
            }
            append(&mut r, rep);
            i += pat.len();
        } else {
            proof {
                assert(r@.push(s@[i as int]) + replaced_from(s@, pat@, rep@, i + 1) =~= r@
                    + replaced_from(s@, pat@, rep@, i as int));
            }
            r.push(s[i]);
            i += 1;
        }
    }
    assert(r@ + Seq::<char>::empty() =~= r@);
    r
}

/// The number of commands in the table.
pub const COMMAND_COUNT: usize = 108;

/// The `k`-th command of the table and the text that takes its place. The
/// order matters: earlier entries are applied first, and no entry stands
/// after one that it starts with, so that every command of the table is
/// replaced as a whole.
pub open spec fn command_at(k: int) -> (Seq<char>, Seq<char>) {
    if k == 0 {
        ("\\alpha"@, "α"@)
    } else
    if k == 1 {
        ("\\beta"@, "β"@)
    } else
    if k == 2 {
        ("\\gamma"@, "γ"@)
    } else
    if k == 3 {
        ("\\delta"@, "δ"@)
    } else
    if k == 4 {
        ("\\epsilon"@, "ε"@)
    } else
    if k == 5 {
        ("\\varepsilon"@, "ε"@)
    } else
    if k == 6 {
        ("\\zeta"@, "ζ"@)
    } else
    if k == 7 {
        ("\\eta"@, "η"@)
    } else
    if k == 8 {
        ("\\theta"@, "θ"@)
    } else
    if k == 9 {
        ("\\vartheta"@, "ϑ"@)
    } else
    if k == 10 {
        ("\\iota"@, "ι"@)
    } else
    if k == 11 {
        ("\\kappa"@, "κ"@)
    } else
    if k == 12 {
        ("\\lambda"@, "λ"@)
    } else
    if k == 13 {
        ("\\mu"@, "μ"@)
    } else
    if k == 14 {
        ("\\nu"@, "ν"@)
    } else
    if k == 15 {
        ("\\xi"@, "ξ"@)
    } else
    if k == 16 {
        ("\\pi"@, "π"@)
    } else
    if k == 17 {
        ("\\rho"@, "ρ"@)
    } else
    if k == 18 {
        ("\\sigma"@, "σ"@)
    } else
    if k == 19 {
        ("\\tau"@, "τ"@)
    } else
    if k == 20 {
        ("\\upsilon"@, "υ"@)
    } else
    if k == 21 {
        ("\\phi"@, "φ"@)
    } else
    if k == 22 {
        ("\\varphi"@, "ϕ"@)
    } else
    if k == 23 {
        ("\\chi"@, "χ"@)
    } else
    if k == 24 {
        ("\\psi"@, "ψ"@)
    } else
    if k == 25 {
        ("\\omega"@, "ω"@)
    } else
    if k == 26 {
        ("\\Gamma"@, "Γ"@)
    } else
    if k == 27 {
        ("\\Delta"@, "Δ"@)
    } else
    if k == 28 {
        ("\\Theta"@, "Θ"@)
    } else
    if k == 29 {
        ("\\Lambda"@, "Λ"@)
    } else
    if k == 30 {
        ("\\Xi"@, "Ξ"@)
    } else
    if k == 31 {
        ("\\Pi"@, "Π"@)
    } else
    if k == 32 {
        ("\\Sigma"@, "Σ"@)
    } else
    if k == 33 {
        ("\\Phi"@, "Φ"@)
    } else
    if k == 34 {
        ("\\Psi"@, "Ψ"@)
    } else
    if k == 35 {
        ("\\Omega"@, "Ω"@)
    } else
    if k == 36 {
        ("\\int"@, "∫"@)
    } else
    if k == 37 {
        ("\\iint"@, "∬"@)
    } else
    if k == 38 {
        ("\\iiint"@, "∭"@)
    } else
    if k == 39 {
        ("\\oint"@, "∮"@)
    } else
    if k == 40 {
        ("\\sum"@, "∑"@)
    } else
    if k == 41 {
        ("\\prod"@, "∏"@)
    } else
    if k == 42 {
        ("\\sqrt"@, "√"@)
    } else
    if k == 43 {
        ("\\partial"@, "∂"@)
    } else
    if k == 44 {
        ("\\nabla"@, "∇"@)
    } else
    if k == 45 {
        ("\\infty"@, "∞"@)
    } else
    if k == 46 {
        ("\\leq"@, "≤"@)
    } else
    if k == 47 {
        ("\\geq"@, "≥"@)
    } else
    if k == 48 {
        ("\\neq"@, "≠"@)
    } else
    if k == 49 {
        ("\\approx"@, "≈"@)
    } else
    if k == 50 {
        ("\\equiv"@, "≡"@)
    } else
    if k == 51 {
        ("\\sim"@, "∼"@)
    } else
    if k == 52 {
        ("\\propto"@, "∝"@)
    } else
    if k == 53 {
        ("\\pm"@, "±"@)
    } else
    if k == 54 {
        ("\\mp"@, "∓"@)
    } else
    if k == 55 {
        ("\\times"@, "×"@)
    } else
    if k == 56 {
        ("\\div"@, "÷"@)
    } else
    if k == 57 {
        ("\\cdots"@, "⋯"@)
    } else
    if k == 58 {
        ("\\circ"@, "∘"@)
    } else
    if k == 59 {
        ("\\star"@, "⋆"@)
    } else
    if k == 60 {
        ("\\rightarrow"@, "→"@)
    } else
    if k == 61 {
        ("\\leftarrow"@, "←"@)
    } else
    if k == 62 {
        ("\\leftrightarrow"@, "↔"@)
    } else
    if k == 63 {
        ("\\Rightarrow"@, "⇒"@)
    } else
    if k == 64 {
        ("\\Leftarrow"@, "⇐"@)
    } else
    if k == 65 {
        ("\\Leftrightarrow"@, "⇔"@)
    } else
    if k == 66 {
        ("\\to"@, "→"@)
    } else
    if k == 67 {
        ("\\mapsto"@, "↦"@)
    } else
    if k == 68 {
        ("\\uparrow"@, "↑"@)
    } else
    if k == 69 {
        ("\\downarrow"@, "↓"@)
    } else
    if k == 70 {
        ("\\in"@, "∈"@)
    } else
    if k == 71 {
        ("\\notin"@, "∉"@)
    } else
    if k == 72 {
        ("\\subseteq"@, "⊆"@)
    } else
    if k == 73 {
        ("\\supseteq"@, "⊇"@)
    } else
    if k == 74 {
        ("\\subset"@, "⊂"@)
    } else
    if k == 75 {
        ("\\supset"@, "⊃"@)
    } else
    if k == 76 {
        ("\\cup"@, "∪"@)
    } else
    if k == 77 {
        ("\\cap"@, "∩"@)
    } else
    if k == 78 {
        ("\\emptyset"@, "∅"@)
    } else
    if k == 79 {
        ("\\varnothing"@, "∅"@)
    } else
    if k == 80 {
        ("\\forall"@, "∀"@)
    } else
    if k == 81 {
        ("\\exists"@, "∃"@)
    } else
    if k == 82 {
        ("\\nexists"@, "∄"@)
    } else
    if k == 83 {
        ("\\neg"@, "¬"@)
    } else
    if k == 84 {
        ("\\wedge"@, "∧"@)
    } else
    if k == 85 {
        ("\\vee"@, "∨"@)
    } else
    if k == 86 {
        ("\\ldots"@, "…"@)
    } else
    if k == 87 {
        ("\\cdot"@, "·"@)
    } else
    if k == 88 {
        ("\\dots"@, "…"@)
    } else
    if k == 89 {
        ("\\vdots"@, "⋮"@)
    } else
    if k == 90 {
        ("\\hbar"@, "ℏ"@)
    } else
    if k == 91 {
        ("\\ell"@, "ℓ"@)
    } else
    if k == 92 {
        ("\\Re"@, "ℜ"@)
    } else
    if k == 93 {
        ("\\Im"@, "ℑ"@)
    } else
    if k == 94 {
        ("\\aleph"@, "ℵ"@)
    } else
    if k == 95 {
        ("\\wp"@, "℘"@)
    } else
    if k == 96 {
        ("\\degree"@, "°"@)
    } else
    if k == 97 {
        ("\\quad"@, " "@)
    } else
    if k == 98 {
        ("\\qquad"@, "  "@)
    } else
    if k == 99 {
        ("\\,"@, ""@)
    } else
    if k == 100 {
        ("\\;"@, " "@)
    } else
    if k == 101 {
        ("\\!"@, ""@)
    } else
    if k == 102 {
        ("\\left"@, ""@)
    } else
    if k == 103 {
        ("\\right"@, ""@)
    } else
    if k == 104 {
        ("\\bigg"@, ""@)
    } else
    if k == 105 {
        ("\\Bigg"@, ""@)
    } else
    if k == 106 {
        ("\\big"@, ""@)
    } else
    if k == 107 {
        ("\\Big"@, ""@)
    } else {
        (Seq::empty(), Seq::empty())
    }
}

/// The `k`-th command of the table and the text that takes its place; the
/// pair of empty texts for an index beyond the table.
pub fn command(k: usize) -> (r: (&'static str, &'static str))
    ensures
        r.0@ == command_at(k as int).0,
        r.1@ == command_at(k as int).1,
{
    match k {
        0 => ("\\alpha", "α"),
        1 => ("\\beta", "β"),
        2 => ("\\gamma", "γ"),
        3 => ("\\delta", "δ"),
        4 => ("\\epsilon", "ε"),
        5 => ("\\varepsilon", "ε"),
        6 => ("\\zeta", "ζ"),
        7 => ("\\eta", "η"),
        8 => ("\\theta", "θ"),
        9 => ("\\vartheta", "ϑ"),
        10 => ("\\iota", "ι"),
        11 => ("\\kappa", "κ"),
        12 => ("\\lambda", "λ"),
        13 => ("\\mu", "μ"),
        14 => ("\\nu", "ν"),
        15 => ("\\xi", "ξ"),
        16 => ("\\pi", "π"),
        17 => ("\\rho", "ρ"),
        18 => ("\\sigma", "σ"),
        19 => ("\\tau", "τ"),
        20 => ("\\upsilon", "υ"),
        21 => ("\\phi", "φ"),
        22 => ("\\varphi", "ϕ"),
        23 => ("\\chi", "χ"),
        24 => ("\\psi", "ψ"),
        25 => ("\\omega", "ω"),
        26 => ("\\Gamma", "Γ"),
        27 => ("\\Delta", "Δ"),
        28 => ("\\Theta", "Θ"),
        29 => ("\\Lambda", "Λ"),
        30 => ("\\Xi", "Ξ"),
        31 => ("\\Pi", "Π"),
        32 => ("\\Sigma", "Σ"),
        33 => ("\\Phi", "Φ"),
        34 => ("\\Psi", "Ψ"),
        35 => ("\\Omega", "Ω"),
        36 => ("\\int", "∫"),
        37 => ("\\iint", "∬"),
        38 => ("\\iiint", "∭"),
        39 => ("\\oint", "∮"),
        40 => ("\\sum", "∑"),
        41 => ("\\prod", "∏"),
        42 => ("\\sqrt", "√"),
        43 => ("\\partial", "∂"),
        44 => ("\\nabla", "∇"),
        45 => ("\\infty", "∞"),
        46 => ("\\leq", "≤"),
        47 => ("\\geq", "≥"),
        48 => ("\\neq", "≠"),
        49 => ("\\approx", "≈"),
        50 => ("\\equiv", "≡"),
        51 => ("\\sim", "∼"),
        52 => ("\\propto", "∝"),
        53 => ("\\pm", "±"),
        54 => ("\\mp", "∓"),
        55 => ("\\times", "×"),
        56 => ("\\div", "÷"),
        57 => ("\\cdots", "⋯"),
        58 => ("\\circ", "∘"),
        59 => ("\\star", "⋆"),
        60 => ("\\rightarrow", "→"),
        61 => ("\\leftarrow", "←"),
        62 => ("\\leftrightarrow", "↔"),
        63 => ("\\Rightarrow", "⇒"),
        64 => ("\\Leftarrow", "⇐"),
        65 => ("\\Leftrightarrow", "⇔"),
        66 => ("\\to", "→"),
        67 => ("\\mapsto", "↦"),
        68 => ("\\uparrow", "↑"),
        69 => ("\\downarrow", "↓"),
        70 => ("\\in", "∈"),
        71 => ("\\notin", "∉"),
        72 => ("\\subseteq", "⊆"),
        73 => ("\\supseteq", "⊇"),
        74 => ("\\subset", "⊂"),
        75 => ("\\supset", "⊃"),
        76 => ("\\cup", "∪"),
        77 => ("\\cap", "∩"),
        78 => ("\\emptyset", "∅"),
        79 => ("\\varnothing", "∅"),
        80 => ("\\forall", "∀"),
        81 => ("\\exists", "∃"),
        82 => ("\\nexists", "∄"),
        83 => ("\\neg", "¬"),
        84 => ("\\wedge", "∧"),
        85 => ("\\vee", "∨"),
        86 => ("\\ldots", "…"),
        87 => ("\\cdot", "·"),
        88 => ("\\dots", "…"),
        89 => ("\\vdots", "⋮"),
        90 => ("\\hbar", "ℏ"),
        91 => ("\\ell", "ℓ"),
        92 => ("\\Re", "ℜ"),
        93 => ("\\Im", "ℑ"),
        94 => ("\\aleph", "ℵ"),
        95 => ("\\wp", "℘"),
        96 => ("\\degree", "°"),
        97 => ("\\quad", " "),
        98 => ("\\qquad", "  "),
        99 => ("\\,", ""),
        100 => ("\\;", " "),
        101 => ("\\!", ""),
        102 => ("\\left", ""),
        103 => ("\\right", ""),
        104 => ("\\bigg", ""),
        105 => ("\\Bigg", ""),
        106 => ("\\big", ""),
        107 => ("\\Big", ""),
        _ => {
            proof {
                reveal_strlit("");
            }
            ("", "")
        },
    }
}

/// `s` after the first `k` commands of the table were replaced, one command
/// after the other over the whole text.
pub open spec fn commands_applied(s: Seq<char>, k: nat) -> Seq<char>
    decreases k,
{
    if k == 0 {
        s
    } else {
        replaced(
            commands_applied(s, (k - 1) as nat),
            command_at(k - 1).0,
            command_at(k - 1).1,
        )
    }
}

/// What takes the place of `\frac{numer}{denom}`.
pub open spec fn fraction(numer: Seq<char>, denom: Seq<char>) -> Seq<char> {
    if numer.len() == 1 && denom.len() == 1 {
        numer + seq!['⁄'] + denom
    } else {
        seq!['('] + numer + seq!['⁄'] + denom + seq![')']
    }
}

/// The marker that opens a fraction.
pub open spec fn frac_open() -> Seq<char> {
    seq!['\\', 'f', 'r', 'a', 'c', '{']
}

/// `s` with its first `\frac{..}{..}` replaced, or `None` where `s` holds no
/// `\frac{`, or where the first one lacks a closed numerator followed at once
/// by a closed denominator.
pub open spec fn first_fraction_replaced(s: Seq<char>) -> Option<Seq<char>> {
    let start = find_from(s, frac_open(), 0);
    let close1 = closing_brace(s, start + 6, 1);
    let close2 = closing_brace(s, close1 + 2, 1);
    if start >= 0 && close1 >= start + 6 && close1 + 1 < s.len() && s[close1 + 1] == '{' && close2
        >= close1 + 2 && close2 < s.len() {
        Some(
            s.subrange(0, start) + fraction(
                s.subrange(start + 6, close1),
                s.subrange(close1 + 2, close2),
            ) + s.subrange(close2 + 1, s.len() as int),
        )
    } else {
        None
    }
}

/// `s` after fractions were replaced one at a time, each time the first one,
/// until none is left or the first one is malformed.
pub open spec fn fractions_replaced(s: Seq<char>) -> Seq<char>
    decreases s.len(),
{
    match first_fraction_replaced(s) {
        Some(t) => if t.len() < s.len() {
            fractions_replaced(t)
        } else {
            s
        },
        None => s,
    }
}

fn replace_first_fraction(s: &Vec<char>) -> (r: Option<Vec<char>>)
    ensures
        match r {
            Some(t) => first_fraction_replaced(s@) == Some(t@) && t.len() < s.len(),
            None => first_fraction_replaced(s@).is_none(),
        },
{
    let mut open: Vec<char> = Vec::new();
    open.push('\\');
    open.push('f');
    open.push('r');
    open.push('a');
    open.push('c');
    open.push('{');
    assert(open@ =~= frac_open());
    let start = match find_text(s, &open, 0) {
        Some(k) => k,
        None => {
            return None;
        },
    };
    let close1 = match find_matching_brace_chars(s, start + 6) {
        Some(k) => k,
        None => {
            return None;
        },
    };
    if close1 + 1 >= s.len() || s[close1 + 1] != '{' {
        return None;
    }
    let close2 = match find_matching_brace_chars(s, close1 + 2) {
        Some(k) => k,
        None => {
            return None;
        },
    };
    let numer = slice(s, start + 6, close1);
    let denom = slice(s, close1 + 2, close2);
    let mut t = slice(s, 0, start);
    if numer.len() == 1 && denom.len() == 1 {
        append(&mut t, &numer);
        t.push('⁄');
        append(&mut t, &denom);
    } else {
        t.push('(');
        append(&mut t, &numer);
        t.push('⁄');
        append(&mut t, &denom);
        t.push(')');
    }
    let rest = slice(s, close2 + 1, s.len());
    append(&mut t, &rest);
    assert(t@ =~= s@.subrange(0, start as int) + fraction(numer@, denom@) + rest@);
    Some(t)
}

fn replace_fractions(s: Vec<char>) -> (r: Vec<char>)
    ensures
        r@ == fractions_replaced(s@),
{
    let mut cur = s;
    loop
        invariant
            fractions_replaced(cur@) == fractions_replaced(s@),
        decreases cur.len(),
    {
        match replace_first_fraction(&cur) {
            Some(t) => {
                cur = t;
            },
            None => {
                return cur;
            },
        }
    }
}

/// How a `^` or `_` group with the processed content `inner` is written:
/// in raised or lowered glyphs where every character has one, else as the
/// marker followed by the content in parentheses.
pub open spec fn group_text(marker: char, inner: Seq<char>) -> Seq<char> {
    if marker == '^' {
        if all_superscript(inner) {
            superscripted(inner)
        } else {
            seq![marker, '('] + inner + seq![')']
        }
    } else {
        if all_subscript(inner) {
            subscripted(inner)
        } else {
            seq![marker, '('] + inner + seq![')']
        }
    }
}

/// How a `^` or `_` followed by the single character `c` is written.
pub open spec fn single_text(marker: char, c: char) -> Seq<char> {
    if marker == '^' {
        if has_superscript(c) {
            seq![superscript_of(c)]
        } else {
            seq![marker, c]
        }
    } else {
        if has_subscript(c) {
            seq![subscript_of(c)]
        } else {
            seq![marker, c]
        }
    }
}

/// `s` from position `i` on, with `^{..}`, `_{..}`, `^x` and `_x` converted
/// and bare braces dropped. The content of a braced group is converted first.
pub open spec fn scripts_from(s: Seq<char>, i: int) -> Seq<char>
    decreases s.len(), s.len() - i,
{
    if i < 0 || i >= s.len() {
        Seq::empty()
    } else {
        let c = s[i];
        let close = closing_brace(s, i + 2, 1);
        if (c == '^' || c == '_') && i + 1 < s.len() && s[i + 1] == '{' && i + 2 <= close
            < s.len() {
            group_text(c, scripts_from(s.subrange(i + 2, close), 0)) + scripts_from(s, close + 1)
        } else if (c == '^' || c == '_') && i + 1 < s.len() && s[i + 1] != '{' && s[i + 1]
            != ' ' {
            single_text(c, s[i + 1]) + scripts_from(s, i + 2)
        } else if c == '{' || c == '}' {
            scripts_from(s, i + 1)
        } else {
            seq![c] + scripts_from(s, i + 1)
        }
    }
}

/// `s` with its superscript and subscript groups converted.
pub open spec fn scripts_converted(s: Seq<char>) -> Seq<char> {
    scripts_from(s, 0)
}

fn convert_group(marker: char, inner: &Vec<char>, out: &mut Vec<char>)
    ensures
        final(out)@ == old(out)@ + group_text(marker, inner@),
{
    let fits = if marker == '^' {
        can_superscript(inner)
    } else {
        can_subscript(inner)
    };
    if fits {
        let glyphs = if marker == '^' {
            superscript_chars(inner)
        } else {
            subscript_chars(inner)
        };
        append(out, &glyphs);
    } else {
        out.push(marker);
        out.push('(');
        append(out, inner);
        out.push(')');
        assert(out@ =~= old(out)@ + (seq![marker, '('] + inner@ + seq![')']));
    }
}

fn convert_single(marker: char, c: char, out: &mut Vec<char>)
    ensures
        final(out)@ == old(out)@ + single_text(marker, c),
{
    let fits = if marker == '^' {
        superscript_known(c)
    } else {
        subscript_known(c)
    };
    if fits {
        let g = if marker == '^' {
            superscript_char(c)
        } else {
            subscript_char(c)
        };
        out.push(g);
        assert(out@ =~= old(out)@ + seq![g]);
    } else {
        out.push(marker);
        out.push(c);
        assert(out@ =~= old(out)@ + seq![marker, c]);
    }
}

/// Converts `^{}` and `_{}` groups, and single characters after `^` or `_`.
fn process_super_sub(chars: &Vec<char>) -> (r: Vec<char>)
    ensures
        r@ == scripts_converted(chars@),
    decreases chars.len(),
{
    let mut result: Vec<char> = Vec::new();
    let mut i: usize = 0;
    while i < chars.len()
        invariant
            i <= chars.len(),
            result@ + scripts_from(chars@, i as int) == scripts_converted(chars@),
        decreases chars.len() - i,
    {
        let c = chars[i];
        let ghost before = result@;
        if (c == '^' || c == '_') && i + 1 < chars.len() && chars[i + 1] == '{' {
            if let Some(close) = find_matching_brace_chars(chars, i + 2) {
                let raw = slice(chars, i + 2, close);
                let inner = process_super_sub(&raw);
                convert_group(c, &inner, &mut result);
                proof {
                    assert(result@ + scripts_from(chars@, close + 1) =~= before + scripts_from(
                        chars@,
                        i as int,
                    ));
                }
                i = close + 1;
                continue;
            }
        } else if (c == '^' || c == '_') && i + 1 < chars.len() && chars[i + 1] != ' ' {
            convert_single(c, chars[i + 1], &mut result);
            proof {
                assert(result@ + scripts_from(chars@, i + 2) =~= before + scripts_from(
                    chars@,
                    i as int,
                ));
            }
            i += 2;
            continue;
        }
        if c == '{' || c == '}' {
            i += 1;
            continue;
        }
        result.push(c);
        proof {
            assert(result@ + scripts_from(chars@, i + 1) =~= before + scripts_from(
                chars@,
                i as int,
            ));
        }
        i += 1;
    }
    assert(result@ + Seq::<char>::empty() =~= result@);
    result
}

/// What `latex_to_unicode` makes of `input`: the commands of the table
/// replaced in order, then fractions, then superscript and subscript groups.
pub open spec fn latex_unicode(input: Seq<char>) -> Seq<char> {
    scripts_converted(fractions_replaced(commands_applied(input, COMMAND_COUNT as nat)))
}

/// The same conversion on characters.
pub fn latex_chars(input: &Vec<char>) -> (r: Vec<char>)
    ensures
        r@ == latex_unicode(input@),
{
    let mut s = crate::text::copy(input);
    let mut k: usize = 0;
    while k < COMMAND_COUNT
        invariant
            k <= COMMAND_COUNT,
            s@ == commands_applied(input@, k as nat),
        decreases COMMAND_COUNT - k,
    {
        let (cmd, repl) = command(k);
        let pat = chars_of(cmd);
        let rep = chars_of(repl);
        s = replace_all(&s, &pat, &rep);
        k += 1;
    }
    let s = replace_fractions(s);
    process_super_sub(&s)
}

/// Converts LaTeX math to its Unicode approximation.
pub fn latex_to_unicode(input: &str) -> (r: String)
    ensures
        r@ == latex_unicode(input@),
{
    string_of(&latex_chars(&chars_of(input)))
}

} // verus!
