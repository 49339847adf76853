use marko::math::{command, latex_to_unicode, to_subscript, to_superscript, COMMAND_COUNT};

#[test]
fn superscript_maps_known_characters_only() {
    assert_eq!(to_superscript("0123456789+-=()ni"), "⁰¹²³⁴⁵⁶⁷⁸⁹⁺⁻⁼⁽⁾ⁿⁱ");
    assert_eq!(to_superscript("ab"), "ab");
}

#[test]
fn subscript_maps_known_characters_only() {
    assert_eq!(to_subscript("0123456789+-=()aeoxhklmnpst"), "₀₁₂₃₄₅₆₇₈₉₊₋₌₍₎ₐₑₒₓₕₖₗₘₙₚₛₜ");
    assert_eq!(to_subscript("bz"), "bz");
}

#[test]
fn commands_become_glyphs() {
    assert_eq!(latex_to_unicode("\\alpha + \\beta"), "α + β");
    assert_eq!(latex_to_unicode("a \\leq b \\rightarrow c"), "a ≤ b → c");
    assert_eq!(latex_to_unicode("\\sum \\infty \\Omega"), "∑ ∞ Ω");
}

#[test]
fn a_command_is_replaced_as_a_whole() {
    assert_eq!(latex_to_unicode("\\int"), "∫");
    assert_eq!(latex_to_unicode("\\infty"), "∞");
    assert_eq!(latex_to_unicode("\\in"), "∈");
    assert_eq!(latex_to_unicode("\\iint"), "∬");
    assert_eq!(latex_to_unicode("\\subseteq"), "⊆");
    assert_eq!(latex_to_unicode("\\subset"), "⊂");
    assert_eq!(latex_to_unicode("\\supseteq"), "⊇");
    assert_eq!(latex_to_unicode("\\supset"), "⊃");
    assert_eq!(latex_to_unicode("\\cdots"), "⋯");
    assert_eq!(latex_to_unicode("a \\cdot b"), "a · b");
    assert_eq!(latex_to_unicode("\\bigg(x\\Bigg)"), "(x)");
    assert_eq!(latex_to_unicode("\\big(x\\Big)"), "(x)");
}

#[test]
fn no_command_stands_after_one_that_it_starts_with() {
    let table: Vec<(&str, &str)> = (0..COMMAND_COUNT).map(command).collect();
    for (i, (early, _)) in table.iter().enumerate() {
        assert!(early.starts_with('\\'), "{:?}", early);
        for (late, _) in &table[i + 1..] {
            assert!(!late.starts_with(early), "{:?} before {:?}", early, late);
        }
    }
    for (name, glyph) in &table {
        assert_eq!(latex_to_unicode(name), *glyph, "{:?}", name);
    }
    assert_eq!(command(COMMAND_COUNT), ("", ""));
}

#[test]
fn spacing_commands_are_dropped_or_become_spaces() {
    assert_eq!(latex_to_unicode("a\\,b\\;c\\quad d\\!e"), "ab c  de");
    assert_eq!(latex_to_unicode("\\left(x\\right)"), "(x)");
}

#[test]
fn fractions() {
    assert_eq!(latex_to_unicode("\\frac{a}{b}"), "a⁄b");
    assert_eq!(latex_to_unicode("\\frac{ab}{c}"), "(ab⁄c)");
    assert_eq!(latex_to_unicode("\\frac{1}{\\frac{2}{3}}"), "(1⁄2⁄3)");
    assert_eq!(latex_to_unicode("\\frac{a}"), "\\fraca");
    assert_eq!(latex_to_unicode("\\frac{a} {b}"), "\\fraca b");
}

#[test]
fn superscript_and_subscript_groups() {
    assert_eq!(latex_to_unicode("x^2"), "x²");
    assert_eq!(latex_to_unicode("x_i"), "x_i");
    assert_eq!(latex_to_unicode("x_n"), "xₙ");
    assert_eq!(latex_to_unicode("x^{10}"), "x¹⁰");
    assert_eq!(latex_to_unicode("x^{ab}"), "x^(ab)");
    assert_eq!(latex_to_unicode("x_{a^{2}}"), "x_(a²)");
    assert_eq!(latex_to_unicode("x^ y"), "x^ y");
    assert_eq!(latex_to_unicode("x^{1"), "x^1");
    assert_eq!(latex_to_unicode("{a}"), "a");
}

#[test]
fn empty_input_gives_empty_output() {
    assert_eq!(latex_to_unicode(""), "");
}
