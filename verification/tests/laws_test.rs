use marko::code_highlight::find_code_fence_regions;
use marko::table_format::{distribute_widths, hard_wrap, negotiate_widths, shrink_widths};

#[test]
fn grown_widths_add_up_to_the_available_width() {
    for (natural, available) in [
        (vec![3usize, 3], 7usize),
        (vec![5, 10, 5], 40),
        (vec![3, 30, 7], 41),
        (vec![4], 100),
        (vec![3, 3, 3], 10),
        (vec![3, 3, 3, 3], 14),
        (vec![4, 4, 4, 4], 18),
        (vec![3, 3, 3, 3, 3, 3, 3], 25),
    ] {
        let widths = distribute_widths(&natural, available);
        assert_eq!(widths.iter().sum::<usize>(), available, "{:?}", natural);
        for (w, n) in widths.iter().zip(&natural) {
            assert!(w >= n);
        }
    }
}

#[test]
fn no_negotiated_width_is_under_three() {
    for available in 0..60 {
        for natural in [vec![3usize, 3, 3, 3], vec![10, 3, 25], vec![3], vec![7, 7]] {
            for w in negotiate_widths(&natural, available) {
                assert!(w >= 3, "{:?} at {}", natural, available);
            }
        }
    }
    for w in shrink_widths(&[20, 30, 20], 5) {
        assert!(w >= 3);
    }
}

#[test]
fn wrapping_twice_is_wrapping_once_for_text_that_fits() {
    for text in ["short line\nanother short", "", "a", "one\n\nthree", "- item\n> quote"] {
        assert_eq!(hard_wrap(text, 40), text);
        assert_eq!(hard_wrap(&hard_wrap(text, 40), 40), hard_wrap(text, 40));
    }
}

#[test]
fn rejoining_wrapped_prose_gives_the_text_back() {
    let text = "the quick brown fox jumps over the lazy dog and keeps on running through the field";
    for width in [10, 17, 30, 79] {
        let wrapped = hard_wrap(text, width);
        for line in wrapped.lines() {
            assert!(line.len() <= width);
        }
        assert_eq!(wrapped.lines().collect::<Vec<_>>().join(" "), text);
    }
}

#[test]
fn every_fence_outside_a_region_opens_one() {
    let lines: Vec<String> = ["```a", "x", "```", "y", "```b", "```", "```c", "z"]
        .iter()
        .map(|l| l.to_string())
        .collect();
    let regions = find_code_fence_regions(&lines);
    let spans: Vec<(usize, usize, &str)> =
        regions.iter().map(|r| (r.start_line, r.end_line, r.language.as_str())).collect();
    assert_eq!(spans, vec![(0, 2, "a"), (4, 5, "b"), (6, 7, "c")]);
}

#[test]
fn negotiated_widths_take_the_available_width() {
    for natural in [vec![3usize, 100, 100], vec![3, 3, 3, 3], vec![10, 3, 25], vec![7, 7, 50, 3]] {
        for available in 3 * natural.len()..80 {
            let widths = negotiate_widths(&natural, available);
            assert_eq!(widths.iter().sum::<usize>(), available, "{:?} at {}", natural, available);
            assert!(widths.iter().all(|w| *w >= 3));
        }
    }
}

#[test]
fn text_that_fits_comes_back_with_its_line_endings() {
    for text in ["abc\n", "abc\r\ndef\r\n", "\n\n", "a\n\nb", "tail\r", "- item\n\n> quote\n"] {
        assert_eq!(hard_wrap(text, 10), text);
    }
}

#[test]
fn words_as_long_as_the_width_stay_whole() {
    let text = "seven.. letter. words.. fill... every.. line...";
    let wrapped = hard_wrap(text, 7);
    assert_eq!(wrapped.lines().count(), 6);
    for line in wrapped.lines() {
        assert_eq!(line.len(), 7);
    }
    assert_eq!(wrapped.lines().collect::<Vec<_>>().join(" "), text);
}
