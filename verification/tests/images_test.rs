use marko::images::{
    cache_file_name, fetch_succeeded, is_remote_url, is_usable_file, is_vector_extension,
    needs_thumbnail, thumbnail_name,
};

#[test]
fn remote_destinations() {
    assert!(is_remote_url("http://example.com/a.png"));
    assert!(is_remote_url("https://example.com/a.png"));
    assert!(!is_remote_url("ftp://example.com/a.png"));
    assert!(!is_remote_url("images/a.png"));
    assert!(!is_remote_url("/abs/http://x"));
    assert!(!is_remote_url(""));
}

#[test]
fn cache_name_keeps_the_extension_and_the_tail_of_the_destination() {
    assert_eq!(cache_file_name("https://example.com/pic.png"), "gnpcipmocelpmaxesptth.png");
    assert_eq!(cache_file_name("http://a.b/c.jpeg"), "gepjcbaptth.jpeg");
    // an extension of more than four characters or with other characters
    assert_eq!(cache_file_name("http://a.b/c.image"), "egamicbaptth.png");
    assert_eq!(cache_file_name("http://a.b/c.p-g"), "gpcbaptth.png");
    assert_eq!(cache_file_name("http://a.b/c.png?x=1"), "1xgnpcbaptth.png");
    assert_eq!(cache_file_name("plainname"), "emannialp.png");
    assert_eq!(cache_file_name("abc"), "cba.abc");
}

#[test]
fn cache_name_takes_at_most_fifty_characters() {
    let url = format!("http://x/{}.png", "a".repeat(60));
    let name = cache_file_name(&url);
    assert_eq!(name, format!("gnp{}.png", "a".repeat(47)));
}

#[test]
fn files_and_fetches() {
    assert!(is_usable_file(true, 1));
    assert!(!is_usable_file(true, 0));
    assert!(!is_usable_file(false, 5));
    assert!(fetch_succeeded(true, true, 10));
    assert!(!fetch_succeeded(false, true, 10));
    assert!(!fetch_succeeded(true, false, 10));
    assert!(!fetch_succeeded(true, true, 0));
}

#[test]
fn thumbnails_for_large_images_only() {
    assert!(!needs_thumbnail(800, 800));
    assert!(needs_thumbnail(801, 800));
    assert!(needs_thumbnail(u32::MAX, u32::MAX));
    assert!(!needs_thumbnail(0, u32::MAX));
    assert_eq!(thumbnail_name(Some("screenshot-123")), "screenshot-123.thumb.png");
    assert_eq!(thumbnail_name(None), "img.thumb.png");
}

#[test]
fn vector_extensions() {
    assert!(is_vector_extension("svg"));
    assert!(is_vector_extension("SVG"));
    assert!(is_vector_extension("SvgZ"));
    assert!(!is_vector_extension("png"));
    assert!(!is_vector_extension("svgs"));
    assert!(!is_vector_extension(""));
}
