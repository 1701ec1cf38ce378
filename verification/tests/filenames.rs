use vibe_downloader::filename::{
    extract_filename, fallback_filename, header_filename, hinted_filename, resolve_filename,
    segment_filename, url_filename,
};
use vibe_downloader::text::{decimal_string, str_eq};

#[test]
fn header_hint_with_quotes_gives_the_bare_name() {
    let name = extract_filename(
        "https://example.com/files/archive.tar.gz?x=1",
        Some("filename=\"report v2.pdf\""),
    );
    assert_eq!(name, "report v2.pdf");
}

#[test]
fn header_hint_after_other_parameters() {
    assert_eq!(
        header_filename("attachment; filename=\"report v2.pdf\""),
        Some("report v2.pdf".to_string())
    );
}

#[test]
fn header_hint_is_cut_at_the_next_separator() {
    assert_eq!(
        header_filename("attachment; filename=data.csv; size=12"),
        Some("data.csv".to_string())
    );
}

#[test]
fn header_hint_in_quotes_before_a_separator() {
    assert_eq!(
        header_filename("attachment; filename=\"a.txt\"; size=3"),
        Some("a.txt".to_string())
    );
    assert_eq!(header_filename("filename=\"x.pdf\";"), Some("x.pdf".to_string()));
    assert_eq!(header_filename("filename=\"\"; size=3"), None);
}

#[test]
fn header_hint_in_single_quotes() {
    assert_eq!(header_filename("filename='notes.txt'"), Some("notes.txt".to_string()));
}

#[test]
fn header_without_filename_gives_nothing() {
    assert_eq!(header_filename("attachment"), None);
    assert_eq!(header_filename(""), None);
}

#[test]
fn empty_header_name_falls_back_to_the_address() {
    assert_eq!(header_filename("attachment; filename=\"\""), None);
    let name = extract_filename("https://example.com/a/b.bin", Some("attachment; filename=\"\""));
    assert_eq!(name, "b.bin");
}

#[test]
fn address_gives_its_last_segment_without_the_query() {
    let name = extract_filename("https://example.com/files/archive.tar.gz?x=1", None);
    assert_eq!(name, "archive.tar.gz");
}

#[test]
fn address_segment_is_percent_decoded() {
    assert_eq!(
        url_filename("https://example.com/docs/hello%20world.txt"),
        Some("hello world.txt".to_string())
    );
    assert_eq!(
        url_filename("https://example.com/countries/vi%E1%BB%87t.txt"),
        Some("việt.txt".to_string())
    );
}

#[test]
fn undecodable_segment_is_kept_as_it_is() {
    assert_eq!(url_filename("https://example.com/a/%FF.bin"), Some("%FF.bin".to_string()));
}

#[test]
fn address_that_is_no_url_gives_nothing() {
    assert_eq!(url_filename("not a url"), None);
    assert_eq!(url_filename("data:text/plain,Hello"), None);
}

#[test]
fn address_with_empty_path_gives_nothing() {
    assert_eq!(url_filename("https://example.com"), None);
    assert_eq!(url_filename("https://example.com/"), None);
    assert_eq!(url_filename("https://example.com/files/"), None);
}

#[test]
fn decoded_lone_slash_is_no_name() {
    assert_eq!(url_filename("https://example.com/files/%2F"), None);
    assert_eq!(segment_filename("%2F".to_string(), Some("/".to_string())), None);
    assert_eq!(segment_filename("x".to_string(), None), Some("x".to_string()));
    assert_eq!(segment_filename("".to_string(), None), None);
}

#[test]
fn no_hint_and_empty_path_gives_a_generated_name() {
    let first = extract_filename("https://example.com/", None);
    let second = extract_filename("https://example.com/", None);
    assert!(first.starts_with("download_"));
    assert!(second.starts_with("download_"));
    assert_eq!(first.len(), "download_".len() + 36);
    assert!(!first.is_empty() && first != "/" && !first.contains('/'));
    assert!(!second.contains('/'));
    assert_ne!(first, second);
}

#[test]
fn generated_names_do_not_collide() {
    let mut seen = std::collections::HashSet::new();
    for _ in 0..200 {
        assert!(seen.insert(extract_filename("", None)));
    }
}

#[test]
fn fallback_name_carries_its_token() {
    assert_eq!(fallback_filename("abc"), "download_abc");
    assert_ne!(fallback_filename("abc"), fallback_filename("abd"));
}

#[test]
fn header_wins_over_address() {
    assert_eq!(
        hinted_filename("https://example.com/x/y.zip", Some("filename=;")),
        Some("y.zip".to_string())
    );
    assert_eq!(
        hinted_filename("https://example.com/x/y.zip", Some("filename=z.zip")),
        Some("z.zip".to_string())
    );
    assert_eq!(
        hinted_filename("https://example.com/x/y.zip", Some("inline")),
        Some("y.zip".to_string())
    );
    assert_eq!(hinted_filename("https://example.com/x/y.zip", None), Some("y.zip".to_string()));
    assert_eq!(hinted_filename("nonsense", None), None);
}

#[test]
fn requested_name_wins_over_everything() {
    let name = resolve_filename(
        Some("mine.bin".to_string()),
        "https://example.com/x/y.zip",
        Some("filename=z.zip"),
    );
    assert_eq!(name, "mine.bin");
    let name = resolve_filename(None, "https://example.com/x/y.zip", Some("filename=z.zip"));
    assert_eq!(name, "z.zip");
}

#[test]
fn decimal_text_of_numbers() {
    assert_eq!(decimal_string(0), "0");
    assert_eq!(decimal_string(7), "7");
    assert_eq!(decimal_string(404), "404");
    assert_eq!(decimal_string(65535), "65535");
    assert_eq!(decimal_string(u64::MAX), "18446744073709551615");
}

#[test]
fn text_equality() {
    assert!(str_eq("abc", "abc"));
    assert!(!str_eq("abc", "abd"));
    assert!(!str_eq("abc", "ab"));
    assert!(str_eq("", ""));
}
