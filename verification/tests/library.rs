use fileshare::auth::authenticate;
use fileshare::config::{trim_key, Config};
use fileshare::delete_response;
use fileshare::listing::{build_listing, FileEntry};
use fileshare::names::{contains_name, extension_of, gen_name, try_name};
use fileshare::upload::{process_upload, UploadError};

fn s(x: &str) -> String {
    String::from(x)
}

// --- extension extraction ---

#[test]
fn extension_after_last_dot() {
    assert_eq!(extension_of(&s("photo.JPG")), "JPG");
    assert_eq!(extension_of(&s("archive.tar.gz")), "gz");
    assert_eq!(extension_of(&s(".hidden")), "hidden");
}

#[test]
fn extension_empty_when_no_dot() {
    assert_eq!(extension_of(&s("noext")), "");
    assert_eq!(extension_of(&s("")), "");
}

#[test]
fn extension_empty_on_trailing_dot() {
    assert_eq!(extension_of(&s("name.")), "");
}

#[test]
fn extension_of_non_ascii_filename() {
    assert_eq!(extension_of(&s("r\u{e9}sum\u{e9}.pdf")), "pdf");
    assert_eq!(extension_of(&s("\u{65e5}\u{672c}.\u{30c6}")), "\u{30c6}");
}

// --- name generation ---

#[test]
fn generated_name_shape() {
    let existing: Vec<String> = vec![];
    let name = gen_name(&s("txt"), &existing).unwrap();
    assert_eq!(name.len(), 10);
    assert!(name.ends_with(".txt"));
    assert!(name.chars().take(6).all(|c| c.is_ascii_alphanumeric()));
}

#[test]
fn generated_name_trailing_dot_for_empty_extension() {
    let existing: Vec<String> = vec![];
    let name = gen_name(&s(""), &existing).unwrap();
    assert_eq!(name.len(), 7);
    assert!(name.ends_with('.'));
}

#[test]
fn generated_name_avoids_existing() {
    let existing = vec![s("aaaaaa.txt"), s("bbbbbb.txt")];
    let name = gen_name(&s("txt"), &existing).unwrap();
    assert!(!existing.contains(&name));
}

#[test]
fn try_name_rejects_taken_name() {
    let existing = vec![s("abc123.txt")];
    assert_eq!(try_name(&s("abc123"), &s("txt"), &existing), None);
}

#[test]
fn try_name_accepts_free_name() {
    let existing = vec![s("other0.txt")];
    assert_eq!(
        try_name(&s("abc123"), &s("txt"), &existing),
        Some(s("abc123.txt"))
    );
}

#[test]
fn contains_name_finds_exact_match() {
    let existing = vec![s("a.txt"), s("b.txt")];
    assert!(contains_name(&existing, &s("b.txt")));
    assert!(!contains_name(&existing, &s("c.txt")));
}

// --- authentication ---

#[test]
fn auth_header_match_succeeds() {
    let r = authenticate(&Some(s("secret")), &None, &s("secret"));
    assert!(r.is_ok());
}

#[test]
fn auth_query_match_succeeds() {
    let r = authenticate(&None, &Some(s("secret")), &s("secret"));
    assert!(r.is_ok());
}

#[test]
fn auth_wrong_header_right_query_succeeds() {
    let r = authenticate(&Some(s("wrong")), &Some(s("secret")), &s("secret"));
    assert!(r.is_ok());
}

#[test]
fn auth_rejects_empty_key() {
    let r = authenticate(&Some(s("")), &None, &s("secret"));
    assert_eq!(r.unwrap_err(), "invalid api key");
}

#[test]
fn auth_rejects_truncated_key() {
    let r = authenticate(&Some(s("secre")), &None, &s("secret"));
    assert!(r.is_err());
}

#[test]
fn auth_rejects_case_differing_key() {
    let r = authenticate(&Some(s("Secret")), &None, &s("secret"));
    assert!(r.is_err());
}

#[test]
fn auth_rejects_missing_key_with_fixed_message() {
    let r = authenticate(&None, &None, &s("secret"));
    assert_eq!(r.unwrap_err(), "invalid api key");
}

// --- upload ---

#[test]
fn upload_without_file_field() {
    let existing: Vec<String> = vec![];
    let r = process_upload(None, &Some(s("a.txt")), &existing, &s("http://x"));
    let e = r.unwrap_err();
    assert_eq!(e, UploadError::NoFile);
    assert_eq!(e.message(), "No file field!");
}

#[test]
fn upload_without_filename_field() {
    let existing: Vec<String> = vec![];
    let r = process_upload(Some(vec![1u8, 2, 3]), &None, &existing, &s("http://x"));
    let e = r.unwrap_err();
    assert_eq!(e, UploadError::NoFilename);
    assert_eq!(e.message(), "No filename field");
}

#[test]
fn upload_photo_jpg_returns_url_ending_in_extension() {
    let existing: Vec<String> = vec![];
    let site = s("http://localhost:8000");
    let r = process_upload(
        Some(b"abc".to_vec()),
        &Some(s("photo.JPG")),
        &existing,
        &site,
    )
    .unwrap();
    assert!(r.url.ends_with(".JPG"));
    assert_eq!(r.url, format!("{}/{}", site, r.name));
    assert_eq!(r.data, b"abc".to_vec());
    assert_eq!(r.name.len(), 10);
    assert_eq!(&r.name[6..7], ".");
    assert!(!existing.contains(&r.name));
}

#[test]
fn upload_keeps_payload_bytes() {
    let existing: Vec<String> = vec![];
    let payload: Vec<u8> = (0u8..=255).collect();
    let r = process_upload(
        Some(payload.clone()),
        &Some(s("blob.bin")),
        &existing,
        &s("http://x"),
    )
    .unwrap();
    assert_eq!(r.data, payload);
}

// --- listing ---

fn file(name: &str, len: u64, secs: Option<i64>, is_dir: bool) -> FileEntry {
    FileEntry {
        name: s(name),
        len,
        created_secs: secs,
        is_dir,
    }
}

#[test]
fn listing_sorts_and_totals() {
    let entries = vec![
        file("small.txt", 5, Some(0), false),
        file("big.bin", 300, Some(86400), false),
        file("mid.dat", 42, Some(0), false),
    ];
    let site = s("http://x");
    let key = s("secret");
    let l = build_listing(&entries, &site, &key).unwrap();
    assert_eq!(l.total, 3);
    assert_eq!(l.files.len(), 3);
    let lens: Vec<u64> = l.files.iter().map(|f| f.len).collect();
    assert_eq!(lens, vec![300, 42, 5]);
    assert_eq!(l.files[0].name, "big.bin");
    assert_eq!(
        l.total_size,
        humansize::format_size(347u64, humansize::BINARY)
    );
}

#[test]
fn listing_skips_directories_missing_metadata_and_key_file() {
    let entries = vec![
        file("kept.txt", 10, Some(0), false),
        file("subdir", 4096, Some(0), true),
        file("nometa.txt", 7, None, false),
        file("api-key", 12, Some(0), false),
    ];
    let l = build_listing(&entries, &s("http://x"), &s("k")).unwrap();
    assert_eq!(l.total, 1);
    assert_eq!(l.files[0].name, "kept.txt");
}

#[test]
fn listing_renders_urls_dates_and_sizes() {
    let entries = vec![file("a.txt", 1572864, Some(0), false)];
    let site = s("http://x");
    let key = s("secret");
    let l = build_listing(&entries, &site, &key).unwrap();
    let row = &l.files[0];
    assert_eq!(row.url, "http://x/a.txt");
    assert_eq!(row.delete_url, "http://x/delete/a.txt?key=secret");
    assert_eq!(row.date, "1970-01-01");
    assert_eq!(
        row.date,
        chrono::DateTime::from_timestamp(0, 0)
            .unwrap()
            .format("%Y-%m-%d")
            .to_string()
    );
    assert_eq!(
        row.size,
        humansize::format_size(1572864u64, humansize::BINARY)
    );
    assert_eq!(row.size, "1.50 MiB");
}

#[test]
fn listing_of_empty_directory() {
    let entries: Vec<FileEntry> = vec![];
    let l = build_listing(&entries, &s("http://x"), &s("k")).unwrap();
    assert_eq!(l.total, 0);
    assert!(l.files.is_empty());
    assert_eq!(l.total_size, humansize::format_size(0u64, humansize::BINARY));
}

#[test]
fn listing_equal_lengths_keeps_all_entries() {
    let entries = vec![
        file("a.txt", 8, Some(0), false),
        file("b.txt", 8, Some(0), false),
    ];
    let l = build_listing(&entries, &s("http://x"), &s("k")).unwrap();
    assert_eq!(l.total, 2);
    let mut names: Vec<String> = l.files.iter().map(|f| f.name.clone()).collect();
    names.sort();
    assert_eq!(names, vec![s("a.txt"), s("b.txt")]);
}

// --- deletion ---

#[test]
fn delete_response_is_fixed() {
    assert_eq!(delete_response(true), "Deleted!");
}

#[test]
fn delete_ghost_file_reports_same_success() {
    assert_eq!(delete_response(false), delete_response(true));
    assert_eq!(delete_response(false), "Deleted!");
}

// --- configuration ---

#[test]
fn config_reports_site() {
    let c = Config::new(s("http://example.org"), s("secret"));
    assert_eq!(c.get_website(), "http://example.org");
    assert_eq!(c.api_key, "secret");
}

#[test]
fn trim_strips_surrounding_whitespace() {
    assert_eq!(trim_key(&s("  secret\n")), "secret");
    assert_eq!(trim_key(&s("secret")), "secret");
    assert_eq!(trim_key(&s("\t\r\n ")), "");
    assert_eq!(trim_key(&s(" a b ")), "a b");
    assert_eq!(trim_key(&s(" h\u{e9}llo ")), "h\u{e9}llo");
}

#[test]
fn trim_strips_all_unicode_white_space() {
    assert_eq!(trim_key(&s("\u{a0}secret\u{a0}")), "secret");
    assert_eq!(trim_key(&s("\u{b}\u{c}secret\u{85}")), "secret");
    assert_eq!(trim_key(&s("\u{2000}\u{3000}secret\u{2028}")), "secret");
    for raw in [
        " secret\n",
        "\u{a0}\u{1680}key\u{202f}\u{205f}",
        "\u{2009}mixed \u{2029}",
        "no-space",
        "",
    ] {
        assert_eq!(trim_key(&s(raw)), raw.trim());
    }
}

#[test]
fn upload_error_messages() {
    assert_eq!(UploadError::NoFile.message(), "No file field!");
    assert_eq!(UploadError::NoFilename.message(), "No filename field");
    assert_eq!(UploadError::NamesExhausted.message(), "No free name available");
}
