use mates::builder::build_index_records;
use mates::contact_codec::{decode, extract_sender, render};
use mates::errors::MatesError;
use mates::format::{to_email_display, to_file_paths, to_mutt_lines};
use mates::index_codec::{decode_index, encode_index, encode_record_line};
use mates::matcher::{resolve_edit_target, search};
use mates::record::Contact;

fn contact(email: &str, fullname: &str, path: &str) -> Contact {
    Contact {
        email: String::from(email),
        fullname: String::from(fullname),
        path: String::from(path),
    }
}

fn sample_index() -> Vec<Contact> {
    vec![
        contact("a@x.com", "Ann", "/c/1"),
        contact("b@y.com", "Bob", "/c/2"),
    ]
}

fn assert_same_records(a: &[Contact], b: &[(&str, &str, &str)]) {
    assert_eq!(a.len(), b.len());
    for (got, want) in a.iter().zip(b.iter()) {
        assert_eq!(got.email, want.0);
        assert_eq!(got.fullname, want.1);
        assert_eq!(got.path, want.2);
    }
}

#[test]
fn contact_round_trip_with_name() {
    let text = render("a@x.com", Some("Ann"));
    assert_eq!(text, "a@x.com\nAnn\n");
    let c = decode(&text, "/c/1").unwrap();
    assert_eq!(c.email, "a@x.com");
    assert_eq!(c.fullname, "Ann");
    assert_eq!(c.path, "/c/1");
}

#[test]
fn contact_round_trip_without_name() {
    let text = render("a@x.com", None);
    assert_eq!(text, "a@x.com\n");
    let c = decode(&text, "/c/1").unwrap();
    assert_eq!(c.email, "a@x.com");
    assert_eq!(c.fullname, "");
}

#[test]
fn decode_rejects_empty_email_line() {
    assert_eq!(
        decode("\nAnn\n", "/c/1").unwrap_err(),
        MatesError::MalformedContactFile
    );
    assert_eq!(
        decode("", "/c/1").unwrap_err(),
        MatesError::MalformedContactFile
    );
}

#[test]
fn index_round_trip() {
    let index = sample_index();
    let text = encode_index(&index);
    assert_eq!(text, "a@x.com\tAnn\t/c/1\nb@y.com\tBob\t/c/2\n");
    let back = decode_index(&text).unwrap();
    assert_same_records(&back, &[("a@x.com", "Ann", "/c/1"), ("b@y.com", "Bob", "/c/2")]);
}

#[test]
fn index_round_trip_empty_fullname() {
    let index = vec![contact("a@x.com", "", "/c/1")];
    let text = encode_index(&index);
    assert_eq!(text, "a@x.com\t\t/c/1\n");
    let back = decode_index(&text).unwrap();
    assert_same_records(&back, &[("a@x.com", "", "/c/1")]);
}

#[test]
fn empty_index_text_decodes_to_nothing() {
    assert_eq!(decode_index("").unwrap().len(), 0);
}

#[test]
fn corrupt_index_line_is_rejected() {
    assert_eq!(
        decode_index("a@x.com\tAnn\n").unwrap_err(),
        MatesError::IndexCorrupt
    );
    assert_eq!(
        decode_index("a@x.com\tAnn\t/c/1\n\nb@y.com\tBob\t/c/2\n").unwrap_err(),
        MatesError::IndexCorrupt
    );
    assert_eq!(
        decode_index("\tAnn\t/c/1\n").unwrap_err(),
        MatesError::IndexCorrupt
    );
}

#[test]
fn appended_record_comes_back_last() {
    let index = sample_index();
    let mut text = encode_index(&index);
    text.push_str(&encode_record_line(&contact("c@z.com", "Cay", "/c/3")));
    let back = decode_index(&text).unwrap();
    assert_same_records(
        &back,
        &[
            ("a@x.com", "Ann", "/c/1"),
            ("b@y.com", "Bob", "/c/2"),
            ("c@z.com", "Cay", "/c/3"),
        ],
    );
}

#[test]
fn search_finds_email_substring() {
    let index = sample_index();
    let found = search(&index, "x.com");
    assert_same_records(&found, &[("a@x.com", "Ann", "/c/1")]);
}

#[test]
fn search_finds_fullname_substring() {
    let index = sample_index();
    let found = search(&index, "ob");
    assert_same_records(&found, &[("b@y.com", "Bob", "/c/2")]);
}

#[test]
fn empty_fragment_returns_whole_index_in_order() {
    let index = sample_index();
    let found = search(&index, "");
    assert_same_records(&found, &[("a@x.com", "Ann", "/c/1"), ("b@y.com", "Bob", "/c/2")]);
}

#[test]
fn search_is_case_insensitive() {
    let index = sample_index();
    let upper = search(&index, "ANN");
    let lower = search(&index, "ann");
    assert_same_records(&upper, &[("a@x.com", "Ann", "/c/1")]);
    assert_eq!(upper.len(), lower.len());
    for (u, l) in upper.iter().zip(lower.iter()) {
        assert_eq!(u.path, l.path);
    }
    let shouting = search(&index, "X.COM");
    assert_same_records(&shouting, &[("a@x.com", "Ann", "/c/1")]);
}

#[test]
fn search_keeps_index_order_on_multiple_matches() {
    let index = sample_index();
    let found = search(&index, "@");
    assert_same_records(&found, &[("a@x.com", "Ann", "/c/1"), ("b@y.com", "Bob", "/c/2")]);
}

#[test]
fn mutt_lines_keep_the_leading_blank() {
    let index = sample_index();
    let found = search(&index, "x.com");
    let lines = to_mutt_lines(&found, false);
    assert_eq!(lines, vec![String::from(""), String::from("a@x.com\tAnn")]);
}

#[test]
fn mutt_lines_can_suppress_the_leading_blank() {
    let index = sample_index();
    let found = search(&index, "x.com");
    let lines = to_mutt_lines(&found, true);
    assert_eq!(lines, vec![String::from("a@x.com\tAnn")]);
}

#[test]
fn file_paths_come_in_matcher_order() {
    let index = sample_index();
    let lines = to_file_paths(&index);
    assert_eq!(lines, vec![String::from("/c/1"), String::from("/c/2")]);
}

#[test]
fn email_display_wraps_the_address() {
    let records = vec![
        contact("a@x.com", "Ann", "/c/1"),
        contact("b@y.com", "", "/c/2"),
    ];
    let lines = to_email_display(&records);
    assert_eq!(
        lines,
        vec![String::from("Ann <a@x.com>"), String::from("<b@y.com>")]
    );
}

#[test]
fn edit_target_resolves_sole_match() {
    let index = sample_index();
    let path = resolve_edit_target("b@y.com", false, &index).unwrap();
    assert_eq!(path, "/c/2");
}

#[test]
fn edit_target_with_no_match_fails() {
    let index = sample_index();
    assert_eq!(
        resolve_edit_target("nomatch", false, &index).unwrap_err(),
        MatesError::NoMatch
    );
}

#[test]
fn edit_target_with_many_matches_is_ambiguous() {
    let index = sample_index();
    assert_eq!(
        resolve_edit_target("@", false, &index).unwrap_err(),
        MatesError::AmbiguousQuery
    );
}

#[test]
fn edit_target_keeps_an_existing_file() {
    let index = sample_index();
    let path = resolve_edit_target("/somewhere/else", true, &index).unwrap();
    assert_eq!(path, "/somewhere/else");
}

#[test]
fn full_build_skips_malformed_files() {
    let files = vec![
        (String::from("/c/1"), String::from("a@x.com\nAnn\n")),
        (String::from("/c/2"), String::from("\nno email here\n")),
    ];
    let records = build_index_records(&files);
    assert_same_records(&records, &[("a@x.com", "Ann", "/c/1")]);
}

#[test]
fn full_build_keeps_listing_order() {
    let files = vec![
        (String::from("/c/2"), String::from("b@y.com\nBob\n")),
        (String::from("/c/1"), String::from("a@x.com\nAnn\n")),
    ];
    let records = build_index_records(&files);
    assert_same_records(&records, &[("b@y.com", "Bob", "/c/2"), ("a@x.com", "Ann", "/c/1")]);
}

#[test]
fn sender_with_angle_brackets() {
    let raw = "Subject: hi\nFrom: Ann Example <a@x.com>\n\nbody\n";
    let (email, fullname) = extract_sender(raw).unwrap();
    assert_eq!(email, "a@x.com");
    assert_eq!(fullname, "Ann Example");
}

#[test]
fn sender_with_bare_address() {
    let raw = "From: a@x.com\n\nbody\n";
    let (email, fullname) = extract_sender(raw).unwrap();
    assert_eq!(email, "a@x.com");
    assert_eq!(fullname, "");
}

#[test]
fn message_without_sender_fails() {
    assert_eq!(
        extract_sender("Subject: hi\n\nbody\n").unwrap_err(),
        MatesError::NoSenderFound
    );
    assert_eq!(
        extract_sender("From: <>\n").unwrap_err(),
        MatesError::NoSenderFound
    );
}

#[test]
fn generate_builds_the_contact_path() {
    let c = Contact::generate(Some("Ann"), "a@x.com", "/contacts", "fresh-id");
    assert_eq!(c.email, "a@x.com");
    assert_eq!(c.fullname, "Ann");
    assert_eq!(c.path, "/contacts/fresh-id.vcf");
    let anon = Contact::generate(None, "a@x.com", "/contacts", "fresh-id");
    assert_eq!(anon.fullname, "");
}

#[test]
fn accented_names_survive_the_index_and_the_search() {
    let index = vec![contact("z@x.com", "Zoë Quill", "/c/9")];
    let text = encode_index(&index);
    let back = decode_index(&text).unwrap();
    assert_same_records(&back, &[("z@x.com", "Zoë Quill", "/c/9")]);
    let found = search(&back, "zoë");
    assert_same_records(&found, &[("z@x.com", "Zoë Quill", "/c/9")]);
    assert_eq!(search(&back, "zoé").len(), 0);
}

#[test]
fn sender_with_accented_name() {
    let raw = "From: Zoë <z@x.com>\n\nbody\n";
    let (email, fullname) = extract_sender(raw).unwrap();
    assert_eq!(email, "z@x.com");
    assert_eq!(fullname, "Zoë");
}

#[test]
fn record_line_is_exact() {
    let line = encode_record_line(&contact("a@x.com", "Ann", "/c/1"));
    assert_eq!(line, "a@x.com\tAnn\t/c/1\n");
}
