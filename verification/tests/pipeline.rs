use bibkeys::{ResolveError, sorted_bib_keys};

// A self-contained style whose bibliography has no sort rule: submission
// order is the order.
const PLAIN_STYLE: &str = r#"<?xml version="1.0" encoding="utf-8"?>
<style xmlns="http://purl.org/net/xbiblio/csl" class="in-text" version="1.0">
  <info>
    <title>Plain</title>
    <id>test-plain</id>
  </info>
  <citation>
    <layout><text variable="title"/></layout>
  </citation>
  <bibliography>
    <layout><text variable="title"/></layout>
  </bibliography>
</style>"#;

// A self-contained style whose bibliography sorts by title.
const SORTED_STYLE: &str = r#"<?xml version="1.0" encoding="utf-8"?>
<style xmlns="http://purl.org/net/xbiblio/csl" class="in-text" version="1.0">
  <info>
    <title>Sorted</title>
    <id>test-sorted</id>
  </info>
  <citation>
    <layout><text variable="title"/></layout>
  </citation>
  <bibliography>
    <sort><key variable="title"/></sort>
    <layout><text variable="title"/></layout>
  </bibliography>
</style>"#;

// A style that produces citations only: no bibliography section.
const CITATION_ONLY_STYLE: &str = r#"<?xml version="1.0" encoding="utf-8"?>
<style xmlns="http://purl.org/net/xbiblio/csl" class="in-text" version="1.0">
  <info>
    <title>Citations only</title>
    <id>test-citation-only</id>
  </info>
  <citation>
    <layout><text variable="title"/></layout>
  </citation>
</style>"#;

const THREE_ENTRIES_YAML: &str = "x:\n  type: Book\n  title: C\ny:\n  type: Book\n  title: B\nz:\n  type: Book\n  title: A\n";

fn run(
    bib: &str,
    formats: &str,
    full: &str,
    style: &str,
    style_format: &str,
    cited: &str,
) -> Result<String, ResolveError> {
    sorted_bib_keys(
        bib.as_bytes(),
        formats.as_bytes(),
        full.as_bytes(),
        style.as_bytes(),
        style_format.as_bytes(),
        b"en-US",
        cited.as_bytes(),
    )
}

#[test]
fn single_bibtex_source_full_with_sorted_style() {
    let got = run("@article{a, title={T1}}", "", "true", SORTED_STYLE, "csl", "a");
    assert_eq!(got, Ok("a".to_string()));
}

#[test]
fn cited_order_is_returned_without_full() {
    let got = run(THREE_ENTRIES_YAML, "", "false", PLAIN_STYLE, "csl", "z,x");
    assert_eq!(got, Ok("z x".to_string()));
}

#[test]
fn missing_cited_key_fails_naming_it() {
    let got = run(THREE_ENTRIES_YAML, "", "false", PLAIN_STYLE, "csl", "missing");
    match got {
        Err(ResolveError::MissingEntry(key)) => {
            assert_eq!(key, "missing".to_string());
            assert!(ResolveError::MissingEntry(key).message().contains("missing"));
        },
        other => panic!("expected a missing-entry failure, got {:?}", other),
    }
}

#[test]
fn full_without_style_sort_keeps_cited_order() {
    let got = run(THREE_ENTRIES_YAML, "", "true", PLAIN_STYLE, "csl", "z,x");
    assert_eq!(got, Ok("z x".to_string()));
}

#[test]
fn full_with_style_sort_lists_whole_library_in_style_order() {
    // Titles are C, B, A for x, y, z: the style's title sort reverses the
    // storage and citation orders.
    let got = run(THREE_ENTRIES_YAML, "", "true", SORTED_STYLE, "csl", "x");
    assert_eq!(got, Ok("z y x".to_string()));
}

#[test]
fn full_with_style_sort_accepts_empty_cited() {
    let got = run(THREE_ENTRIES_YAML, "", "true", SORTED_STYLE, "csl", "");
    assert_eq!(got, Ok("z y x".to_string()));
}

#[test]
fn citation_only_style_yields_engine_output_error() {
    let got = run(THREE_ENTRIES_YAML, "", "false", CITATION_ONLY_STYLE, "csl", "x");
    assert_eq!(got, Err(ResolveError::EngineOutput));
    assert!(ResolveError::EngineOutput.message().contains("invalid bibliography"));
}

#[test]
fn malformed_bool_is_a_decoding_error() {
    let got = run(THREE_ENTRIES_YAML, "", "maybe", PLAIN_STYLE, "csl", "x");
    assert!(matches!(got, Err(ResolveError::Decoding(_))));
}

#[test]
fn unknown_format_tag_is_a_decoding_error() {
    let got = run(THREE_ENTRIES_YAML, "doc", "false", PLAIN_STYLE, "csl", "x");
    assert!(matches!(got, Err(ResolveError::Decoding(_))));
}

#[test]
fn misaligned_format_list_is_a_decoding_error() {
    let got = run(THREE_ENTRIES_YAML, "yml,yml", "false", PLAIN_STYLE, "csl", "x");
    assert!(matches!(got, Err(ResolveError::Decoding(_))));
}

#[test]
fn unknown_style_format_tag_is_a_decoding_error() {
    let got = run(THREE_ENTRIES_YAML, "", "false", PLAIN_STYLE, "xml", "x");
    assert!(matches!(got, Err(ResolveError::Decoding(_))));
}

#[test]
fn invalid_utf8_input_is_a_decoding_error() {
    let got = sorted_bib_keys(
        &[0xff, 0xfe],
        b"",
        b"false",
        PLAIN_STYLE.as_bytes(),
        b"csl",
        b"en-US",
        b"x",
    );
    assert!(matches!(got, Err(ResolveError::Decoding(_))));
}

#[test]
fn source_failing_its_declared_format_is_a_schema_error() {
    let got = run("just some prose, not a bibliography", "yml", "false", PLAIN_STYLE, "csl", "x");
    assert!(matches!(got, Err(ResolveError::Schema(_))));
}

#[test]
fn mixed_formats_merge_across_sources() {
    let bib = format!("{}%%%@article{{w, title={{D}}}}", THREE_ENTRIES_YAML);
    let got = run(&bib, "yml,bib", "false", PLAIN_STYLE, "csl", "w,y");
    assert_eq!(got, Ok("w y".to_string()));
}

#[test]
fn empty_bibliography_with_nothing_cited_yields_empty_listing() {
    let got = run("", "", "false", PLAIN_STYLE, "csl", "");
    assert_eq!(got, Ok("".to_string()));
}

#[test]
fn archive_named_style_end_to_end() {
    let got = run("@article{a, title={T1}}", "", "false", "apa", "text", "a");
    assert_eq!(got, Ok("a".to_string()));
}

#[test]
fn error_messages_name_the_offending_input() {
    assert_eq!(
        ResolveError::MissingEntry("q".to_string()).message(),
        "cited entry not found in the bibliography: q".to_string()
    );
    assert_eq!(
        ResolveError::StyleResolution("nope".to_string()).message(),
        "could not resolve style: nope".to_string()
    );
    assert_eq!(
        ResolveError::EngineOutput.message(),
        "invalid bibliography: the style produces no bibliography output".to_string()
    );
}

#[test]
fn cited_key_repeated_in_document_is_listed_once() {
    let got = run(THREE_ENTRIES_YAML, "", "false", PLAIN_STYLE, "csl", "y,y,x");
    assert_eq!(got, Ok("y x".to_string()));
}
