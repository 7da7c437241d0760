use bibkeys::{ResolveError, StyleFormat, resolve_style};

#[test]
fn unknown_archive_name_always_fails() {
    let got = resolve_style("definitely-not-an-archived-style", StyleFormat::ArchiveName);
    match got {
        Err(ResolveError::StyleResolution(name)) => {
            assert_eq!(name, "definitely-not-an-archived-style".to_string());
        },
        Err(other) => panic!("expected a style-resolution failure, got {:?}", other),
        Ok(_) => panic!("expected a style-resolution failure, got a style"),
    }
}

#[test]
fn known_archive_name_resolves() {
    let handle = resolve_style("apa", StyleFormat::ArchiveName).unwrap();
    // APA sorts its bibliography itself.
    assert!(handle.sort_defined);
    assert!(handle.has_bibliography);
}

#[test]
fn malformed_inline_style_fails() {
    let got = resolve_style("<style>not a complete style", StyleFormat::Inline);
    assert!(matches!(got, Err(ResolveError::StyleResolution(_))));
}

#[test]
fn dependent_inline_style_is_rejected() {
    // A dependent style delegates to a parent and carries no citation rules
    // of its own; it does not resolve as an independent style.
    let dependent = r#"<?xml version="1.0" encoding="utf-8"?>
<style xmlns="http://purl.org/net/xbiblio/csl" class="in-text" version="1.0">
  <info>
    <title>Delegating</title>
    <id>test-delegating</id>
    <link href="http://www.zotero.org/styles/apa" rel="independent-parent"/>
  </info>
</style>"#;
    let got = resolve_style(dependent, StyleFormat::Inline);
    assert!(matches!(got, Err(ResolveError::StyleResolution(_))));
}

#[test]
fn inline_style_reports_its_sort_and_bibliography() {
    let no_sort = r#"<?xml version="1.0" encoding="utf-8"?>
<style xmlns="http://purl.org/net/xbiblio/csl" class="in-text" version="1.0">
  <info><title>Plain</title><id>test-plain-traits</id></info>
  <citation><layout><text variable="title"/></layout></citation>
  <bibliography><layout><text variable="title"/></layout></bibliography>
</style>"#;
    let handle = resolve_style(no_sort, StyleFormat::Inline).unwrap();
    assert!(!handle.sort_defined);
    assert!(handle.has_bibliography);

    let citation_only = r#"<?xml version="1.0" encoding="utf-8"?>
<style xmlns="http://purl.org/net/xbiblio/csl" class="in-text" version="1.0">
  <info><title>Cites</title><id>test-cites-traits</id></info>
  <citation><layout><text variable="title"/></layout></citation>
</style>"#;
    let handle = resolve_style(citation_only, StyleFormat::Inline).unwrap();
    assert!(!handle.has_bibliography);
}
