use bibkeys::{ResolveError, SourceFormat, merge_sources};

fn keys_of(library: &hayagriva::Library) -> Vec<String> {
    library.keys().map(|k| k.to_owned()).collect()
}

fn key_set(library: &hayagriva::Library) -> std::collections::BTreeSet<String> {
    library.keys().map(|k| k.to_owned()).collect()
}

const YAML_AB: &str = "a:\n  type: Book\n  title: A\nb:\n  type: Book\n  title: B\n";
const BIB_CD: &str = "@article{c, title={C}}\n@article{d, title={D}}";

#[test]
fn merge_is_order_independent_on_the_key_set() {
    let one = merge_sources(
        &vec![YAML_AB.to_string(), BIB_CD.to_string()],
        &vec![SourceFormat::Auto, SourceFormat::Auto],
    )
    .unwrap();
    let two = merge_sources(
        &vec![BIB_CD.to_string(), YAML_AB.to_string()],
        &vec![SourceFormat::Auto, SourceFormat::Auto],
    )
    .unwrap();
    assert_eq!(key_set(&one), key_set(&two));
    assert_eq!(key_set(&one).len(), 4);
}

#[test]
fn merge_never_duplicates_a_key() {
    let merged = merge_sources(
        &vec![
            "@article{a, title={T1}}".to_string(),
            "@article{a, title={T2}}".to_string(),
        ],
        &vec![SourceFormat::Bibtex, SourceFormat::Bibtex],
    )
    .unwrap();
    assert_eq!(keys_of(&merged), vec!["a".to_string()]);
}

#[test]
fn merge_of_no_sources_is_empty() {
    let texts: Vec<String> = Vec::new();
    let formats: Vec<SourceFormat> = Vec::new();
    let merged = merge_sources(&texts, &formats).unwrap();
    assert!(merged.is_empty());
}

#[test]
fn structured_export_round_trips_the_key_set() {
    let merged = merge_sources(
        &vec![YAML_AB.to_string(), BIB_CD.to_string()],
        &vec![SourceFormat::Structured, SourceFormat::Bibtex],
    )
    .unwrap();
    let exported = hayagriva::io::to_yaml_str(&merged).unwrap();
    let again = merge_sources(&vec![exported], &vec![SourceFormat::Structured]).unwrap();
    assert_eq!(key_set(&merged), key_set(&again));
}

#[test]
fn one_bad_source_fails_the_whole_merge() {
    let got = merge_sources(
        &vec![YAML_AB.to_string(), "prose, not a map".to_string()],
        &vec![SourceFormat::Structured, SourceFormat::Structured],
    );
    assert!(matches!(got, Err(ResolveError::Schema(_))));
}

#[test]
fn auto_detection_falls_back_to_bibtex() {
    let merged = merge_sources(
        &vec!["@article{q, title={Q}}".to_string()],
        &vec![SourceFormat::Auto],
    )
    .unwrap();
    assert_eq!(keys_of(&merged), vec!["q".to_string()]);
}

#[test]
fn auto_detection_prefers_the_structured_format() {
    let merged = merge_sources(&vec![YAML_AB.to_string()], &vec![SourceFormat::Auto]).unwrap();
    assert_eq!(keys_of(&merged), vec!["a".to_string(), "b".to_string()]);
}
