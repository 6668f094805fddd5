use foton::{tag_name_distribution, tag_value_distribution, ExtractionError, TagMap};

fn tags(pairs: &[(&str, &str)]) -> TagMap {
    let mut m = TagMap::new();
    for (k, v) in pairs {
        m.insert(k.to_string(), v.to_string());
    }
    m
}

fn sample() -> Vec<Result<TagMap, ExtractionError>> {
    vec![
        Ok(tags(&[("Make", "Canon")])),
        Ok(tags(&[("Make", "Canon")])),
        Ok(tags(&[("Make", "Nikon")])),
        Ok(tags(&[("Model", "X100")])),
        Err(ExtractionError::Malformed),
    ]
}

#[test]
fn name_distribution_counts_files_per_name() {
    let counts = tag_name_distribution(&sample());
    assert_eq!(counts.get("Make"), Some(3));
    assert_eq!(counts.get("Model"), Some(1));
    assert_eq!(counts.get("Lens"), None);
    assert_eq!(counts.entries().len(), 2);
}

#[test]
fn failed_extraction_counts_nothing() {
    let mut with_failure = sample();
    with_failure.push(Err(ExtractionError::Io));
    let without: Vec<Result<TagMap, ExtractionError>> = vec![Err(ExtractionError::BackendInit)];
    assert_eq!(tag_name_distribution(&with_failure).get("Make"), Some(3));
    assert!(tag_name_distribution(&without).entries().is_empty());
    assert!(tag_value_distribution("Make", &without).entries().is_empty());
}

#[test]
fn value_distribution_counts_values_of_one_tag() {
    let counts = tag_value_distribution("Make", &sample());
    assert_eq!(counts.get("Canon"), Some(2));
    assert_eq!(counts.get("Nikon"), Some(1));
    assert_eq!(counts.get("X100"), None);
    assert_eq!(counts.entries().len(), 2);
}

#[test]
fn empty_collection_has_empty_distributions() {
    let none: Vec<Result<TagMap, ExtractionError>> = Vec::new();
    assert!(tag_name_distribution(&none).entries().is_empty());
    assert!(tag_value_distribution("Make", &none).entries().is_empty());
}
