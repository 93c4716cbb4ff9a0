use scribe::template::{ScribeTemplate, ScribeTemplateLibrary};
use scribe::ScribeError;

#[test]
fn test_from_str() {
    let _template: ScribeTemplate = ScribeTemplate::from_str("# {{ TITLE }}\n\n ## {{ HEADER1 }}");
}

#[test]
fn test_get_keys() {
    let template: ScribeTemplate = ScribeTemplate::from_str("# {{ TITLE }}\n\n ## {{ HEADER1 }}");
    let parsed_keys: Option<Vec<String>> = template.get_keys();

    assert!(parsed_keys.is_some());
    let keys = parsed_keys.unwrap();
    assert_eq!(keys.len(), 2);
    assert!(keys.contains(&"TITLE".to_string()));
    assert!(keys.contains(&"HEADER1".to_string()));
}

#[test]
fn test_get_keys_not_provided() {
    let template: ScribeTemplate = ScribeTemplate::from_str("This is a template without Keys");
    let parsed_keys: Option<Vec<String>> = template.get_keys();

    assert!(parsed_keys.is_none());
}

#[test]
fn test_template_fill() {
    let template: ScribeTemplate = ScribeTemplate::from_str("# {{ TITLE }}\n\nThis is a test template");
    let params: Vec<(String, String)> =
        vec![("TITLE".to_string(), "This is the test title".to_string())];

    let filled_template = template.fill(&params);
    assert!(filled_template.is_ok());
    assert_eq!(filled_template.unwrap(), "# This is the test title\n\nThis is a test template");
}

#[test]
fn test_template_missing_params() {
    let template: ScribeTemplate = ScribeTemplate::from_str("# {{ TITLE }}\n\nThis is a sample template");
    let params: Vec<(String, String)> = Vec::new();
    let filled_template = template.fill(&params);
    assert!(filled_template.is_err());
    assert_eq!(filled_template.unwrap_err(), ScribeError::MissingParams);
}

#[test]
fn test_template_library_load() {
    let _library = ScribeTemplateLibrary::load();
}

#[test]
fn test_template_library_list_templates() {
    let library = ScribeTemplateLibrary::load();
    let templates = library.list_templates();
    assert!(templates.len() > 0);
}

#[test]
fn test_template_library_get_template() {
    let library = ScribeTemplateLibrary::load();
    let templates = library.list_templates();
    for template_name in templates {
        let template = library.get_template(&template_name);
        assert!(template.is_some());
    }
}

#[test]
fn test_template_get_keys() {
    let library = ScribeTemplateLibrary::load();
    let template = library.get_template("basic").unwrap();
    let keys = template.get_keys().unwrap();
    assert!(keys.contains(&"TAGS".to_string()));
    assert!(keys.contains(&"TITLE".to_string()));
    assert!(keys.contains(&"DATE".to_string()));
}

#[test]
fn templates_tests_test_template_fill() {
    let library = ScribeTemplateLibrary::load();
    let template = library.get_template("basic").unwrap();

    let values: Vec<(String, String)> = vec![
        ("DATE".to_string(), "2023-01-30 09:56 PM".to_string()),
        ("TAGS".to_string(), r#""tag1","tag2""#.to_string()),
        ("TITLE".to_string(), "This is a test title".to_string()),
    ];

    let filled = template.fill(&values);
    assert!(filled.is_ok());
}

#[test]
fn test_template_insert_shadows() {
    let mut library = ScribeTemplateLibrary::load();
    library.insert_template("basic".to_string(), ScribeTemplate::from_str("# {{ ONLY }}"));
    let template = library.get_template("basic").unwrap();
    let keys = template.get_keys().unwrap();
    assert_eq!(keys, vec!["ONLY".to_string()]);
}

#[test]
fn test_normalize_to_file_path() {
    // Spaces become underscores and letters are lowercased; a result equal
    // to the input would be wrong.
    let normalized = scribe::link::Link::normalize_to_file_path("My Great Note");
    assert_eq!(normalized, "my_great_note");
}

#[test]
fn test_link_new() {
    let link = scribe::link::Link::new(
        "https://example.org".to_string(),
        "Example".to_string(),
    );
    assert_eq!(link.url, "https://example.org");
    assert_eq!(link.title, "Example");
}
