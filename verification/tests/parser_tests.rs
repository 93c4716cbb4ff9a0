use scribe::parsers::date::{Date, NoteDate};
use scribe::parsers::embedded_links::EmbeddedLinks;
use scribe::parsers::internal_links::InternalLinks;
use scribe::parsers::tags::Tags;
use scribe::parsers::title::Title;
use scribe::parsers::web_links::WebLinks;

fn set_eq(got: &[String], want: &[&str]) -> bool {
    got.len() == want.len() && want.iter().all(|w| got.iter().any(|g| g == w))
}

#[test]
fn title_test_parse() {
    let test_string = "---\ntitle: This is the title";
    let parsed_title = Title::parse(test_string);
    assert!(parsed_title.is_some());
    assert_eq!(parsed_title.unwrap(), "This is the title".to_string());

    let test_string2 = "# This is the title\n## This is the first header";
    let parsed_title2 = Title::parse(test_string2);
    assert!(parsed_title2.is_some());
    assert_eq!(parsed_title2.unwrap(), "This is the title".to_string());
}

#[test]
fn tags_test_parse() {
    let test_string = r#"tags: ["test", "test2"]\n # this is the title\n #tag2 '#ifdebug'"#;
    let parsed_tags = Tags::parse(test_string).unwrap();
    assert!(set_eq(&parsed_tags, &["test", "test2", "tag2"]), "{:?}", parsed_tags);

    let test_string2 = r"#tag3";
    let parsed_tags = Tags::parse(test_string2).unwrap();
    assert!(set_eq(&parsed_tags, &["tag3"]), "{:?}", parsed_tags);
}

#[test]
fn date_test_parse() {
    let test_date = NoteDate { year: 2020, month: 1, day: 1, hour: 23, minute: 59 };

    // A well-formed date line parses to the exact timestamp.
    let test_data = "date: 2020-01-01 11:59 PM";
    let parsed_date = Date::parse(test_data);
    assert_eq!(test_date, parsed_date.unwrap());

    // A different date line parses to a different timestamp.
    let test_data = "date: 2023-12-31 10:52 PM";
    let parsed_date = Date::parse(test_data);
    assert_eq!(
        parsed_date.unwrap(),
        NoteDate { year: 2023, month: 12, day: 31, hour: 22, minute: 52 }
    );
    assert_ne!(test_date, Date::parse(test_data).unwrap());

    // A near-miss label yields nothing.
    let test_data = "Datesas: 2023-12-31 11:22 PM sdf";
    let parsed_date = Date::parse(test_data);
    assert!(parsed_date.is_none());
}

#[test]
fn embedded_links_test_parse() {
    let test_string = "This is a random note\n This is a [[projects/test/scribe]] \n This is another one [[projects/test/scribe/sample | title]] ";
    let matches = EmbeddedLinks::parse(test_string);
    assert!(matches.is_some());
    let unwrapped = matches.unwrap();
    println!("{:?}", unwrapped);
    assert!(unwrapped.len() == 2);
    assert!(set_eq(
        &unwrapped,
        &["projects/test/scribe", "projects/test/scribe/sample"]
    ));
}

#[test]
fn internal_links_test_parse() {
    let test_data = "This is a note\n here is a [link](projects/test/test/scribe), this is a [web link though](http://www.google.com), is is another [link](inbox/scribe/test.txt)";
    let parsed_links = InternalLinks::parse(test_data);
    assert!(parsed_links.is_some());
    assert!(set_eq(&parsed_links.unwrap(), &["inbox/scribe/test.txt"]));
}

#[test]
fn test_web_links_parse() {
    let test_data =
        "See https://example.org/page and also www.example.org plus http://www.other.net here";
    let parsed = WebLinks::parse(test_data).unwrap();
    assert!(set_eq(
        &parsed,
        &["https://example.org/page", "www.example.org", "http://www.other.net"]
    ));

    let no_links = WebLinks::parse("nothing to see here");
    assert!(no_links.is_none());
}

#[test]
fn test_web_links_dedup_scenario() {
    // Deduplication: a bare address whose https form is already captured is
    // dropped, and the set holds the https form exactly once.
    let test_data = "first https://www.x.com then bare www.x.com again";
    let parsed = WebLinks::parse(test_data).unwrap();
    assert_eq!(parsed.iter().filter(|l| *l == "https://www.x.com").count(), 1);
    assert!(!parsed.iter().any(|l| l == "www.x.com"));
}

#[test]
fn test_embedded_links_once_scenario() {
    // Both the plain and the display form of the same target yield one entry.
    let test_data = "a [[a/b]] b [[a/b|Display]] c";
    let parsed = EmbeddedLinks::parse(test_data).unwrap();
    assert_eq!(parsed.iter().filter(|l| *l == "a/b").count(), 1);
    assert_eq!(parsed.len(), 1);
}

#[test]
fn test_tags_union_scenario() {
    // The tag set is the union of the front-matter entries and the hashtag
    // tokens, with duplicates across the sources collapsed.
    let test_data = "tags: [alpha, beta]\nbody #beta #gamma and '#quoted stays out";
    let parsed = Tags::parse(test_data).unwrap();
    assert!(set_eq(&parsed, &["alpha", "beta", "gamma"]), "{:?}", parsed);
}

#[test]
fn test_title_precedence_scenario() {
    // A front-matter title wins over a heading.
    let test_data = "# Y heading\ntitle: X";
    let parsed = Title::parse(test_data);
    assert_eq!(parsed.unwrap(), "X");
}

#[test]
fn test_date_round_trip() {
    // The documented round trip: the fixed format parses to the exact
    // local timestamp, and a near-miss label parses to nothing.
    let parsed = Date::parse("date: 2023-01-30 09:56 PM");
    assert_eq!(
        parsed,
        Some(NoteDate { year: 2023, month: 1, day: 30, hour: 21, minute: 56 })
    );

    let near_miss = Date::parse("Datesas: 2023-01-30 09:56 PM");
    assert!(near_miss.is_none());
}

#[test]
fn test_date_edges() {
    // Noon and midnight on the 12-hour clock.
    assert_eq!(
        Date::parse("date: 2020-06-15 12:00 AM"),
        Some(NoteDate { year: 2020, month: 6, day: 15, hour: 0, minute: 0 })
    );
    assert_eq!(
        Date::parse("date: 2020-06-15 12:30 PM"),
        Some(NoteDate { year: 2020, month: 6, day: 15, hour: 12, minute: 30 })
    );
    // A leap day parses in a leap year and is swallowed otherwise.
    assert!(Date::parse("date: 2024-02-29 01:00 AM").is_some());
    assert!(Date::parse("date: 2023-02-29 01:00 AM").is_none());
    // Out-of-range fields are swallowed.
    assert!(Date::parse("date: 2023-13-01 01:00 AM").is_none());
    assert!(Date::parse("date: 2023-04-31 01:00 AM").is_none());
    // Trailing text after the value is rejected.
    assert!(Date::parse("date: 2023-01-30 09:56 PM extra").is_none());
}

#[test]
fn test_parsers_empty_text() {
    assert!(Title::parse("").is_none());
    assert!(Date::parse("").is_none());
    assert_eq!(Tags::parse("").unwrap().len(), 0);
    assert_eq!(EmbeddedLinks::parse("").unwrap().len(), 0);
    assert_eq!(InternalLinks::parse("").unwrap().len(), 0);
    assert!(WebLinks::parse("").is_none());
}

#[test]
fn test_tags_quoted_hash_excluded() {
    // A hash right behind a single quote is no tag.
    let parsed = Tags::parse("code '#define and real #tag").unwrap();
    assert!(set_eq(&parsed, &["tag"]), "{:?}", parsed);
}
