use personal::data::{
    assemble_header, body, decode_header, front_matter, parse_to_data, Date, FrontMatter, Markdown,
    Post, Series,
};
use personal::db::{Database, InMemDatabase};
use personal::error::ApplicationError;
use personal::repo_utils::get_posts_from_repository;
use personal::transform::transform;

const DOCUMENT: &str = "---\ntitle: Example Title\nslug: example-title\ntags:\n  - rust\n  - blog\ndate: 2024-01-05\nseries:\n  title: Basics\n  ep: 2\n---\n# Hello\n\nSee ![pic](img.png).\n";

fn text_of(value: Option<&serde_yaml::Value>) -> Option<String> {
    value.and_then(|value| value.as_str()).map(|text| text.to_owned())
}

fn decode(front: &str) -> FrontMatter {
    let value: serde_yaml::Value = serde_yaml::from_str(front).expect("should be YAML");
    FrontMatter {
        title: text_of(value.get("title")),
        slug: text_of(value.get("slug")),
        tags: value.get("tags").and_then(|tags| tags.as_sequence()).map(|tags| {
            tags.iter().filter_map(|tag| tag.as_str()).map(|tag| tag.to_owned()).collect()
        }),
        date: text_of(value.get("date")),
        series: value.get("series").filter(|series| !series.is_null()).map(|series| Series {
            title: text_of(series.get("title")).expect("should be a title"),
            ep: series.get("ep").and_then(|ep| ep.as_u64()).expect("should be a number") as u8,
        }),
    }
}

fn parsing_error(path: &str, reason: &str) -> ApplicationError {
    ApplicationError::ParsingError { path: path.to_owned(), reason: reason.to_owned() }
}

fn full_front() -> FrontMatter {
    FrontMatter {
        title: Some("T".to_owned()),
        slug: Some("s".to_owned()),
        tags: Some(vec!["a".to_owned(), "a".to_owned()]),
        date: Some("2024-03-10".to_owned()),
        series: None,
    }
}

#[test]
fn test_reading_metadata() {
    let path = "./tests/data/posts/example.md";
    let front = front_matter(path, DOCUMENT).expect("should be front matter");
    let post = parse_to_data(path, DOCUMENT, decode(&front)).expect("should be valid post");
    assert_eq!(post.markdown.slug, "example-title".to_owned());
}

#[test]
fn a_document_becomes_a_post() {
    let front = front_matter("p.md", DOCUMENT).unwrap();
    let post = parse_to_data("p.md", DOCUMENT, decode(&front)).unwrap();
    assert_eq!(
        post,
        Post {
            data: "<h1>Hello</h1>\n<p>See <img src=\"/static/misc/img.png\" alt=\"pic\" />.</p>\n"
                .to_owned(),
            markdown: Markdown {
                title: "Example Title".to_owned(),
                slug: "example-title".to_owned(),
                tags: vec!["rust".to_owned(), "blog".to_owned()],
                date: Date { year: 2024, month: 1, day: 5 },
                series: Some(Series { title: "Basics".to_owned(), ep: 2 }),
            },
        }
    );
}

#[test]
fn the_content_of_a_post_is_its_transformed_body() {
    let front = front_matter("p.md", DOCUMENT).unwrap();
    let text = body("p.md", DOCUMENT).unwrap();
    let post = parse_to_data("p.md", DOCUMENT, decode(&front)).unwrap();
    assert_eq!(post.data, transform(&text));
}

#[test]
fn front_matter_lies_between_the_first_two_markers() {
    assert_eq!(front_matter("p", "---\ntitle: x\n---\nbody"), Ok("\ntitle: x\n".to_owned()));
    assert_eq!(front_matter("p", "junk---a---b---c"), Ok("a".to_owned()));
    assert_eq!(front_matter("p", "------"), Ok("".to_owned()));
}

#[test]
fn front_matter_runs_to_the_end_without_a_second_marker() {
    assert_eq!(front_matter("p", "---\ntitle: x\n"), Ok("\ntitle: x\n".to_owned()));
    assert_eq!(front_matter("p", "a----b"), Ok("-b".to_owned()));
}

#[test]
fn body_is_all_text_behind_the_second_marker() {
    assert_eq!(body("p", "---\ntitle: x\n---\nbody"), Ok("\nbody".to_owned()));
    assert_eq!(body("p", "junk---a---b---c"), Ok("b---c".to_owned()));
    assert_eq!(body("p", "------"), Ok("".to_owned()));
}

#[test]
fn a_document_without_a_marker_has_no_front_matter() {
    let missing = "Missing YAML frontmatter (expected content between --- markers)";
    assert_eq!(front_matter("p", "no markers here"), Err(parsing_error("p", missing)));
    assert_eq!(front_matter("p", ""), Err(parsing_error("p", missing)));
    assert_eq!(front_matter("p", "--"), Err(parsing_error("p", missing)));
    assert_eq!(front_matter("p", "- - -"), Err(parsing_error("p", missing)));
}

#[test]
fn a_document_without_a_second_marker_has_no_body() {
    let missing = "Missing markdown content after frontmatter";
    assert_eq!(body("p", "---\ntitle: x\n"), Err(parsing_error("p", missing)));
    assert_eq!(body("p", "a----b"), Err(parsing_error("p", missing)));
    assert_eq!(body("p", "nothing"), Err(parsing_error("p", missing)));
}

#[test]
fn a_document_without_a_marker_gives_no_post() {
    let result = parse_to_data("p", "title: x\nbody", full_front());
    assert_eq!(
        result,
        Err(parsing_error("p", "Missing YAML frontmatter (expected content between --- markers)"))
    );
}

#[test]
fn a_document_without_a_body_gives_no_post() {
    let result = parse_to_data("p", "---\ntitle: x\n", full_front());
    assert_eq!(result, Err(parsing_error("p", "Missing markdown content after frontmatter")));
}

#[test]
fn the_header_is_checked_before_the_body() {
    let mut front = full_front();
    front.slug = None;
    let result = parse_to_data("p", "---\ntitle: x\n", front);
    assert_eq!(result, Err(parsing_error("p", "missing field `slug`")));
}

#[test]
fn dates_are_read_as_calendar_dates() {
    assert_eq!(Date::parse("2024-01-05"), Some(Date { year: 2024, month: 1, day: 5 }));
    assert_eq!(Date::parse("2024-03-10"), Some(Date { year: 2024, month: 3, day: 10 }));
    assert_eq!(Date::parse("2024-02-29"), Some(Date { year: 2024, month: 2, day: 29 }));
    assert_eq!(Date::parse("-0044-03-15"), Some(Date { year: -44, month: 3, day: 15 }));
    assert_eq!(Date::parse("2023-02-29"), None);
    assert_eq!(Date::parse("2024-13-01"), None);
    assert_eq!(Date::parse("05/01/2024"), None);
    assert_eq!(Date::parse("foo"), None);
    assert_eq!(Date::parse(""), None);
}

#[test]
fn a_complete_header_is_assembled() {
    let date = Some(Date { year: 2024, month: 3, day: 10 });
    assert_eq!(
        assemble_header("p", full_front(), date),
        Ok(Markdown {
            title: "T".to_owned(),
            slug: "s".to_owned(),
            tags: vec!["a".to_owned(), "a".to_owned()],
            date: Date { year: 2024, month: 3, day: 10 },
            series: None,
        })
    );
}

#[test]
fn each_required_field_is_asked_for() {
    let date = Some(Date { year: 2024, month: 3, day: 10 });
    let mut front = full_front();
    front.date = None;
    assert_eq!(assemble_header("p", front, date), Err(parsing_error("p", "missing field `date`")));
    let mut front = full_front();
    front.date = None;
    front.tags = None;
    assert_eq!(assemble_header("p", front, date), Err(parsing_error("p", "missing field `tags`")));
    let mut front = full_front();
    front.tags = None;
    front.slug = None;
    assert_eq!(assemble_header("p", front, date), Err(parsing_error("p", "missing field `slug`")));
    let mut front = full_front();
    front.slug = None;
    front.title = None;
    assert_eq!(assemble_header("p", front, date), Err(parsing_error("p", "missing field `title`")));
}

#[test]
fn a_date_that_was_not_read_is_an_error() {
    assert_eq!(
        assemble_header("p", full_front(), None),
        Err(parsing_error("p", "date is not a calendar date"))
    );
}

#[test]
fn a_malformed_date_fails_the_header() {
    let mut front = full_front();
    front.date = Some("10 March 2024".to_owned());
    assert_eq!(decode_header("p", front), Err(parsing_error("p", "date is not a calendar date")));
}

#[test]
fn dates_that_are_read_are_in_range() {
    for text in ["2024-01-01", "2024-12-31", "0001-06-15", "+12345-6-7", "-0044-03-15"] {
        let date = Date::parse(text).expect("should be a date");
        assert!((1..=12).contains(&date.month), "{}", text);
        assert!((1..=31).contains(&date.day), "{}", text);
    }
    assert_eq!(Date::parse("2024-00-10"), None);
    assert_eq!(Date::parse("2024-10-00"), None);
    assert_eq!(Date::parse("2024-10-32"), None);
}

#[test]
fn a_well_formed_date_is_decoded() {
    let markdown = decode_header("p", full_front()).unwrap();
    assert_eq!(markdown.date, Date { year: 2024, month: 3, day: 10 });
    assert_eq!(markdown.tags, vec!["a".to_owned(), "a".to_owned()]);
}

#[test]
fn tags_may_be_empty_and_series_absent() {
    let content = "---\ntitle: T\nslug: s\ntags: []\ndate: 2024-03-10\n---\ntext";
    let front = front_matter("p", content).unwrap();
    let post = parse_to_data("p", content, decode(&front)).unwrap();
    assert!(post.markdown.tags.is_empty());
    assert_eq!(post.markdown.series, None);
    assert_eq!(post.data, "<p>text</p>\n");
}

#[test]
fn clones_are_equal() {
    let front = front_matter("p.md", DOCUMENT).unwrap();
    let post = parse_to_data("p.md", DOCUMENT, decode(&front)).unwrap();
    assert_eq!(post.clone(), post);
    assert_eq!(post.markdown.clone(), post.markdown);
}

fn document(slug: &str, date: &str) -> String {
    format!("---\ntitle: About {slug}\nslug: {slug}\ntags: [notes]\ndate: {date}\n---\nSee [more]({slug}.pdf).\n")
}

fn read(path: &str, content: &str) -> Result<Post, ApplicationError> {
    let front = front_matter(path, content)?;
    parse_to_data(path, content, decode(&front))
}

#[test]
fn documents_of_two_months_are_found_by_year_and_by_month() {
    let january = document("winter", "2024-01-05");
    let march = document("spring", "2024-03-10");
    let outcomes = vec![read("posts/winter.md", &january), read("posts/spring.md", &march)];
    let posts = get_posts_from_repository(outcomes).expect("should be two posts");
    let db = InMemDatabase::from_posts(posts);
    let slugs = |posts: Vec<Post>| -> Vec<String> {
        posts.into_iter().map(|post| post.markdown.slug).collect()
    };
    assert_eq!(slugs(db.get_by_year_month(2024, None)), vec!["winter", "spring"]);
    assert_eq!(slugs(db.get_by_year_month(2024, Some(1))), vec!["winter"]);
    assert_eq!(slugs(db.get_by_year_month(2024, Some(3))), vec!["spring"]);
    assert_eq!(
        db.get_by_slug("winter".to_owned()).unwrap().data,
        "<p>See <a href=\"/static/misc/winter.pdf\">more</a>.</p>\n"
    );
}

#[test]
fn one_malformed_document_fails_the_load() {
    let good = document("winter", "2024-01-05");
    let outcomes = vec![read("posts/winter.md", &good), read("posts/broken.md", "no header")];
    assert_eq!(
        get_posts_from_repository(outcomes),
        Err(parsing_error(
            "posts/broken.md",
            "Missing YAML frontmatter (expected content between --- markers)"
        ))
    );
}
