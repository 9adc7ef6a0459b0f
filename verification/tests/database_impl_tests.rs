use personal::data::{Date, Markdown, Post, Series};
use personal::db::{Database, InMemDatabase};
use personal::error::ApplicationError;

fn post(slug: &str, tags: &[&str], date: (i32, u32, u32), series: Option<(&str, u8)>) -> Post {
    Post {
        data: format!("<p>{}</p>\n", slug),
        markdown: Markdown {
            title: format!("Title of {}", slug),
            slug: slug.to_owned(),
            tags: tags.iter().map(|tag| tag.to_string()).collect(),
            date: Date { year: date.0, month: date.1, day: date.2 },
            series: series.map(|(title, ep)| Series { title: title.to_owned(), ep }),
        },
    }
}

fn slugs(posts: &[Post]) -> Vec<String> {
    posts.iter().map(|post| post.markdown.slug.clone()).collect()
}

fn sample() -> InMemDatabase {
    let mut db = InMemDatabase::new();
    let posts = vec![
        post("alpha", &["rust", "verus"], (2024, 1, 5), Some(("Proofs", 1))),
        post("beta", &["rust"], (2024, 3, 10), None),
        post("gamma", &[], (2023, 12, 31), Some(("Proofs", 2))),
        post("delta", &["verus", "verus"], (2024, 1, 20), Some(("Other", 1))),
    ];
    for post in posts {
        db.insert_parsed_to_database(post).unwrap();
    }
    db
}

#[test]
fn test_insert_to_in_mem_db() {
    let mut in_mem_db = InMemDatabase::new();
    let posts = vec![post("example-title", &["a"], (2024, 5, 1), None)];
    for post in posts.clone() {
        in_mem_db.insert_parsed_to_database(post).unwrap();
    }
    assert_eq!(
        in_mem_db.get_by_slug("example-title".to_owned()).unwrap(),
        posts.iter().next().unwrap().clone()
    );
}

#[test]
fn empty_store_answers_nothing() {
    let db = InMemDatabase::new();
    assert_eq!(db.len(), 0);
    assert!(db.get_by_tag("rust".to_owned()).is_empty());
    assert!(db.get_by_series("Proofs".to_owned()).is_empty());
    assert!(db.get_by_year_month(2024, None).is_empty());
    assert!(db.get_last_n_posts(3).is_empty());
    assert!(db.get_all_tags_with_count().is_empty());
    assert!(db.get_all_dates_with_count().is_empty());
}

#[test]
fn unknown_slug_is_not_found() {
    let db = sample();
    assert_eq!(
        db.get_by_slug("missing".to_owned()),
        Err(ApplicationError::NotFound { slug: "missing".to_owned() })
    );
}

#[test]
fn each_inserted_post_is_found_by_its_slug() {
    let db = sample();
    assert_eq!(db.len(), 4);
    let beta = db.get_by_slug("beta".to_owned()).unwrap();
    assert_eq!(beta, post("beta", &["rust"], (2024, 3, 10), None));
}

#[test]
fn first_post_under_a_slug_wins() {
    let mut db = sample();
    let other = post("alpha", &["changed"], (2000, 1, 1), None);
    assert_eq!(db.insert_parsed_to_database(other), Ok(()));
    assert_eq!(db.len(), 4);
    assert_eq!(
        db.get_by_slug("alpha".to_owned()).unwrap(),
        post("alpha", &["rust", "verus"], (2024, 1, 5), Some(("Proofs", 1)))
    );
    assert!(db.get_by_tag("changed".to_owned()).is_empty());
    assert!(db.get_by_year_month(2000, None).is_empty());
}

#[test]
fn posts_by_tag_come_once_and_in_order() {
    let db = sample();
    assert_eq!(slugs(&db.get_by_tag("rust".to_owned())), vec!["alpha", "beta"]);
    assert_eq!(slugs(&db.get_by_tag("verus".to_owned())), vec!["alpha", "delta"]);
    assert!(db.get_by_tag("none".to_owned()).is_empty());
}

#[test]
fn repeated_insert_does_not_repeat_a_slug_under_a_tag() {
    let mut db = sample();
    for _ in 0..3 {
        db.insert_parsed_to_database(post("beta", &["rust"], (2024, 3, 10), None)).unwrap();
    }
    assert_eq!(slugs(&db.get_by_tag("rust".to_owned())), vec!["alpha", "beta"]);
    assert_eq!(db.get_all_tags_with_count(), vec![("rust".to_owned(), 2), ("verus".to_owned(), 2)]);
}

#[test]
fn posts_by_series_ignore_the_episode() {
    let db = sample();
    assert_eq!(slugs(&db.get_by_series("Proofs".to_owned())), vec!["alpha", "gamma"]);
    assert_eq!(slugs(&db.get_by_series("Other".to_owned())), vec!["delta"]);
    assert!(db.get_by_series("rust".to_owned()).is_empty());
}

#[test]
fn keyword_search_finds_nothing() {
    let db = sample();
    assert!(db.get_by_keyword("rust".to_owned()).is_empty());
}

#[test]
fn posts_by_year_and_month() {
    let mut db = InMemDatabase::new();
    db.insert_parsed_to_database(post("january", &[], (2024, 1, 5), None)).unwrap();
    db.insert_parsed_to_database(post("march", &[], (2024, 3, 10), None)).unwrap();
    assert_eq!(slugs(&db.get_by_year_month(2024, None)), vec!["january", "march"]);
    assert_eq!(slugs(&db.get_by_year_month(2024, Some(1))), vec!["january"]);
    assert!(db.get_by_year_month(2024, Some(2)).is_empty());
    assert!(db.get_by_year_month(2023, None).is_empty());
}

#[test]
fn all_posts_of_a_month_are_returned() {
    let db = sample();
    assert_eq!(slugs(&db.get_by_year_month(2024, Some(1))), vec!["alpha", "delta"]);
    assert_eq!(slugs(&db.get_by_year_month(2024, None)), vec!["alpha", "beta", "delta"]);
    assert_eq!(slugs(&db.get_by_year_month(2023, Some(12))), vec!["gamma"]);
}

#[test]
fn latest_posts_come_newest_first() {
    let db = sample();
    assert_eq!(slugs(&db.get_last_n_posts(2)), vec!["beta", "delta"]);
    assert_eq!(slugs(&db.get_last_n_posts(4)), vec!["beta", "delta", "alpha", "gamma"]);
    assert!(db.get_last_n_posts(0).is_empty());
    assert_eq!(slugs(&db.get_last_n_posts(100)), vec!["beta", "delta", "alpha", "gamma"]);
}

#[test]
fn latest_posts_of_one_date_keep_their_order() {
    let mut db = InMemDatabase::new();
    db.insert_parsed_to_database(post("first", &[], (2024, 1, 1), None)).unwrap();
    db.insert_parsed_to_database(post("second", &[], (2024, 1, 1), None)).unwrap();
    db.insert_parsed_to_database(post("newer", &[], (2024, 1, 2), None)).unwrap();
    db.insert_parsed_to_database(post("old", &[], (-5, 12, 31), None)).unwrap();
    assert_eq!(slugs(&db.get_last_n_posts(10)), vec!["newer", "first", "second", "old"]);
}

#[test]
fn tags_are_counted_by_posts() {
    let db = sample();
    let counts = db.get_all_tags_with_count();
    assert_eq!(counts, vec![("rust".to_owned(), 2), ("verus".to_owned(), 2)]);
    let total: usize = counts.iter().map(|entry| entry.1).sum();
    assert!(total >= 3);
}

#[test]
fn months_are_counted_by_posts() {
    let db = sample();
    assert_eq!(
        db.get_all_dates_with_count(),
        vec![((2024, 1), 2), ((2024, 3), 1), ((2023, 12), 1)]
    );
}
