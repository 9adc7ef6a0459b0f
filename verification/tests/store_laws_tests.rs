use personal::data::{Date, Markdown, Post};
use personal::db::{Database, InMemDatabase};

fn post(slug: &str, tags: &[&str], date: (i32, u32, u32)) -> Post {
    Post {
        data: format!("<p>{}</p>\n", slug),
        markdown: Markdown {
            title: slug.to_uppercase(),
            slug: slug.to_owned(),
            tags: tags.iter().map(|tag| tag.to_string()).collect(),
            date: Date { year: date.0, month: date.1, day: date.2 },
            series: None,
        },
    }
}

fn many() -> Vec<Post> {
    let tags = ["a", "b", "c", "d", "e"];
    let mut posts = Vec::new();
    for n in 0..60u32 {
        let mine: Vec<&str> =
            tags.iter().enumerate().filter(|(k, _)| n % (*k as u32 + 2) == 0).map(|(_, t)| *t).collect();
        posts.push(post(
            &format!("post-{}", n),
            &mine,
            (2020 + (n % 4) as i32, 1 + n % 12, 1 + (n * 7) % 28),
        ));
    }
    posts
}

#[test]
fn every_post_is_found_under_its_slug() {
    let posts = many();
    let db = InMemDatabase::from_posts(posts.clone());
    assert_eq!(db.len(), posts.len());
    for post in &posts {
        assert!(db.has_slug(&post.markdown.slug));
        assert_eq!(db.get_by_slug(post.markdown.slug.clone()).as_ref(), Ok(post));
    }
    assert!(!db.has_slug(&"post-60".to_owned()));
}

#[test]
fn posts_by_tag_are_those_that_carry_it() {
    let posts = many();
    let db = InMemDatabase::from_posts(posts.clone());
    for tag in ["a", "b", "c", "d", "e", "f"] {
        let expected: Vec<Post> = posts
            .iter()
            .filter(|post| post.markdown.tags.iter().any(|mine| mine == tag))
            .cloned()
            .collect();
        assert_eq!(db.get_by_tag(tag.to_owned()), expected);
    }
}

#[test]
fn tag_counts_are_numbers_of_posts() {
    let posts = many();
    let db = InMemDatabase::from_posts(posts.clone());
    let counts = db.get_all_tags_with_count();
    let mut seen = Vec::new();
    for (tag, count) in &counts {
        assert!(!seen.contains(tag));
        seen.push(tag.clone());
        let carrying =
            posts.iter().filter(|post| post.markdown.tags.iter().any(|mine| mine == tag)).count();
        assert_eq!(*count, carrying);
        assert!(*count > 0);
    }
    assert_eq!(seen.len(), 5);
}

#[test]
fn tag_counts_add_up_to_the_posts_at_least() {
    let posts: Vec<Post> =
        many().into_iter().filter(|post| !post.markdown.tags.is_empty()).collect();
    let db = InMemDatabase::from_posts(posts.clone());
    let total: usize = db.get_all_tags_with_count().iter().map(|entry| entry.1).sum();
    assert!(total >= posts.len());
}

#[test]
fn a_post_without_tags_is_counted_under_none() {
    let db = InMemDatabase::from_posts(vec![post("bare", &[], (2024, 1, 1))]);
    assert!(db.get_all_tags_with_count().is_empty());
    assert_eq!(db.len(), 1);
}

#[test]
fn latest_posts_never_go_forward_in_time() {
    let posts = many();
    let db = InMemDatabase::from_posts(posts.clone());
    for n in [0, 1, 7, 59, 60, 61, 1000] {
        let latest = db.get_last_n_posts(n);
        assert_eq!(latest.len(), n.min(posts.len()));
        for pair in latest.windows(2) {
            let (a, b) = (pair[0].markdown.date, pair[1].markdown.date);
            assert!((a.year, a.month, a.day) >= (b.year, b.month, b.day));
        }
    }
    let mut all = db.get_last_n_posts(posts.len() + 1);
    all.sort_by(|a, b| a.markdown.slug.cmp(&b.markdown.slug));
    let mut expected = posts;
    expected.sort_by(|a, b| a.markdown.slug.cmp(&b.markdown.slug));
    assert_eq!(all, expected);
}

#[test]
fn months_and_years_select_by_date() {
    let posts = many();
    let db = InMemDatabase::from_posts(posts.clone());
    for year in 2019..2025 {
        let expected: Vec<Post> =
            posts.iter().filter(|post| post.markdown.date.year == year).cloned().collect();
        assert_eq!(db.get_by_year_month(year, None), expected);
        for month in 0..14 {
            let expected: Vec<Post> = posts
                .iter()
                .filter(|post| post.markdown.date.year == year && post.markdown.date.month == month)
                .cloned()
                .collect();
            assert_eq!(db.get_by_year_month(year, Some(month)), expected);
        }
    }
}

#[test]
fn month_counts_are_numbers_of_posts() {
    let posts = many();
    let db = InMemDatabase::from_posts(posts.clone());
    let counts = db.get_all_dates_with_count();
    let total: usize = counts.iter().map(|entry| entry.1).sum();
    assert_eq!(total, posts.len());
    for ((year, month), count) in counts {
        assert_eq!(db.get_by_year_month(year, Some(month)).len(), count);
    }
}
