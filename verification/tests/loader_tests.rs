use personal::data::{Date, Markdown, Post};
use personal::error::ApplicationError;
use personal::repo_utils::{add_document, get_posts_from_repository, Repository};

fn no_directory(path: &str) -> ApplicationError {
    ApplicationError::IoError { path: path.to_owned(), cause: "given path isn't a dir".to_owned() }
}

fn post(slug: &str) -> Post {
    Post {
        data: String::new(),
        markdown: Markdown {
            title: slug.to_uppercase(),
            slug: slug.to_owned(),
            tags: Vec::new(),
            date: Date { year: 2024, month: 1, day: 1 },
            series: None,
        },
    }
}

#[test]
fn a_repository_lies_under_a_directory() {
    assert_eq!(
        Repository::try_from("./tests/data", true),
        Ok(Repository {
            posts: "./tests/data/posts".to_owned(),
            resources: "./tests/data/resources".to_owned(),
        })
    );
}

#[test]
fn a_separator_at_the_end_of_the_root_is_not_doubled() {
    let repository = Repository::try_from("/srv/blog/", true).unwrap();
    assert_eq!(repository.posts, "/srv/blog/posts");
    assert_eq!(repository.resources, "/srv/blog/resources");
    let repository = Repository::try_from("", true).unwrap();
    assert_eq!(repository.posts, "posts");
    assert_eq!(repository.resources, "resources");
}

#[test]
fn a_root_that_is_no_directory_is_refused() {
    assert_eq!(
        Repository::try_from("./tests/data", false),
        Err(no_directory("./tests/data"))
    );
}

#[test]
fn all_posts_are_gathered_in_order() {
    let outcomes = vec![Ok(post("a")), Ok(post("b")), Ok(post("c"))];
    assert_eq!(get_posts_from_repository(outcomes), Ok(vec![post("a"), post("b"), post("c")]));
}

#[test]
fn an_empty_directory_gives_no_posts() {
    assert_eq!(get_posts_from_repository(Vec::new()), Ok(Vec::new()));
}

#[test]
fn one_failure_fails_the_load() {
    let unreadable = ApplicationError::ReadingError {
        path: "posts/b.md".to_owned(),
        source: "permission denied".to_owned(),
    };
    let outcomes = vec![Ok(post("a")), Err(unreadable), Ok(post("c"))];
    assert_eq!(
        get_posts_from_repository(outcomes),
        Err(ApplicationError::ReadingError {
            path: "posts/b.md".to_owned(),
            source: "permission denied".to_owned(),
        })
    );
}

#[test]
fn the_first_failure_is_reported() {
    let outcomes = vec![
        Ok(post("a")),
        Err(ApplicationError::YamlError("first".to_owned())),
        Err(ApplicationError::IoError { path: "posts".to_owned(), cause: "second".to_owned() }),
    ];
    assert_eq!(
        get_posts_from_repository(outcomes),
        Err(ApplicationError::YamlError("first".to_owned()))
    );
}

#[test]
fn both_directories_have_to_be_there() {
    let repository = || Repository::try_from("blog", true).unwrap();
    assert_eq!(repository().validated(true, true), Ok(repository()));
    assert_eq!(repository().validated(false, true), Err(no_directory("blog/posts")));
    assert_eq!(repository().validated(true, false), Err(no_directory("blog/resources")));
    assert_eq!(repository().validated(false, false), Err(no_directory("blog/posts")));
}

#[test]
fn a_load_goes_document_by_document() {
    let posts = add_document(Vec::new(), Ok(post("a"))).unwrap();
    assert_eq!(posts, vec![post("a")]);
    let posts = add_document(posts, Ok(post("b"))).unwrap();
    assert_eq!(posts, vec![post("a"), post("b")]);
    let failed = add_document(posts, Err(ApplicationError::YamlError("bad".to_owned())));
    assert_eq!(failed, Err(ApplicationError::YamlError("bad".to_owned())));
}
