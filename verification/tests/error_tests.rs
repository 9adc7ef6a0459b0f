use personal::error::ApplicationError;

#[test]
fn errors_describe_themselves() {
    let path = "posts/a.md".to_owned();
    assert_eq!(
        ApplicationError::ParsingError { path: path.clone(), reason: "no body".to_owned() }
            .message(),
        "Failed to parse post structure from posts/a.md: no body"
    );
    assert_eq!(
        ApplicationError::ReadingError { path: path.clone(), source: "denied".to_owned() }
            .message(),
        "Failed to read file at posts/a.md: denied"
    );
    assert_eq!(
        ApplicationError::PostCreationError { path, reason: "bad".to_owned() }.message(),
        "Failed to create post from posts/a.md: bad"
    );
    assert_eq!(
        ApplicationError::YamlError("line 2".to_owned()).message(),
        "Failed to parse YAML: line 2"
    );
    assert_eq!(
        ApplicationError::IoError { path: "posts".to_owned(), cause: "gone".to_owned() }.message(),
        "Failed to access posts: gone"
    );
    assert_eq!(
        ApplicationError::GitError("unreachable".to_owned()).message(),
        "Failed to clone repository: unreachable"
    );
    assert_eq!(
        ApplicationError::NotFound { slug: "a".to_owned() }.message(),
        "Post not found: a"
    );
}
