//! The source loader: where the documents of a repository lie, and how the
//! outcomes of reading them add up to a load.

use crate::data::{post_views, result_view, Post, PostView};
use crate::error::{ApplicationError, ApplicationErrorView};
use crate::text::to_chars;
use vstd::prelude::*;
use vstd::string::StringExecFns;

verus! {

/// The two directories of a repository of documents.
#[derive(Debug, PartialEq, Eq)]
pub struct Repository {
    pub posts: String,
    pub resources: String,
}

/// The path of the entry `name` of the directory `root`: the two with a
/// separator between them, which is left out where `root` is empty or
/// ends in one.
pub open spec fn joined(root: Seq<char>, name: Seq<char>) -> Seq<char> {
    if root.len() == 0 || root.last() == '/' {
        root + name
    } else {
        root.push('/') + name
    }
}

/// Why a path that is no directory is refused.
pub const NOT_A_DIRECTORY: &'static str = "given path isn't a dir";

/// The error of a path that is no directory.
pub open spec fn not_a_directory(path: Seq<char>) -> ApplicationErrorView {
    ApplicationErrorView::IoError { path, cause: NOT_A_DIRECTORY@ }
}

/// The error of the path `path` that is no directory.
fn no_directory(path: &str) -> (error: ApplicationError)
    ensures
        error@ == not_a_directory(path@),
{
    ApplicationError::IoError { path: path.to_owned(), cause: NOT_A_DIRECTORY.to_owned() }
}

/// The path of an entry of a directory.
fn join(root: &str, name: &str) -> (path: String)
    ensures
        path@ == joined(root@, name@),
{
    let chars = to_chars(root);
    let mut path = root.to_owned();
    if chars.len() > 0 && chars[chars.len() - 1] != '/' {
        path.push('/');
    }
    path.append(name);
    path
}

impl Repository {
    /// The repository under `root`, given whether `root` is a directory:
    /// its documents lie in the entry `posts`, its resources in the entry
    /// `resources`. A root that is no directory is an error, which names
    /// the root.
    pub fn try_from(root: &str, is_dir: bool) -> (result: Result<Repository, ApplicationError>)
        ensures
            is_dir ==> result is Ok,
            result matches Ok(repository) ==> is_dir && repository.posts@ == joined(
                root@,
                "posts"@,
            ) && repository.resources@ == joined(root@, "resources"@),
            result matches Err(error) ==> !is_dir && error@ == not_a_directory(root@),
    {
        if is_dir {
            Ok(Repository { posts: join(root, "posts"), resources: join(root, "resources") })
        } else {
            Err(no_directory(root))
        }
    }

    /// What the check of the two directories of a repository gives: the
    /// repository where both are there, and else the error of the first
    /// that is no directory, which names it.
    pub open spec fn layout_checked(self, posts_is_dir: bool, resources_is_dir: bool) -> Result<
        Repository,
        ApplicationErrorView,
    > {
        if !posts_is_dir {
            Err(not_a_directory(self.posts@))
        } else if !resources_is_dir {
            Err(not_a_directory(self.resources@))
        } else {
            Ok(self)
        }
    }

    /// Checks that the two directories of the repository are there, given
    /// for each whether it is a directory, and hands the repository back
    /// only where both are.
    pub fn validated(self, posts_is_dir: bool, resources_is_dir: bool) -> (result: Result<
        Repository,
        ApplicationError,
    >)
        ensures
            match result {
                Ok(repository) => self.layout_checked(posts_is_dir, resources_is_dir) == Ok::<
                    Repository,
                    ApplicationErrorView,
                >(repository),
                Err(error) => self.layout_checked(posts_is_dir, resources_is_dir) == Err::<
                    Repository,
                    ApplicationErrorView,
                >(error@),
            },
    {
        if !posts_is_dir {
            Err(no_directory(self.posts.as_str()))
        } else if !resources_is_dir {
            Err(no_directory(self.resources.as_str()))
        } else {
            Ok(self)
        }
    }
}

/// What the posts that were gathered become with the outcome of one more
/// document: its post is put behind them, or its error ends the load.
pub open spec fn with_outcome(
    posts: Seq<PostView>,
    outcome: Result<PostView, ApplicationErrorView>,
) -> Result<Seq<PostView>, ApplicationErrorView> {
    match outcome {
        Ok(post) => Ok(posts.push(post)),
        Err(error) => Err(error),
    }
}

/// What the outcomes of the documents of a directory add up to: the posts
/// in the order of the documents where every document gave one, and else
/// the error of the first document that gave none.
pub open spec fn loaded(outcomes: Seq<Result<PostView, ApplicationErrorView>>) -> Result<
    Seq<PostView>,
    ApplicationErrorView,
>
    decreases outcomes.len(),
{
    if outcomes.len() == 0 {
        Ok(Seq::empty())
    } else {
        match loaded(outcomes.drop_last()) {
            Err(error) => Err(error),
            Ok(posts) => with_outcome(posts, outcomes.last()),
        }
    }
}

/// What a list of outcomes holds.
pub open spec fn outcome_views(outcomes: Seq<Result<Post, ApplicationError>>) -> Seq<
    Result<PostView, ApplicationErrorView>,
> {
    outcomes.map_values(|outcome: Result<Post, ApplicationError>| result_view(outcome))
}

/// What a load returned, with the posts or the error taken by their views.
pub open spec fn load_view(result: Result<Vec<Post>, ApplicationError>) -> Result<
    Seq<PostView>,
    ApplicationErrorView,
> {
    match result {
        Ok(posts) => Ok(post_views(posts@)),
        Err(error) => Err(error@),
    }
}

/// Takes the outcome of one more document into the posts that were
/// gathered. The error of a document that could not be read or parsed is
/// handed on, so that the load ends with it and no further document is
/// read.
pub fn add_document(posts: Vec<Post>, outcome: Result<Post, ApplicationError>) -> (result: Result<
    Vec<Post>,
    ApplicationError,
>)
    ensures
        load_view(result) == with_outcome(post_views(posts@), result_view(outcome)),
{
    match outcome {
        Ok(post) => {
            let ghost before = post_views(posts@);
            let mut posts = posts;
            posts.push(post);
            assert(post_views(posts@) =~= before.push(post@));
            Ok(posts)
        },
        Err(error) => Err(error),
    }
}

/// Gathers the posts of a repository from the outcomes of its documents,
/// taken in the order of the directory. One document that could not be
/// read or parsed fails the whole load, with the error of the first such
/// document.
pub fn get_posts_from_repository(outcomes: Vec<Result<Post, ApplicationError>>) -> (result: Result<
    Vec<Post>,
    ApplicationError,
>)
    ensures
        load_view(result) == loaded(outcome_views(outcomes@)),
{
    let ghost all = outcome_views(outcomes@);
    let mut posts: Vec<Post> = Vec::new();
    assert(all.take(0) =~= Seq::<Result<PostView, ApplicationErrorView>>::empty());
    assert(post_views(posts@) =~= Seq::<PostView>::empty());
    for outcome in it: outcomes
        invariant
            all == outcome_views(it.seq()),
            loaded(all.take(it.index() as int)) == Ok::<Seq<PostView>, ApplicationErrorView>(
                post_views(posts@),
            ),
    {
        let ghost done = it.index() as int;
        proof {
            assert(all.take(done + 1).drop_last() =~= all.take(done));
            assert(all.take(done + 1).last() == result_view(outcome));
        }
        match add_document(posts, outcome) {
            Ok(longer) => {
                posts = longer;
            },
            Err(error) => {
                proof {
                    lemma_loaded_fails(all, done + 1);
                }
                return Err(error);
            },
        }
    }
    assert(all.take(all.len() as int) =~= all);
    Ok(posts)
}

/// A load goes document by document: what the outcomes add up to with one
/// more is what they added up to before, with that outcome taken in, and
/// a load that has failed stays failed.
pub proof fn law_loaded_step(
    outcomes: Seq<Result<PostView, ApplicationErrorView>>,
    outcome: Result<PostView, ApplicationErrorView>,
)
    ensures
        loaded(outcomes.push(outcome)) == match loaded(outcomes) {
            Ok(posts) => with_outcome(posts, outcome),
            Err(error) => Err(error),
        },
{
    assert(outcomes.push(outcome).drop_last() =~= outcomes);
}

/// A load that has failed after some documents fails after all of them,
/// with the same error.
proof fn lemma_loaded_fails(outcomes: Seq<Result<PostView, ApplicationErrorView>>, upto: int)
    requires
        0 <= upto <= outcomes.len(),
        loaded(outcomes.take(upto)) is Err,
    ensures
        loaded(outcomes) == loaded(outcomes.take(upto)),
    decreases outcomes.len() - upto,
{
    if upto < outcomes.len() {
        assert(outcomes.take(upto + 1).drop_last() =~= outcomes.take(upto));
        lemma_loaded_fails(outcomes, upto + 1);
    } else {
        assert(outcomes.take(upto) =~= outcomes);
    }
}

} // verus!
