use personal::data::{Date, Markdown, Post};
use personal::db::{Database, InMemDatabase};
use personal::refresh::{
    seconds_until_midnight, RefreshAction, RefreshCoordinator, RefreshEvent, RefreshState,
};

fn post(slug: &str, tag: &str) -> Post {
    Post {
        data: String::new(),
        markdown: Markdown {
            title: slug.to_uppercase(),
            slug: slug.to_owned(),
            tags: vec![tag.to_owned()],
            date: Date { year: 2024, month: 1, day: 1 },
            series: None,
        },
    }
}

fn slugs(posts: &[Post]) -> Vec<String> {
    posts.iter().map(|post| post.markdown.slug.clone()).collect()
}

fn old_store() -> InMemDatabase {
    InMemDatabase::from_posts(vec![post("old", "t")])
}

fn new_store() -> InMemDatabase {
    InMemDatabase::from_posts(vec![post("new-a", "t"), post("new-b", "t")])
}

#[test]
fn a_store_is_built_from_posts() {
    let db = InMemDatabase::from_posts(vec![post("a", "x"), post("b", "y"), post("a", "z")]);
    assert_eq!(db.len(), 2);
    assert_eq!(slugs(&db.get_by_tag("x".to_owned())), vec!["a"]);
    assert!(db.get_by_tag("z".to_owned()).is_empty());
}

#[test]
fn a_cycle_publishes_the_new_store_at_the_swap() {
    let mut coordinator = RefreshCoordinator::new(old_store());
    assert_eq!(coordinator.current_state(), RefreshState::Idle);
    assert_eq!(coordinator.step(RefreshEvent::Tick), RefreshAction::Fetch);
    assert_eq!(coordinator.current_state(), RefreshState::Fetching);
    assert_eq!(coordinator.step(RefreshEvent::Fetched), RefreshAction::Build);
    assert_eq!(coordinator.current_state(), RefreshState::Building);
    assert_eq!(coordinator.step(RefreshEvent::Built(new_store())), RefreshAction::Publish);
    assert_eq!(coordinator.current_state(), RefreshState::Swapping);
    assert_eq!(slugs(&coordinator.published().get_by_tag("t".to_owned())), vec!["old"]);
    assert_eq!(coordinator.step(RefreshEvent::Swap), RefreshAction::Wait);
    assert_eq!(coordinator.current_state(), RefreshState::Idle);
    assert_eq!(slugs(&coordinator.published().get_by_tag("t".to_owned())), vec!["new-a", "new-b"]);
    assert_eq!(coordinator.published().len(), 2);
}

#[test]
fn a_failed_fetch_keeps_the_published_store() {
    let mut coordinator = RefreshCoordinator::new(old_store());
    coordinator.step(RefreshEvent::Tick);
    assert_eq!(coordinator.step(RefreshEvent::FetchFailed), RefreshAction::Wait);
    assert_eq!(coordinator.current_state(), RefreshState::Idle);
    assert_eq!(slugs(&coordinator.published().get_by_tag("t".to_owned())), vec!["old"]);
}

#[test]
fn a_failed_build_keeps_the_published_store() {
    let mut coordinator = RefreshCoordinator::new(old_store());
    coordinator.step(RefreshEvent::Tick);
    coordinator.step(RefreshEvent::Fetched);
    assert_eq!(coordinator.step(RefreshEvent::BuildFailed), RefreshAction::Wait);
    assert_eq!(coordinator.current_state(), RefreshState::Idle);
    assert_eq!(slugs(&coordinator.published().get_by_tag("t".to_owned())), vec!["old"]);
}

#[test]
fn a_tick_during_a_cycle_starts_no_second_one() {
    let mut coordinator = RefreshCoordinator::new(old_store());
    coordinator.step(RefreshEvent::Tick);
    assert_eq!(coordinator.step(RefreshEvent::Tick), RefreshAction::Wait);
    assert_eq!(coordinator.current_state(), RefreshState::Fetching);
    coordinator.step(RefreshEvent::Fetched);
    assert_eq!(coordinator.step(RefreshEvent::Tick), RefreshAction::Wait);
    assert_eq!(coordinator.current_state(), RefreshState::Building);
}

#[test]
fn events_out_of_turn_change_nothing() {
    let mut coordinator = RefreshCoordinator::new(old_store());
    assert_eq!(coordinator.step(RefreshEvent::Built(new_store())), RefreshAction::Wait);
    assert_eq!(coordinator.step(RefreshEvent::Swap), RefreshAction::Wait);
    assert_eq!(coordinator.step(RefreshEvent::Fetched), RefreshAction::Wait);
    assert_eq!(coordinator.step(RefreshEvent::FetchFailed), RefreshAction::Wait);
    assert_eq!(coordinator.step(RefreshEvent::BuildFailed), RefreshAction::Wait);
    assert_eq!(coordinator.current_state(), RefreshState::Idle);
    assert_eq!(slugs(&coordinator.published().get_by_tag("t".to_owned())), vec!["old"]);
}

#[test]
fn a_query_during_the_swap_sees_a_whole_store() {
    let mut coordinator = RefreshCoordinator::new(old_store());
    coordinator.step(RefreshEvent::Tick);
    coordinator.step(RefreshEvent::Fetched);
    coordinator.step(RefreshEvent::Built(new_store()));
    let before = coordinator.published();
    assert_eq!(slugs(&before.get_last_n_posts(10)), vec!["old"]);
    assert_eq!(before.get_all_tags_with_count(), vec![("t".to_owned(), 1)]);
    assert_eq!(before.get_all_dates_with_count(), vec![((2024, 1), 1)]);
    coordinator.step(RefreshEvent::Swap);
    let after = coordinator.published();
    assert_eq!(slugs(&after.get_last_n_posts(10)), vec!["new-a", "new-b"]);
    assert_eq!(after.get_all_tags_with_count(), vec![("t".to_owned(), 2)]);
    assert_eq!(after.get_all_dates_with_count(), vec![((2024, 1), 2)]);
}

#[test]
fn the_wait_until_midnight() {
    assert_eq!(seconds_until_midnight(0), 86400);
    assert_eq!(seconds_until_midnight(1), 86399);
    assert_eq!(seconds_until_midnight(43200), 43200);
    assert_eq!(seconds_until_midnight(86399), 1);
    assert_eq!(seconds_until_midnight(86400), 86400);
    assert_eq!(seconds_until_midnight(86401), 86399);
}
