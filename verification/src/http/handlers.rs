//! The queries of the serving layer and the data of its pages.

use crate::data::{post_views, result_view, Post, PostView};
use crate::db::{
    date_count_views, date_counts, date_query, found, latest, tag_count_views, tag_counts, Database,
};
use crate::error::{ApplicationError, ApplicationErrorView};
use crate::index::{keys_in_order, lemma_keys_in_order, selected, Kind, Query};
use crate::order::{
    as_ints, descending, descending_order, key_ints, lemma_descending_order, precedes,
};
use vstd::prelude::*;

verus! {

/// A request for the posts that carry a tag.
#[derive(Debug, PartialEq, Eq)]
pub struct TagQuery {
    pub tag: String,
}

/// A request for the posts of a series.
#[derive(Debug, PartialEq, Eq)]
pub struct SeriesQuery {
    pub series: String,
}

/// A request for the posts that match a keyword.
#[derive(Debug, PartialEq, Eq)]
pub struct KeywordQuery {
    pub keyword: String,
}

/// A request for the posts of a year, or of one month of it.
#[derive(Debug, Clone, Copy, PartialEq, Eq)]
pub struct DateQuery {
    pub year: i32,
    pub month: Option<u32>,
}

/// The English name of the month with the given number, `Unknown` for a
/// number outside 1 to 12.
pub open spec fn month_name_of(month: u32) -> Seq<char> {
    if month == 1 {
        "January"@
    } else if month == 2 {
        "February"@
    } else if month == 3 {
        "March"@
    } else if month == 4 {
        "April"@
    } else if month == 5 {
        "May"@
    } else if month == 6 {
        "June"@
    } else if month == 7 {
        "July"@
    } else if month == 8 {
        "August"@
    } else if month == 9 {
        "September"@
    } else if month == 10 {
        "October"@
    } else if month == 11 {
        "November"@
    } else if month == 12 {
        "December"@
    } else {
        "Unknown"@
    }
}

/// The English name of a month.
pub fn month_name(month: u32) -> (name: &'static str)
    ensures
        name@ == month_name_of(month),
{
    match month {
        1 => "January",
        2 => "February",
        3 => "March",
        4 => "April",
        5 => "May",
        6 => "June",
        7 => "July",
        8 => "August",
        9 => "September",
        10 => "October",
        11 => "November",
        12 => "December",
        _ => "Unknown",
    }
}

/// The months of one year with their counts, as a page lists them: the
/// name of the month, its number, and the number of posts.
pub type Months = Vec<(String, u32, usize)>;

/// What a list of months of one year holds.
pub open spec fn month_views(months: Seq<(String, u32, usize)>) -> Seq<(Seq<char>, u32, nat)> {
    months.map_values(|month: (String, u32, usize)| (month.0@, month.1, month.2 as nat))
}

/// What a list of years with their months holds.
pub open spec fn year_views(years: Seq<(i32, Months)>) -> Seq<(i32, Seq<(Seq<char>, u32, nat)>)> {
    years.map_values(|year: (i32, Months)| (year.0, month_views(year.1@)))
}

/// The counts by which the tags are ordered.
pub open spec fn count_keys(counts: Seq<(Seq<char>, nat)>) -> Seq<int> {
    counts.map_values(|entry: (Seq<char>, nat)| entry.1 as int)
}

/// The tags with their counts, the tag of the most posts first; tags of
/// equally many posts stay in the order in which they first occur.
pub open spec fn tags_by_count(records: Seq<PostView>) -> Seq<(Seq<char>, nat)> {
    let counts = tag_counts(records);
    descending_order(count_keys(counts)).map_values(|at: int| counts[at])
}

/// A number by which months are ordered from the latest year to the
/// earliest, and within a year from January to December.
pub open spec fn month_key(year: i32, month: u32) -> int {
    year * 0x1_0000_0000 - month
}

/// The keys by which the months are ordered.
pub open spec fn month_keys(counts: Seq<((i32, u32), nat)>) -> Seq<int> {
    counts.map_values(|entry: ((i32, u32), nat)| month_key(entry.0.0, entry.0.1))
}

/// The months with their counts, from the latest year to the earliest and
/// within a year from its first month to its last.
pub open spec fn months_in_order(records: Seq<PostView>) -> Seq<((i32, u32), nat)> {
    let counts = date_counts(records);
    descending_order(month_keys(counts)).map_values(|at: int| counts[at])
}

/// What a page lists for a month with its count.
pub open spec fn month_entry(entry: ((i32, u32), nat)) -> (Seq<char>, u32, nat) {
    (month_name_of(entry.0.1), entry.0.1, entry.1)
}

/// A list of months with their counts, gathered by year: months that
/// follow one another in the list and are of one year make one group.
pub open spec fn grouped(months: Seq<((i32, u32), nat)>) -> Seq<(i32, Seq<(Seq<char>, u32, nat)>)>
    decreases months.len(),
{
    if months.len() == 0 {
        Seq::empty()
    } else {
        let groups = grouped(months.drop_last());
        let entry = months.last();
        if groups.len() > 0 && groups.last().0 == entry.0.0 {
            groups.drop_last().push((entry.0.0, groups.last().1.push(month_entry(entry))))
        } else {
            groups.push((entry.0.0, seq![month_entry(entry)]))
        }
    }
}

/// The years of which there are posts, the latest first, each with its
/// months from the first to the last.
pub open spec fn dates_by_year(records: Seq<PostView>) -> Seq<(i32, Seq<(Seq<char>, u32, nat)>)> {
    grouped(months_in_order(records))
}

/// The tags ordered by count are the tags with their counts, each once,
/// and no tag in the list is followed by one of more posts.
pub proof fn law_tags_by_count(records: Seq<PostView>)
    ensures
        tags_by_count(records).len() == tag_counts(records).len(),
        forall|a: int, b: int|
            0 <= a < b < tags_by_count(records).len() ==> (#[trigger] tags_by_count(records)[a]).1
                >= (#[trigger] tags_by_count(records)[b]).1,
        forall|k: int|
            0 <= k < tag_counts(records).len() ==> tags_by_count(records).contains(
                #[trigger] tag_counts(records)[k],
            ),
        forall|k: int|
            0 <= k < tag_counts(records).len() ==> tag_counts(records).contains(
                #[trigger] tags_by_count(records)[k],
            ),
{
    let counts = tag_counts(records);
    let keys = count_keys(counts);
    let order = descending_order(keys);
    lemma_descending_order(keys);
    assert forall|a: int, b: int| 0 <= a < b < tags_by_count(records).len() implies (
    #[trigger] tags_by_count(records)[a]).1 >= (#[trigger] tags_by_count(records)[b]).1 by {
        assert(precedes(keys, order[a], order[b]));
    }
    assert forall|k: int| 0 <= k < counts.len() implies tags_by_count(records).contains(
        #[trigger] counts[k],
    ) by {
        assert(order.contains(k));
        let a = choose|a: int| 0 <= a < order.len() && order[a] == k;
        assert(tags_by_count(records)[a] == counts[k]);
    }
    assert forall|k: int| 0 <= k < counts.len() implies counts.contains(
        #[trigger] tags_by_count(records)[k],
    ) by {
        assert(tags_by_count(records)[k] == counts[order[k]]);
    }
}

/// In a list of months, each comes before the months of earlier years and
/// before the later months of its own year.
pub open spec fn months_descend(months: Seq<((i32, u32), nat)>) -> bool {
    forall|a: int, b: int|
        0 <= a < b < months.len() ==> month_key(
            (#[trigger] months[a]).0.0,
            months[a].0.1,
        ) > month_key((#[trigger] months[b]).0.0, months[b].0.1)
}

/// The month key orders months by year, the latest first, and within a
/// year by month, the first first.
proof fn lemma_month_key(year: i32, month: u32, other_year: i32, other_month: u32)
    ensures
        month_key(year, month) > month_key(other_year, other_month) <==> year > other_year || (year
            == other_year && month < other_month),
        month_key(year, month) == month_key(other_year, other_month) <==> year == other_year
            && month == other_month,
{
}

/// What gathering by year makes of months that descend.
proof fn lemma_grouped(months: Seq<((i32, u32), nat)>)
    requires
        months_descend(months),
    ensures
        forall|a: int, b: int|
            0 <= a < b < grouped(months).len() ==> (#[trigger] grouped(months)[a]).0 > (
            #[trigger] grouped(months)[b]).0,
        forall|a: int, x: int, y: int|
            0 <= a < grouped(months).len() && 0 <= x < y < grouped(months)[a].1.len() ==> (
            #[trigger] grouped(months)[a].1[x]).1 < (#[trigger] grouped(months)[a].1[y]).1,
        forall|a: int, x: int|
            0 <= a < grouped(months).len() && 0 <= x < grouped(months)[a].1.len() ==> (
            #[trigger] grouped(months)[a].1[x]).0 == month_name_of(grouped(months)[a].1[x].1),
        forall|a: int|
            0 <= a < grouped(months).len() ==> (#[trigger] grouped(months)[a]).1.len() > 0,
        months.len() > 0 ==> grouped(months).len() > 0 && grouped(months).last().0
            == months.last().0.0 && grouped(months).last().1.last().1 == months.last().0.1,
    decreases months.len(),
{
    if months.len() > 0 {
        let fewer = months.drop_last();
        let entry = months.last();
        assert forall|a: int, b: int| 0 <= a < b < fewer.len() implies month_key(
            (#[trigger] fewer[a]).0.0,
            fewer[a].0.1,
        ) > month_key((#[trigger] fewer[b]).0.0, fewer[b].0.1) by {
            assert(fewer[a] == months[a] && fewer[b] == months[b]);
        }
        lemma_grouped(fewer);
        let groups = grouped(fewer);
        let all = grouped(months);
        if fewer.len() > 0 {
            let before = fewer.last();
            assert(before == months[months.len() - 2]);
            assert(entry == months[months.len() - 1]);
            lemma_month_key(before.0.0, before.0.1, entry.0.0, entry.0.1);
        }
        if groups.len() > 0 && groups.last().0 == entry.0.0 {
            let last = groups.len() - 1;
            assert(all == groups.drop_last().push(
                (entry.0.0, groups.last().1.push(month_entry(entry))),
            ));
            assert forall|a: int, x: int, y: int|
                0 <= a < all.len() && 0 <= x < y < all[a].1.len() implies (#[trigger] all[a].1[x]).1
                < (#[trigger] all[a].1[y]).1 by {
                if a < last {
                    assert(all[a] == groups[a]);
                } else if y < groups[last].1.len() {
                    assert(all[a].1[x] == groups[last].1[x]);
                    assert(all[a].1[y] == groups[last].1[y]);
                } else {
                    let end = groups[last].1.len() - 1;
                    assert(all[a].1[x] == groups[last].1[x]);
                    if x < end {
                        assert(groups[last].1[x].1 < groups[last].1[end].1);
                    }
                }
            }
            assert forall|a: int, x: int|
                0 <= a < all.len() && 0 <= x < all[a].1.len() implies (#[trigger] all[a].1[x]).0
                == month_name_of(all[a].1[x].1) by {
                if a < last {
                    assert(all[a] == groups[a]);
                } else if x < groups[last].1.len() {
                    assert(all[a].1[x] == groups[last].1[x]);
                }
            }
            assert forall|a: int, b: int| 0 <= a < b < all.len() implies (#[trigger] all[a]).0 > (
            #[trigger] all[b]).0 by {
                assert(all[a] == groups[a]);
                assert(all[b].0 == groups[b].0);
            }
        } else {
            assert(all == groups.push((entry.0.0, seq![month_entry(entry)])));
            assert forall|a: int, b: int| 0 <= a < b < all.len() implies (#[trigger] all[a]).0 > (
            #[trigger] all[b]).0 by {
                assert(all[a] == groups[a]);
                if b < groups.len() {
                    assert(all[b] == groups[b]);
                } else {
                    let last = groups.len() - 1;
                    if a < last {
                        assert(groups[a].0 > groups[last].0);
                    }
                }
            }
            assert forall|a: int, x: int, y: int|
                0 <= a < all.len() && 0 <= x < y < all[a].1.len() implies (#[trigger] all[a].1[x]).1
                < (#[trigger] all[a].1[y]).1 by {
                if a < groups.len() {
                    assert(all[a] == groups[a]);
                }
            }
            assert forall|a: int, x: int|
                0 <= a < all.len() && 0 <= x < all[a].1.len() implies (#[trigger] all[a].1[x]).0
                == month_name_of(all[a].1[x].1) by {
                if a < groups.len() {
                    assert(all[a] == groups[a]);
                }
            }
        }
    }
}

/// The months by year list each year once, the latest first, and with each
/// year its months once, from the first to the last, each under its name.
pub proof fn law_dates_by_year(records: Seq<PostView>)
    ensures
        forall|a: int, b: int|
            0 <= a < b < dates_by_year(records).len() ==> (#[trigger] dates_by_year(records)[a]).0
                > (#[trigger] dates_by_year(records)[b]).0,
        forall|a: int, x: int, y: int|
            0 <= a < dates_by_year(records).len() && 0 <= x < y < dates_by_year(
                records,
            )[a].1.len() ==> (#[trigger] dates_by_year(records)[a].1[x]).1 < (
            #[trigger] dates_by_year(records)[a].1[y]).1,
        forall|a: int, x: int|
            0 <= a < dates_by_year(records).len() && 0 <= x < dates_by_year(records)[a].1.len()
                ==> (#[trigger] dates_by_year(records)[a].1[x]).0 == month_name_of(
                dates_by_year(records)[a].1[x].1,
            ),
        forall|a: int|
            0 <= a < dates_by_year(records).len() ==> (#[trigger] dates_by_year(
                records,
            )[a]).1.len() > 0,
{
    let counts = date_counts(records);
    let keys = month_keys(counts);
    let order = descending_order(keys);
    let months = months_in_order(records);
    lemma_descending_order(keys);
    lemma_keys_in_order(records, Kind::Month);
    let listed = keys_in_order(records, Kind::Month);
    assert forall|a: int, b: int| 0 <= a < b < months.len() implies month_key(
        (#[trigger] months[a]).0.0,
        months[a].0.1,
    ) > month_key((#[trigger] months[b]).0.0, months[b].0.1) by {
        let i = order[a];
        let j = order[b];
        assert(precedes(keys, i, j));
        if keys[i] == keys[j] {
            lemma_month_key(counts[i].0.0, counts[i].0.1, counts[j].0.0, counts[j].0.1);
            assert(listed[i] is Month && listed[j] is Month);
            assert(listed[i] == listed[j]);
            assert(i != j);
        }
    }
    lemma_grouped(months);
}

/// The tags of a store, ordered by their counts.
fn tags_for_nav<D: Database>(db: &D) -> (tags: Vec<(String, usize)>)
    requires
        db.well_formed(),
    ensures
        tag_count_views(tags@) == tags_by_count(db.records()),
{
    let counts = db.get_all_tags_with_count();
    let ghost views = tag_count_views(counts@);
    let mut keys: Vec<i128> = Vec::new();
    let mut at: usize = 0;
    while at < counts.len()
        invariant
            at <= counts.len(),
            keys.len() == at,
            views == tag_count_views(counts@),
            forall|a: int| 0 <= a < at ==> keys[a] == count_keys(views)[a],
        decreases counts.len() - at,
    {
        keys.push(counts[at].1 as i128);
        at += 1;
    }
    assert(key_ints(keys@) =~= count_keys(views));
    let order = descending(&keys);
    let mut tags: Vec<(String, usize)> = Vec::new();
    let mut k: usize = 0;
    while k < order.len()
        invariant
            k <= order.len(),
            order.len() == counts.len(),
            views == tag_count_views(counts@),
            forall|a: int| 0 <= a < order.len() ==> order[a] < counts.len(),
            tags.len() == k,
            forall|a: int|
                0 <= a < k ==> tag_count_views(tags@)[a] == views[#[trigger] as_ints(order@)[a]],
        decreases order.len() - k,
    {
        let entry = &counts[order[k]];
        tags.push((entry.0.clone(), entry.1));
        k += 1;
    }
    assert(tag_count_views(tags@) =~= as_ints(order@).map_values(|at: int| views[at]));
    tags
}

/// The months of a store, gathered by year.
fn dates_for_nav<D: Database>(db: &D) -> (years: Vec<(i32, Months)>)
    requires
        db.well_formed(),
    ensures
        year_views(years@) == dates_by_year(db.records()),
{
    let counts = db.get_all_dates_with_count();
    let ghost views = date_count_views(counts@);
    let mut keys: Vec<i128> = Vec::new();
    let mut at: usize = 0;
    while at < counts.len()
        invariant
            at <= counts.len(),
            keys.len() == at,
            views == date_count_views(counts@),
            forall|a: int| 0 <= a < at ==> keys[a] == month_keys(views)[a],
        decreases counts.len() - at,
    {
        let (year, month) = counts[at].0;
        keys.push(year as i128 * 0x1_0000_0000 - month as i128);
        at += 1;
    }
    assert(key_ints(keys@) =~= month_keys(views));
    let order = descending(&keys);
    let ghost sorted = as_ints(order@).map_values(|at: int| views[at]);
    let mut years: Vec<(i32, Months)> = Vec::new();
    let mut k: usize = 0;
    assert(sorted.take(0) =~= Seq::<((i32, u32), nat)>::empty());
    assert(year_views(years@) =~= grouped(sorted.take(0)));
    while k < order.len()
        invariant
            k <= order.len(),
            order.len() == counts.len(),
            views == date_count_views(counts@),
            sorted == as_ints(order@).map_values(|at: int| views[at]),
            forall|a: int| 0 <= a < order.len() ==> order[a] < counts.len(),
            year_views(years@) == grouped(sorted.take(k as int)),
        decreases order.len() - k,
    {
        let ((year, month), count) = counts[order[k]];
        let ghost before = years@;
        let ghost groups = year_views(before);
        proof {
            assert(sorted.take(k + 1).drop_last() =~= sorted.take(k as int));
            assert(sorted.take(k + 1).last() == ((year, month), count as nat));
        }
        let entry = (month_name(month).to_owned(), month, count);
        let n = years.len();
        if n > 0 && years[n - 1].0 == year {
            years[n - 1].1.push(entry);
            proof {
                assert(groups.last() == (before[n - 1].0, month_views(before[n - 1].1@)));
                assert(month_views(years[n - 1].1@) =~= month_views(before[n - 1].1@).push(
                    month_entry(((year, month), count as nat)),
                ));
                assert(year_views(years@) =~= groups.drop_last().push(
                    (year, groups.last().1.push(month_entry(((year, month), count as nat)))),
                ));
            }
        } else {
            let mut months: Months = Vec::new();
            months.push(entry);
            years.push((year, months));
            proof {
                assert(month_views(months@) =~= seq![month_entry(((year, month), count as nat))]);
                assert(year_views(years@) =~= groups.push(
                    (year, seq![month_entry(((year, month), count as nat))]),
                ));
            }
        }
        k += 1;
    }
    assert(sorted.take(order.len() as int) =~= sorted);
    years
}

/// What the pages show beside their content: the tags with their counts,
/// the most used first, and the months with their counts by year, the
/// latest year first.
pub fn prepare_nav_data<D: Database>(db: &D) -> (nav: (Vec<(String, usize)>, Vec<(i32, Months)>))
    requires
        db.well_formed(),
    ensures
        tag_count_views(nav.0@) == tags_by_count(db.records()),
        year_views(nav.1@) == dates_by_year(db.records()),
{
    (tags_for_nav(db), dates_for_nav(db))
}

/// The data of the page of one post.
#[derive(Debug, PartialEq, Eq)]
pub struct PostTemplate {
    pub post: Post,
    pub tags_with_count: Vec<(String, usize)>,
    pub dates_by_year: Vec<(i32, Months)>,
}

/// The data of a page that lists posts.
#[derive(Debug, PartialEq, Eq)]
pub struct PostsListTemplate {
    pub posts: Vec<Post>,
    pub tags_with_count: Vec<(String, usize)>,
    pub dates_by_year: Vec<(i32, Months)>,
}

/// The data of the front page.
#[derive(Debug, PartialEq, Eq)]
pub struct IndexTemplate {
    pub posts: Vec<Post>,
    pub tags_with_count: Vec<(String, usize)>,
    pub dates_by_year: Vec<(i32, Months)>,
}

/// The number of posts that the front page and the list of the latest
/// posts show.
pub const LATEST_POSTS: usize = 10;

/// The navigation data of a page is that of the store.
pub open spec fn nav_of(
    tags: Vec<(String, usize)>,
    years: Vec<(i32, Months)>,
    records: Seq<PostView>,
) -> bool {
    &&& tag_count_views(tags@) == tags_by_count(records)
    &&& year_views(years@) == dates_by_year(records)
}

/// The page that lists the given posts.
fn posts_list<D: Database>(db: &D, posts: Vec<Post>) -> (page: PostsListTemplate)
    requires
        db.well_formed(),
    ensures
        page.posts == posts,
        nav_of(page.tags_with_count, page.dates_by_year, db.records()),
{
    let (tags_with_count, dates_by_year) = prepare_nav_data(db);
    PostsListTemplate { posts, tags_with_count, dates_by_year }
}

/// The post with the slug, or `NotFound`.
pub fn get_post_by_slug<D: Database>(db: &D, slug: String) -> (result: Result<
    Post,
    ApplicationError,
>)
    requires
        db.well_formed(),
    ensures
        result_view(result) == found(db.records(), slug@),
{
    db.get_by_slug(slug)
}

/// The posts that carry the tag of the query.
pub fn get_posts_by_tag<D: Database>(db: &D, params: TagQuery) -> (posts: Vec<Post>)
    requires
        db.well_formed(),
    ensures
        post_views(posts@) == selected(db.records(), Query::Tag(params.tag@)),
{
    db.get_by_tag(params.tag)
}

/// The posts of the series of the query.
pub fn get_posts_by_series<D: Database>(db: &D, params: SeriesQuery) -> (posts: Vec<Post>)
    requires
        db.well_formed(),
    ensures
        post_views(posts@) == selected(db.records(), Query::Series(params.series@)),
{
    db.get_by_series(params.series)
}

/// The posts that match the keyword of the query: none.
pub fn get_posts_by_keyword<D: Database>(db: &D, params: KeywordQuery) -> (posts: Vec<Post>)
    ensures
        posts@.len() == 0,
{
    db.get_by_keyword(params.keyword)
}

/// The posts of the year of the query, or of its month where it names one.
pub fn get_posts_by_date<D: Database>(db: &D, params: DateQuery) -> (posts: Vec<Post>)
    requires
        db.well_formed(),
    ensures
        post_views(posts@) == selected(db.records(), date_query(params.year, params.month)),
{
    db.get_by_year_month(params.year, params.month)
}

/// The ten newest posts, the newest first.
pub fn get_latest_posts<D: Database>(db: &D) -> (posts: Vec<Post>)
    requires
        db.well_formed(),
    ensures
        post_views(posts@) == latest(db.records(), LATEST_POSTS as nat),
{
    db.get_last_n_posts(LATEST_POSTS)
}

/// What the page of a post holds for a slug: the post found under it with
/// the navigation data of the store, or the error that nothing is found.
pub open spec fn post_page(
    page: Result<PostTemplate, ApplicationError>,
    records: Seq<PostView>,
    slug: Seq<char>,
) -> bool {
    match page {
        Ok(page) => found(records, slug) == Ok::<PostView, ApplicationErrorView>(page.post@)
            && nav_of(page.tags_with_count, page.dates_by_year, records),
        Err(error) => found(records, slug) == Err::<PostView, ApplicationErrorView>(error@),
    }
}

/// The page of the post with the slug, or `NotFound`.
pub fn html_get_post_by_slug<D: Database>(db: &D, slug: String) -> (page: Result<
    PostTemplate,
    ApplicationError,
>)
    requires
        db.well_formed(),
    ensures
        post_page(page, db.records(), slug@),
{
    match db.get_by_slug(slug) {
        Ok(post) => {
            let (tags_with_count, dates_by_year) = prepare_nav_data(db);
            Ok(PostTemplate { post, tags_with_count, dates_by_year })
        },
        Err(error) => Err(error),
    }
}

/// The page that lists the posts that carry the tag of the query.
pub fn html_get_posts_by_tag<D: Database>(db: &D, params: TagQuery) -> (page: PostsListTemplate)
    requires
        db.well_formed(),
    ensures
        post_views(page.posts@) == selected(db.records(), Query::Tag(params.tag@)),
        nav_of(page.tags_with_count, page.dates_by_year, db.records()),
{
    let posts = db.get_by_tag(params.tag);
    posts_list(db, posts)
}

/// The page that lists the posts of the series of the query.
pub fn html_get_posts_by_series<D: Database>(db: &D, params: SeriesQuery) -> (page:
    PostsListTemplate)
    requires
        db.well_formed(),
    ensures
        post_views(page.posts@) == selected(db.records(), Query::Series(params.series@)),
        nav_of(page.tags_with_count, page.dates_by_year, db.records()),
{
    let posts = db.get_by_series(params.series);
    posts_list(db, posts)
}

/// The page that lists the posts that match the keyword of the query:
/// none.
pub fn html_get_posts_by_keyword<D: Database>(db: &D, params: KeywordQuery) -> (page:
    PostsListTemplate)
    requires
        db.well_formed(),
    ensures
        page.posts@.len() == 0,
        nav_of(page.tags_with_count, page.dates_by_year, db.records()),
{
    let posts = db.get_by_keyword(params.keyword);
    posts_list(db, posts)
}

/// The page that lists the posts of the year of the query, or of its
/// month where it names one.
pub fn html_get_posts_by_date<D: Database>(db: &D, params: DateQuery) -> (page: PostsListTemplate)
    requires
        db.well_formed(),
    ensures
        post_views(page.posts@) == selected(db.records(), date_query(params.year, params.month)),
        nav_of(page.tags_with_count, page.dates_by_year, db.records()),
{
    let posts = db.get_by_year_month(params.year, params.month);
    posts_list(db, posts)
}

/// The front page: the ten newest posts, the newest first.
pub fn html_index<D: Database>(db: &D) -> (page: IndexTemplate)
    requires
        db.well_formed(),
    ensures
        post_views(page.posts@) == latest(db.records(), LATEST_POSTS as nat),
        nav_of(page.tags_with_count, page.dates_by_year, db.records()),
{
    let posts = db.get_last_n_posts(LATEST_POSTS);
    let (tags_with_count, dates_by_year) = prepare_nav_data(db);
    IndexTemplate { posts, tags_with_count, dates_by_year }
}

} // verus!
