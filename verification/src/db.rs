//! The store: the records in the order in which they were accepted, with
//! an index by slug, by tag, by series and by month.

use crate::data::{post_views, result_view, Date, Post, PostView};
use crate::error::{ApplicationError, ApplicationErrorView};
use crate::index::{
    add_member, answers, find_key, is_key, keys_in_order, keys_of, lemma_filed,
    lemma_keys_in_order, lemma_positions, lemma_selected_at_positions, positions, selected,
    table_filing, table_keys, table_ok, Bucket, Key, Kind, Query,
};
use crate::order::{as_ints, descending, descending_order, key_ints};
use crate::slugs::{holds, SlugIndex};
use vstd::prelude::*;

verus! {

/// Some record has the slug.
pub open spec fn holds_slug(records: Seq<PostView>, slug: Seq<char>) -> bool {
    exists|i: int| 0 <= i < records.len() && (#[trigger] records[i]).markdown.slug == slug
}

/// No two records have the same slug.
pub open spec fn unique_slugs(records: Seq<PostView>) -> bool {
    forall|i: int, j: int|
        0 <= i < j < records.len() ==> (#[trigger] records[i]).markdown.slug != (
        #[trigger] records[j]).markdown.slug
}

/// The first position at or after `from` of a record with the slug, or
/// the number of records where there is none.
pub open spec fn slug_position(records: Seq<PostView>, slug: Seq<char>, from: int) -> int
    decreases records.len() - from,
{
    if from < 0 || from >= records.len() {
        records.len() as int
    } else if records[from].markdown.slug == slug {
        from
    } else {
        slug_position(records, slug, from + 1)
    }
}

/// The slugs of the records.
pub open spec fn slugs_of(records: Seq<PostView>) -> Seq<Seq<char>> {
    records.map_values(|post: PostView| post.markdown.slug)
}

/// Among unique slugs, a record with the slug stands first among those
/// with the slug.
proof fn lemma_slug_position_is(records: Seq<PostView>, slug: Seq<char>, from: int, at: int)
    requires
        unique_slugs(records),
        0 <= from <= at < records.len(),
        records[at].markdown.slug == slug,
    ensures
        slug_position(records, slug, from) == at,
    decreases at - from,
{
    if from < at {
        lemma_slug_position_is(records, slug, from + 1, at);
    }
}

/// Where no record has the slug, none is found.
proof fn lemma_slug_position_none(records: Seq<PostView>, slug: Seq<char>, from: int)
    requires
        0 <= from,
        !holds_slug(records, slug),
    ensures
        slug_position(records, slug, from) == records.len(),
    decreases records.len() - from,
{
    if from < records.len() {
        lemma_slug_position_none(records, slug, from + 1);
    }
}

/// The error of a lookup that finds nothing.
pub open spec fn not_found(slug: Seq<char>) -> ApplicationErrorView {
    ApplicationErrorView::NotFound { slug }
}

/// The record with the slug, or the error that there is none.
pub open spec fn found(records: Seq<PostView>, slug: Seq<char>) -> Result<
    PostView,
    ApplicationErrorView,
> {
    let at = slug_position(records, slug, 0);
    if at < records.len() {
        Ok(records[at])
    } else {
        Err(not_found(slug))
    }
}

/// The records after `post` was handed in: it is put behind them, unless
/// a record with its slug is there already, in which case nothing changes.
pub open spec fn inserted(records: Seq<PostView>, post: PostView) -> Seq<PostView> {
    if holds_slug(records, post.markdown.slug) {
        records
    } else {
        records.push(post)
    }
}

/// The records after each of `posts` was handed in, in their order.
pub open spec fn inserted_all(records: Seq<PostView>, posts: Seq<PostView>) -> Seq<PostView>
    decreases posts.len(),
{
    if posts.len() == 0 {
        records
    } else {
        inserted(inserted_all(records, posts.drop_last()), posts.last())
    }
}

/// What the query for a year, or for one month of it, asks.
pub open spec fn date_query(year: i32, month: Option<u32>) -> Query {
    match month {
        Some(month) => Query::Month(year, month),
        None => Query::Year(year),
    }
}

/// A number by which dates are ordered as the calendar orders them: by
/// year, then by month, then by day.
pub open spec fn date_key(date: Date) -> int {
    date.year * 0x1_0000_0000_0000_0000 + date.month * 0x1_0000_0000 + date.day
}

/// The date keys of the records.
pub open spec fn date_keys(records: Seq<PostView>) -> Seq<int> {
    records.map_values(|post: PostView| date_key(post.markdown.date))
}

/// The records from the newest date to the oldest; records of the same
/// date stay in their order.
pub open spec fn newest_first(records: Seq<PostView>) -> Seq<PostView> {
    descending_order(date_keys(records)).map_values(|at: int| records[at])
}

/// The `n` newest records, or all of them where there are fewer.
pub open spec fn latest(records: Seq<PostView>, n: nat) -> Seq<PostView> {
    if n < records.len() {
        newest_first(records).take(n as int)
    } else {
        newest_first(records)
    }
}

/// Each tag that a record carries, in the order in which the tags first
/// occur, with the number of records that carry it.
pub open spec fn tag_counts(records: Seq<PostView>) -> Seq<(Seq<char>, nat)> {
    keys_in_order(records, Kind::Tag).map_values(
        |key: Query| (key->Tag_0, selected(records, key).len()),
    )
}

/// Each year and month of which there is a record, in the order in which
/// the months first occur, with the number of records of that month.
pub open spec fn date_counts(records: Seq<PostView>) -> Seq<((i32, u32), nat)> {
    keys_in_order(records, Kind::Month).map_values(
        |key: Query| ((key->Month_0, key->Month_1), selected(records, key).len()),
    )
}

/// What a list of tags with their counts holds.
pub open spec fn tag_count_views(counts: Seq<(String, usize)>) -> Seq<(Seq<char>, nat)> {
    counts.map_values(|entry: (String, usize)| (entry.0@, entry.1 as nat))
}

/// What a list of months with their counts holds.
pub open spec fn date_count_views(counts: Seq<((i32, u32), usize)>) -> Seq<((i32, u32), nat)> {
    counts.map_values(|entry: ((i32, u32), usize)| (entry.0, entry.1 as nat))
}

/// A store of posts that can be filled and asked.
pub trait Database {
    /// The records of the store, in the order in which they were accepted.
    spec fn records(&self) -> Seq<PostView>;

    /// The store is sound: no two records share a slug, and its indexes
    /// agree with its records.
    spec fn well_formed(&self) -> bool;

    /// In a sound store no two records share a slug.
    proof fn lemma_unique_slugs(&self)
        requires
            self.well_formed(),
        ensures
            unique_slugs(self.records()),
    ;

    /// The post with the slug, or `NotFound`.
    fn get_by_slug(&self, slug: String) -> (result: Result<Post, ApplicationError>)
        requires
            self.well_formed(),
        ensures
            result_view(result) == found(self.records(), slug@),
    ;

    /// The posts that carry the tag, in the order of the store.
    fn get_by_tag(&self, tag: String) -> (posts: Vec<Post>)
        requires
            self.well_formed(),
        ensures
            post_views(posts@) == selected(self.records(), Query::Tag(tag@)),
    ;

    /// The posts of the series with the title, in the order of the store.
    fn get_by_series(&self, series: String) -> (posts: Vec<Post>)
        requires
            self.well_formed(),
        ensures
            post_views(posts@) == selected(self.records(), Query::Series(series@)),
    ;

    /// No post: the store keeps no index by keyword.
    fn get_by_keyword(&self, keyword: String) -> (posts: Vec<Post>)
        ensures
            posts@.len() == 0,
    ;

    /// The posts of the year, or of the one month of it where a month is
    /// given, in the order of the store.
    fn get_by_year_month(&self, year: i32, month: Option<u32>) -> (posts: Vec<Post>)
        requires
            self.well_formed(),
        ensures
            post_views(posts@) == selected(self.records(), date_query(year, month)),
    ;

    /// The `n` newest posts, the newest first.
    fn get_last_n_posts(&self, n: usize) -> (posts: Vec<Post>)
        requires
            self.well_formed(),
        ensures
            post_views(posts@) == latest(self.records(), n as nat),
    ;

    /// Each tag with the number of posts that carry it.
    fn get_all_tags_with_count(&self) -> (counts: Vec<(String, usize)>)
        requires
            self.well_formed(),
        ensures
            tag_count_views(counts@) == tag_counts(self.records()),
    ;

    /// Each year and month with the number of posts of that month.
    fn get_all_dates_with_count(&self) -> (counts: Vec<((i32, u32), usize)>)
        requires
            self.well_formed(),
        ensures
            date_count_views(counts@) == date_counts(self.records()),
    ;

    /// Hands a post to the store. It is accepted, and filed under its tags,
    /// its series and its month, unless the store holds a post with its
    /// slug already: then the store stays as it is. Either way the call
    /// succeeds.
    fn insert_parsed_to_database(&mut self, post: Post) -> (result: Result<(), ApplicationError>)
        requires
            old(self).well_formed(),
        ensures
            final(self).well_formed(),
            final(self).records() == inserted(old(self).records(), post@),
            result is Ok,
    ;
}

/// The store in memory.
#[derive(Debug)]
pub struct InMemDatabase {
    posts: Vec<Post>,
    by_slug: SlugIndex,
    by_tag: Vec<Bucket>,
    by_series: Vec<Bucket>,
    by_date: Vec<Bucket>,
}

impl InMemDatabase {
    /// An empty store.
    pub fn new() -> (db: InMemDatabase)
        ensures
            db.well_formed(),
            db.records() == Seq::<PostView>::empty(),
    {
        let db = InMemDatabase {
            posts: Vec::new(),
            by_slug: SlugIndex::new(),
            by_tag: Vec::new(),
            by_series: Vec::new(),
            by_date: Vec::new(),
        };
        proof {
            assert(db.records() =~= Seq::<PostView>::empty());
            assert(slugs_of(db.records()) =~= Seq::<Seq<char>>::empty());
            assert(table_keys(db.by_tag@) =~= Seq::<Query>::empty());
            assert(table_keys(db.by_series@) =~= Seq::<Query>::empty());
            assert(table_keys(db.by_date@) =~= Seq::<Query>::empty());
        }
        db
    }

    /// A store built from nothing but the given posts, handed in one after
    /// the other.
    pub fn from_posts(posts: Vec<Post>) -> (db: InMemDatabase)
        ensures
            db.well_formed(),
            db.records() == inserted_all(Seq::empty(), post_views(posts@)),
    {
        let ghost all = post_views(posts@);
        let mut db = InMemDatabase::new();
        assert(all.take(0) =~= Seq::<PostView>::empty());
        for post in it: posts
            invariant
                all == post_views(it.seq()),
                db.well_formed(),
                db.records() == inserted_all(Seq::empty(), all.take(it.index() as int)),
        {
            proof {
                let done = it.index() as int;
                assert(all.take(done + 1).drop_last() =~= all.take(done));
                assert(all.take(done + 1).last() == post@);
            }
            let _ = db.insert_parsed_to_database(post);
        }
        assert(all.take(all.len() as int) =~= all);
        db
    }

    /// The number of posts in the store.
    pub fn len(&self) -> (count: usize)
        ensures
            count == self.records().len(),
    {
        self.posts.len()
    }
}

impl Default for InMemDatabase {
    fn default() -> (db: InMemDatabase)
        ensures
            db.well_formed(),
            db.records() == Seq::<PostView>::empty(),
    {
        InMemDatabase::new()
    }
}

impl Database for InMemDatabase {
    closed spec fn records(&self) -> Seq<PostView> {
        post_views(self.posts@)
    }

    closed spec fn well_formed(&self) -> bool {
        &&& unique_slugs(self.records())
        &&& self.by_slug.lists(slugs_of(self.records()))
        &&& table_ok(self.by_tag@, self.records(), Kind::Tag)
        &&& table_ok(self.by_series@, self.records(), Kind::Series)
        &&& table_ok(self.by_date@, self.records(), Kind::Month)
    }

    proof fn lemma_unique_slugs(&self) {
    }

    fn get_by_slug(&self, slug: String) -> (result: Result<Post, ApplicationError>) {
        match self.position_of(&slug) {
            Some(at) => {
                proof {
                    lemma_slug_position_is(self.records(), slug@, 0, at as int);
                }
                Ok(self.posts[at].clone())
            },
            None => {
                proof {
                    lemma_slug_position_none(self.records(), slug@, 0);
                }
                Err(ApplicationError::NotFound { slug })
            },
        }
    }

    fn get_by_tag(&self, tag: String) -> (posts: Vec<Post>) {
        self.filed_under(&self.by_tag, &Key::Tag(tag), Ghost(Kind::Tag))
    }

    fn get_by_series(&self, series: String) -> (posts: Vec<Post>) {
        self.filed_under(&self.by_series, &Key::Series(series), Ghost(Kind::Series))
    }

    fn get_by_keyword(&self, keyword: String) -> (posts: Vec<Post>) {
        Vec::new()
    }

    fn get_by_year_month(&self, year: i32, month: Option<u32>) -> (posts: Vec<Post>) {
        match month {
            Some(month) => self.filed_under(
                &self.by_date,
                &Key::Month(year, month),
                Ghost(Kind::Month),
            ),
            None => self.of_year(year),
        }
    }

    fn get_last_n_posts(&self, n: usize) -> (posts: Vec<Post>) {
        let keys = self.keys_by_date();
        let order = descending(&keys);
        let count = if n < order.len() {
            n
        } else {
            order.len()
        };
        let ghost records = self.records();
        let mut posts: Vec<Post> = Vec::new();
        let mut k: usize = 0;
        while k < count
            invariant
                k <= count <= order.len(),
                order.len() == self.posts.len(),
                records == self.records(),
                as_ints(order@) == descending_order(date_keys(records)),
                forall|a: int| 0 <= a < order.len() ==> order[a] < self.posts.len(),
                posts.len() == k,
                forall|a: int| 0 <= a < k ==> (#[trigger] posts[a])@ == newest_first(records)[a],
            decreases count - k,
        {
            assert(as_ints(order@)[k as int] == order[k as int]);
            posts.push(self.posts[order[k]].clone());
            k += 1;
        }
        proof {
            assert(post_views(posts@) =~= latest(records, n as nat));
        }
        posts
    }

    fn get_all_tags_with_count(&self) -> (counts: Vec<(String, usize)>) {
        let ghost records = self.records();
        let ghost keys = keys_in_order(records, Kind::Tag);
        let mut counts: Vec<(String, usize)> = Vec::new();
        let mut b: usize = 0;
        proof {
            lemma_keys_in_order(records, Kind::Tag);
        }
        while b < self.by_tag.len()
            invariant
                b <= self.by_tag.len(),
                records == self.records(),
                keys == keys_in_order(records, Kind::Tag),
                table_ok(self.by_tag@, records, Kind::Tag),
                forall|i: int| 0 <= i < keys.len() ==> is_key(#[trigger] keys[i], Kind::Tag),
                counts.len() == b,
                forall|a: int|
                    0 <= a < b ==> (#[trigger] counts[a]).0@ == keys[a]->Tag_0 && counts[a].1
                        == selected(records, keys[a]).len(),
            decreases self.by_tag.len() - b,
        {
            let bucket = &self.by_tag[b];
            proof {
                assert(table_keys(self.by_tag@)[b as int] == bucket.key@);
                lemma_selected_at_positions(records, bucket.key@);
                assert(as_ints(bucket.members@).len() == bucket.members.len());
            }
            match &bucket.key {
                Key::Tag(tag) => {
                    counts.push((tag.clone(), bucket.members.len()));
                },
                _ => {
                    assert(false);
                },
            }
            b += 1;
        }
        proof {
            assert(table_keys(self.by_tag@).len() == self.by_tag.len());
            assert(tag_count_views(counts@) =~= tag_counts(records));
        }
        counts
    }

    fn get_all_dates_with_count(&self) -> (counts: Vec<((i32, u32), usize)>) {
        let ghost records = self.records();
        let ghost keys = keys_in_order(records, Kind::Month);
        let mut counts: Vec<((i32, u32), usize)> = Vec::new();
        let mut b: usize = 0;
        proof {
            lemma_keys_in_order(records, Kind::Month);
        }
        while b < self.by_date.len()
            invariant
                b <= self.by_date.len(),
                records == self.records(),
                keys == keys_in_order(records, Kind::Month),
                table_ok(self.by_date@, records, Kind::Month),
                forall|i: int| 0 <= i < keys.len() ==> is_key(#[trigger] keys[i], Kind::Month),
                counts.len() == b,
                forall|a: int|
                    0 <= a < b ==> (#[trigger] counts[a]).0 == (keys[a]->Month_0, keys[a]->Month_1)
                        && counts[a].1 == selected(records, keys[a]).len(),
            decreases self.by_date.len() - b,
        {
            let bucket = &self.by_date[b];
            proof {
                assert(table_keys(self.by_date@)[b as int] == bucket.key@);
                lemma_selected_at_positions(records, bucket.key@);
                assert(as_ints(bucket.members@).len() == bucket.members.len());
            }
            match &bucket.key {
                Key::Month(year, month) => {
                    counts.push(((*year, *month), bucket.members.len()));
                },
                _ => {
                    assert(false);
                },
            }
            b += 1;
        }
        proof {
            assert(table_keys(self.by_date@).len() == self.by_date.len());
            assert(date_count_views(counts@) =~= date_counts(records));
        }
        counts
    }

    fn insert_parsed_to_database(&mut self, post: Post) -> (result: Result<(), ApplicationError>) {
        let ghost records = self.records();
        if self.has_slug(&post.markdown.slug) {
            return Ok(());
        }
        let at = self.posts.len();
        self.by_slug.add(post.markdown.slug.as_str(), at, Ghost(slugs_of(records)));
        let tags = &post.markdown.tags;
        let mut t: usize = 0;
        let ghost tag_keys = keys_of(post@, Kind::Tag);
        assert(tag_keys.take(0) =~= Seq::<Query>::empty());
        while t < tags.len()
            invariant
                t <= tags.len(),
                tags == &post.markdown.tags,
                tag_keys == keys_of(post@, Kind::Tag),
                at == records.len(),
                records == self.records(),
                self.posts == old(self).posts,
                self.by_series == old(self).by_series,
                self.by_date == old(self).by_date,
                self.by_slug.lists(slugs_of(records).push(post@.markdown.slug)),
                table_filing(self.by_tag@, records, Kind::Tag, tag_keys.take(t as int)),
            decreases tags.len() - t,
        {
            assert(tag_keys.take(t + 1) =~= tag_keys.take(t as int).push(
                Query::Tag(tags[t as int]@),
            ));
            add_member(
                &mut self.by_tag,
                Key::Tag(tags[t].clone()),
                at,
                Ghost(records),
                Ghost(Kind::Tag),
                Ghost(tag_keys.take(t as int)),
            );
            t += 1;
        }
        assert(tag_keys.take(t as int) =~= tag_keys);
        let ghost series_keys = keys_of(post@, Kind::Series);
        match &post.markdown.series {
            Some(series) => {
                add_member(
                    &mut self.by_series,
                    Key::Series(series.title.clone()),
                    at,
                    Ghost(records),
                    Ghost(Kind::Series),
                    Ghost(Seq::empty()),
                );
                assert(series_keys =~= Seq::<Query>::empty().push(Query::Series(series.title@)));
            },
            None => {},
        }
        add_member(
            &mut self.by_date,
            Key::Month(post.markdown.date.year, post.markdown.date.month),
            at,
            Ghost(records),
            Ghost(Kind::Month),
            Ghost(Seq::empty()),
        );
        proof {
            assert(keys_of(post@, Kind::Month) =~= Seq::<Query>::empty().push(
                Query::Month(post.markdown.date.year, post.markdown.date.month),
            ));
            lemma_filed(self.by_tag@, records, Kind::Tag, post@);
            lemma_filed(self.by_series@, records, Kind::Series, post@);
            lemma_filed(self.by_date@, records, Kind::Month, post@);
        }
        self.posts.push(post);
        proof {
            assert(self.records() =~= records.push(post@));
            assert(slugs_of(self.records()) =~= slugs_of(records).push(post@.markdown.slug));
        }
        Ok(())
    }
}

impl InMemDatabase {
    /// The position of the post with the slug, if there is one.
    fn position_of(&self, slug: &String) -> (found: Option<usize>)
        requires
            self.well_formed(),
        ensures
            found matches Some(at) ==> at < self.records().len()
                && self.records()[at as int].markdown.slug == slug@,
            found is None ==> !holds_slug(self.records(), slug@),
    {
        let ghost records = self.records();
        let ghost slugs = slugs_of(records);
        match self.by_slug.candidates(slug.as_str(), Ghost(slugs)) {
            Some(positions) => {
                let mut k: usize = 0;
                while k < positions.len()
                    invariant
                        k <= positions.len(),
                        records == self.records(),
                        slugs == slugs_of(records),
                        forall|a: int|
                            0 <= a < positions@.len() ==> (#[trigger] positions@[a]) < slugs.len(),
                        forall|a: int|
                            0 <= a < k ==> records[(#[trigger] positions@[a]) as int].markdown.slug
                                != slug@,
                    decreases positions.len() - k,
                {
                    let at = positions[k];
                    if self.posts[at].markdown.slug == *slug {
                        return Some(at);
                    }
                    k += 1;
                }
                proof {
                    if holds_slug(records, slug@) {
                        let i = choose|i: int|
                            0 <= i < records.len() && (#[trigger] records[i]).markdown.slug
                                == slug@;
                        assert(slugs[i] == slug@);
                        assert(holds(positions@, i));
                    }
                }
                None
            },
            None => {
                proof {
                    if holds_slug(records, slug@) {
                        let i = choose|i: int|
                            0 <= i < records.len() && (#[trigger] records[i]).markdown.slug
                                == slug@;
                        assert(slugs[i] == slug@);
                    }
                }
                None
            },
        }
    }

    /// Whether the store holds a post with the slug.
    pub fn has_slug(&self, slug: &String) -> (yes: bool)
        requires
            self.well_formed(),
        ensures
            yes == holds_slug(self.records(), slug@),
    {
        self.position_of(slug).is_some()
    }

    /// The posts at the positions that a table holds for a key.
    fn filed_under(&self, table: &Vec<Bucket>, key: &Key, Ghost(kind): Ghost<Kind>) -> (posts: Vec<
        Post,
    >)
        requires
            table_ok(table@, self.records(), kind),
            is_key(key@, kind),
        ensures
            post_views(posts@) == selected(self.records(), key@),
    {
        let ghost records = self.records();
        let mut posts: Vec<Post> = Vec::new();
        proof {
            lemma_keys_in_order(records, kind);
            lemma_positions(records, key@);
            lemma_selected_at_positions(records, key@);
        }
        match find_key(table, key) {
            Some(b) => {
                let members = &table[b].members;
                let mut k: usize = 0;
                while k < members.len()
                    invariant
                        k <= members.len(),
                        records == self.records(),
                        as_ints(members@) == positions(records, key@),
                        forall|a: int|
                            0 <= a < positions(records, key@).len() ==> 0 <= #[trigger] positions(
                                records,
                                key@,
                            )[a] < records.len(),
                        posts.len() == k,
                        forall|a: int|
                            0 <= a < k ==> (#[trigger] posts[a])@ == records[positions(
                                records,
                                key@,
                            )[a]],
                    decreases members.len() - k,
                {
                    assert(as_ints(members@)[k as int] == members[k as int]);
                    posts.push(self.posts[members[k]].clone());
                    k += 1;
                }
                assert(as_ints(members@).len() == members.len());
                assert(post_views(posts@) =~= selected(records, key@));
            },
            None => {
                assert(positions(records, key@).len() == 0) by {
                    if positions(records, key@).len() > 0 {
                        assert(answers(records[positions(records, key@)[0]], key@));
                    }
                }
                assert(post_views(posts@) =~= selected(records, key@));
            },
        }
        posts
    }

    /// The posts of a year, in the order of the store.
    fn of_year(&self, year: i32) -> (posts: Vec<Post>)
        ensures
            post_views(posts@) == selected(self.records(), Query::Year(year)),
    {
        let ghost records = self.records();
        let ghost query = Query::Year(year);
        let mut posts: Vec<Post> = Vec::new();
        let mut at: usize = 0;
        proof {
            reveal(Seq::filter);
            assert(records.take(0) =~= Seq::<PostView>::empty());
            assert(post_views(posts@) =~= selected(records.take(0), query));
        }
        while at < self.posts.len()
            invariant
                at <= self.posts.len(),
                records == self.records(),
                query == Query::Year(year),
                post_views(posts@) == selected(records.take(at as int), query),
            decreases self.posts.len() - at,
        {
            proof {
                reveal(Seq::filter);
                assert(records.take(at + 1).drop_last() =~= records.take(at as int));
            }
            if self.posts[at].markdown.date.year == year {
                posts.push(self.posts[at].clone());
                assert(post_views(posts@) =~= selected(records.take(at + 1), query));
            }
            at += 1;
        }
        assert(records.take(at as int) =~= records);
        posts
    }

    /// The date keys of the posts.
    fn keys_by_date(&self) -> (keys: Vec<i128>)
        ensures
            key_ints(keys@) == date_keys(self.records()),
    {
        let mut keys: Vec<i128> = Vec::new();
        let mut at: usize = 0;
        while at < self.posts.len()
            invariant
                at <= self.posts.len(),
                keys.len() == at,
                forall|a: int| 0 <= a < at ==> keys[a] == date_key(self.records()[a].markdown.date),
            decreases self.posts.len() - at,
        {
            let date = self.posts[at].markdown.date;
            keys.push(
                date.year as i128 * 0x1_0000_0000_0000_0000 + date.month as i128 * 0x1_0000_0000
                    + date.day as i128,
            );
            at += 1;
        }
        assert(key_ints(keys@) =~= date_keys(self.records()));
        keys
    }
}

} // verus!
