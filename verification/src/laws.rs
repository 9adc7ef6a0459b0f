//! What holds of the store and of the parser, for all records and all
//! documents.

use crate::data::{body_of, has_front_matter, parsed, Date, FrontMatterView, PostView};
use crate::db::{
    date_key, date_keys, found, holds_slug, inserted, latest, newest_first, slug_position,
    tag_counts, unique_slugs,
};
use crate::error::ApplicationErrorView;
use crate::index::{
    answers, keys_in_order, lemma_keys_in_order, lemma_positions, lemma_positions_push,
    lemma_selected_at_positions, positions, selected, Kind, Query,
};
use crate::order::{descending_order, lemma_descending_order, precedes};
use crate::transform::display_content;
use vstd::prelude::*;

verus! {

proof fn lemma_slug_position(records: Seq<PostView>, slug: Seq<char>, from: int)
    requires
        0 <= from <= records.len(),
    ensures
        from <= slug_position(records, slug, from) <= records.len(),
        slug_position(records, slug, from) < records.len() ==> records[slug_position(
            records,
            slug,
            from,
        )].markdown.slug == slug,
        forall|i: int|
            from <= i < slug_position(records, slug, from) ==> (#[trigger] records[i]).markdown.slug
                != slug,
    decreases records.len() - from,
{
    if from < records.len() && records[from].markdown.slug != slug {
        lemma_slug_position(records, slug, from + 1);
    }
}

/// A lookup succeeds exactly for the slugs that the store holds.
pub proof fn law_found_iff_held(records: Seq<PostView>, slug: Seq<char>)
    ensures
        found(records, slug) is Ok <==> holds_slug(records, slug),
        found(records, slug) matches Ok(post) ==> post.markdown.slug == slug && records.contains(
            post,
        ),
{
    lemma_slug_position(records, slug, 0);
    let at = slug_position(records, slug, 0);
    if holds_slug(records, slug) {
        let i = choose|i: int|
            0 <= i < records.len() && (#[trigger] records[i]).markdown.slug == slug;
        assert(at <= i);
    }
    if at < records.len() {
        assert(records[at].markdown.slug == slug);
    }
}

/// Where no two records share a slug, every record is found under its
/// slug.
pub proof fn law_each_record_found(records: Seq<PostView>, at: int)
    requires
        unique_slugs(records),
        0 <= at < records.len(),
    ensures
        found(records, records[at].markdown.slug) == Ok::<PostView, ApplicationErrorView>(
            records[at],
        ),
{
    lemma_slug_position(records, records[at].markdown.slug, 0);
}

/// A post that is handed in under a slug that the store does not hold yet
/// is found under its slug afterwards, exactly as it was handed in.
pub proof fn law_inserted_is_found(records: Seq<PostView>, post: PostView)
    requires
        !holds_slug(records, post.markdown.slug),
    ensures
        found(inserted(records, post), post.markdown.slug) == Ok::<
            PostView,
            ApplicationErrorView,
        >(post),
{
    let after = inserted(records, post);
    lemma_slug_position(after, post.markdown.slug, 0);
    let at = slug_position(after, post.markdown.slug, 0);
    if at < records.len() {
        assert(records[at].markdown.slug == post.markdown.slug);
    }
    assert(after[records.len() as int] == post);
}

/// Handing in a post changes no lookup but that of its own slug, and
/// among unique slugs the slugs stay unique. A post whose slug the store
/// holds already changes nothing: the first post under a slug stays.
pub proof fn law_insert_keeps(records: Seq<PostView>, post: PostView, slug: Seq<char>)
    ensures
        unique_slugs(records) ==> unique_slugs(inserted(records, post)),
        holds_slug(records, post.markdown.slug) ==> inserted(records, post) == records,
        slug != post.markdown.slug ==> found(inserted(records, post), slug) == found(records, slug),
        holds_slug(records, slug) ==> found(inserted(records, post), slug) == found(records, slug),
{
    let after = inserted(records, post);
    lemma_slug_position(after, slug, 0);
    lemma_slug_position(records, slug, 0);
    let before_at = slug_position(records, slug, 0);
    let after_at = slug_position(after, slug, 0);
    if !holds_slug(records, post.markdown.slug) {
        assert forall|i: int| 0 <= i < records.len() implies (#[trigger] records[i]).markdown.slug
            != post.markdown.slug by {}
        assert forall|i: int| 0 <= i < records.len() implies #[trigger] after[i] == records[i] by {}
        if before_at < records.len() {
            assert(after[before_at].markdown.slug == slug);
            assert(after_at <= before_at);
            if after_at < before_at {
                assert(records[after_at].markdown.slug != slug);
            }
        } else {
            if after_at < records.len() {
                assert(records[after_at].markdown.slug == slug);
            }
        }
        if holds_slug(records, slug) {
            let i = choose|i: int|
                0 <= i < records.len() && (#[trigger] records[i]).markdown.slug == slug;
            assert(before_at <= i);
        }
    }
}

/// Handing in the same post again changes nothing.
pub proof fn law_insert_twice(records: Seq<PostView>, post: PostView)
    ensures
        inserted(inserted(records, post), post) == inserted(records, post),
{
    let after = inserted(records, post);
    if !holds_slug(records, post.markdown.slug) {
        assert(after[records.len() as int].markdown.slug == post.markdown.slug);
    }
}

/// The answer to a query holds the records that answer to it, all of
/// them, in the order of the store; and where no two records share a
/// slug, it holds no slug twice.
pub proof fn law_selected(records: Seq<PostView>, query: Query)
    ensures
        forall|k: int|
            0 <= k < selected(records, query).len() ==> answers(
                #[trigger] selected(records, query)[k],
                query,
            ) && records.contains(selected(records, query)[k]),
        forall|i: int|
            0 <= i < records.len() && answers(#[trigger] records[i], query) ==> selected(
                records,
                query,
            ).contains(records[i]),
        unique_slugs(records) ==> unique_slugs(selected(records, query)),
{
    lemma_positions(records, query);
    lemma_selected_at_positions(records, query);
    let chosen = selected(records, query);
    let at = positions(records, query);
    assert forall|k: int| 0 <= k < chosen.len() implies answers(#[trigger] chosen[k], query)
        && records.contains(chosen[k]) by {
        assert(chosen[k] == records[at[k]]);
    }
    assert forall|i: int|
        0 <= i < records.len() && answers(#[trigger] records[i], query) implies chosen.contains(
        records[i],
    ) by {
        let k = choose|k: int| 0 <= k < at.len() && at[k] == i;
        assert(chosen[k] == records[i]);
    }
    if unique_slugs(records) {
        assert forall|a: int, b: int| 0 <= a < b < chosen.len() implies (
        #[trigger] chosen[a]).markdown.slug != (#[trigger] chosen[b]).markdown.slug by {
            assert(chosen[a] == records[at[a]]);
            assert(chosen[b] == records[at[b]]);
            assert(at[a] < at[b]);
        }
    }
}

/// The sum of the counts of a list of tags with their counts.
pub open spec fn total(counts: Seq<(Seq<char>, nat)>) -> nat
    decreases counts.len(),
{
    if counts.len() == 0 {
        0
    } else {
        total(counts.drop_last()) + counts.last().1
    }
}

/// The list of tags with their counts names each tag that a record
/// carries once, and with it the number of records that carry it.
pub proof fn law_tag_counts(records: Seq<PostView>)
    ensures
        forall|a: int, b: int|
            0 <= a < b < tag_counts(records).len() ==> (#[trigger] tag_counts(records)[a]).0 != (
            #[trigger] tag_counts(records)[b]).0,
        forall|k: int|
            0 <= k < tag_counts(records).len() ==> (#[trigger] tag_counts(records)[k]).1
                == selected(records, Query::Tag(tag_counts(records)[k].0)).len() && tag_counts(
                records,
            )[k].1 > 0,
        forall|i: int, tag: Seq<char>|
            0 <= i < records.len() && #[trigger] records[i].markdown.tags.contains(tag)
                ==> exists|k: int|
                0 <= k < tag_counts(records).len() && (#[trigger] tag_counts(records)[k]).0 == tag,
{
    lemma_keys_in_order(records, Kind::Tag);
    let keys = keys_in_order(records, Kind::Tag);
    let counts = tag_counts(records);
    assert forall|a: int, b: int| 0 <= a < b < counts.len() implies (#[trigger] counts[a]).0 != (
    #[trigger] counts[b]).0 by {
        assert(keys[a] != keys[b]);
        assert(keys[a] is Tag && keys[b] is Tag);
    }
    assert forall|k: int| 0 <= k < counts.len() implies (#[trigger] counts[k]).1 == selected(
        records,
        Query::Tag(counts[k].0),
    ).len() && counts[k].1 > 0 by {
        let key = keys[k];
        assert(key is Tag);
        assert(key == Query::Tag(counts[k].0));
        assert(keys.contains(key));
        let i = choose|i: int| 0 <= i < records.len() && answers(#[trigger] records[i], key);
        law_selected(records, key);
        assert(selected(records, key).contains(records[i]));
    }
    assert forall|i: int, tag: Seq<char>|
        0 <= i < records.len() && #[trigger] records[i].markdown.tags.contains(
            tag,
        ) implies exists|k: int| 0 <= k < counts.len() && (#[trigger] counts[k]).0 == tag by {
        let key = Query::Tag(tag);
        assert(answers(records[i], key));
        assert(keys.contains(key));
        let k = choose|k: int| 0 <= k < keys.len() && keys[k] == key;
        assert(counts[k].0 == tag);
    }
}

/// The number of records that answer to the keys of a list, summed over
/// the list.
spec fn answer_total(records: Seq<PostView>, keys: Seq<Query>) -> nat
    decreases keys.len(),
{
    if keys.len() == 0 {
        0
    } else {
        answer_total(records, keys.drop_last()) + selected(records, keys.last()).len()
    }
}

proof fn lemma_selected_push(records: Seq<PostView>, post: PostView, query: Query)
    ensures
        selected(records.push(post), query).len() == selected(records, query).len() + if answers(
            post,
            query,
        ) {
            1nat
        } else {
            0nat
        },
{
    lemma_selected_at_positions(records, query);
    lemma_selected_at_positions(records.push(post), query);
    lemma_positions_push(records, post, query);
}

/// The number of the keys of a list to which a record answers.
pub open spec fn match_count(post: PostView, keys: Seq<Query>) -> nat
    decreases keys.len(),
{
    if keys.len() == 0 {
        0
    } else {
        match_count(post, keys.drop_last()) + if answers(post, keys.last()) {
            1nat
        } else {
            0nat
        }
    }
}

/// The record carries one tag only, be it once or several times.
pub open spec fn single_tag(post: PostView) -> bool {
    &&& post.markdown.tags.len() > 0
    &&& forall|j: int|
        0 <= j < post.markdown.tags.len() ==> #[trigger] post.markdown.tags[j]
            == post.markdown.tags[0]
}

/// One more record adds to the sum one for each key to which it answers.
proof fn lemma_answer_total_push(records: Seq<PostView>, post: PostView, keys: Seq<Query>)
    ensures
        answer_total(records.push(post), keys) == answer_total(records, keys) + match_count(
            post,
            keys,
        ),
    decreases keys.len(),
{
    if keys.len() > 0 {
        lemma_answer_total_push(records, post, keys.drop_last());
        lemma_selected_push(records, post, keys.last());
    }
}

/// No record answers where there is none.
proof fn lemma_answer_total_empty(keys: Seq<Query>)
    ensures
        answer_total(Seq::empty(), keys) == 0,
    decreases keys.len(),
{
    if keys.len() > 0 {
        lemma_answer_total_empty(keys.drop_last());
        lemma_selected_at_positions(Seq::empty(), keys.last());
    }
}

/// How many keys a record answers to: at least one where it answers to
/// one, at least two where it answers to two, and at most one where no two
/// keys to which it answers differ in their place.
proof fn lemma_match_count(post: PostView, keys: Seq<Query>)
    ensures
        (exists|a: int| 0 <= a < keys.len() && answers(post, #[trigger] keys[a])) ==> match_count(
            post,
            keys,
        ) >= 1,
        (exists|a: int, b: int|
            0 <= a < b < keys.len() && answers(post, #[trigger] keys[a]) && answers(
                post,
                #[trigger] keys[b],
            )) ==> match_count(post, keys) >= 2,
        (forall|a: int, b: int|
            0 <= a < b < keys.len() && answers(post, #[trigger] keys[a]) ==> !answers(
                post,
                #[trigger] keys[b],
            )) ==> match_count(post, keys) <= 1,
    decreases keys.len(),
{
    if keys.len() > 0 {
        let fewer = keys.drop_last();
        let last = keys.len() - 1;
        lemma_match_count(post, fewer);
        if exists|a: int| 0 <= a < keys.len() && answers(post, #[trigger] keys[a]) {
            let a = choose|a: int| 0 <= a < keys.len() && answers(post, #[trigger] keys[a]);
            if a < last {
                assert(answers(post, fewer[a]));
            }
        }
        if exists|a: int, b: int|
            0 <= a < b < keys.len() && answers(post, #[trigger] keys[a]) && answers(
                post,
                #[trigger] keys[b],
            ) {
            let (a, b) = choose|a: int, b: int|
                0 <= a < b < keys.len() && answers(post, #[trigger] keys[a]) && answers(
                    post,
                    #[trigger] keys[b],
                );
            assert(answers(post, fewer[a]));
            if b < last {
                assert(answers(post, fewer[b]));
            }
        }
        if forall|a: int, b: int|
            0 <= a < b < keys.len() && answers(post, #[trigger] keys[a]) ==> !answers(
                post,
                #[trigger] keys[b],
            ) {
            assert forall|a: int, b: int|
                0 <= a < b < fewer.len() && answers(post, #[trigger] fewer[a]) implies !answers(
                post,
                #[trigger] fewer[b],
            ) by {
                assert(fewer[a] == keys[a] && fewer[b] == keys[b]);
            }
            if answers(post, keys[last]) && match_count(post, fewer) >= 1 {
                // Some earlier key is answered too, which the assumption rules out.
                lemma_match_count_witness(post, fewer);
                let a = choose|a: int| 0 <= a < fewer.len() && answers(post, #[trigger] fewer[a]);
                assert(answers(post, keys[a]));
                assert(!answers(post, keys[last]));
            }
        }
    }
}

/// A record that answers to keys answers to one of them.
proof fn lemma_match_count_witness(post: PostView, keys: Seq<Query>)
    requires
        match_count(post, keys) >= 1,
    ensures
        exists|a: int| 0 <= a < keys.len() && answers(post, #[trigger] keys[a]),
    decreases keys.len(),
{
    if keys.len() > 0 {
        let last = keys.len() - 1;
        if answers(post, keys.last()) {
            assert(answers(post, keys[last]));
        } else {
            lemma_match_count_witness(post, keys.drop_last());
            let a = choose|a: int|
                0 <= a < keys.len() - 1 && answers(post, #[trigger] keys.drop_last()[a]);
            assert(answers(post, keys[a]));
        }
    }
}

/// Among tags that are each listed once and hold every tag of a record
/// with tags, the record answers to at least one, and to one only exactly
/// where it carries a single tag.
proof fn lemma_match_count_of_tags(post: PostView, keys: Seq<Query>)
    requires
        keys.no_duplicates(),
        forall|k: int| 0 <= k < keys.len() ==> (#[trigger] keys[k]) is Tag,
        post.markdown.tags.len() > 0,
        forall|j: int|
            0 <= j < post.markdown.tags.len() ==> keys.contains(
                Query::Tag(#[trigger] post.markdown.tags[j]),
            ),
    ensures
        match_count(post, keys) >= 1,
        match_count(post, keys) == 1 <==> single_tag(post),
{
    let tags = post.markdown.tags;
    lemma_match_count(post, keys);
    let first = Query::Tag(tags[0]);
    assert(keys.contains(first));
    let at = choose|at: int| 0 <= at < keys.len() && keys[at] == first;
    assert(tags.contains(tags[0]));
    assert(answers(post, keys[at]));
    if single_tag(post) {
        assert forall|a: int, b: int|
            0 <= a < b < keys.len() && answers(post, #[trigger] keys[a]) implies !answers(
            post,
            #[trigger] keys[b],
        ) by {
            if answers(post, keys[b]) {
                let one = keys[a]->Tag_0;
                let other = keys[b]->Tag_0;
                let j = choose|j: int| 0 <= j < tags.len() && tags[j] == one;
                let l = choose|l: int| 0 <= l < tags.len() && tags[l] == other;
                assert(tags[j] == tags[0] && tags[l] == tags[0]);
                assert(keys[a] == keys[b]);
            }
        }
    } else {
        let j = choose|j: int| 0 <= j < tags.len() && #[trigger] tags[j] != tags[0];
        let other = Query::Tag(tags[j]);
        assert(keys.contains(other));
        let there = choose|there: int| 0 <= there < keys.len() && keys[there] == other;
        assert(tags.contains(tags[j]));
        assert(answers(post, keys[there]));
        assert(at != there);
        if at < there {
            assert(answers(post, keys[at]) && answers(post, keys[there]));
        } else {
            assert(answers(post, keys[there]) && answers(post, keys[at]));
        }
    }
}

/// The sum over some records of the number of keys to which each answers.
spec fn match_total(records: Seq<PostView>, keys: Seq<Query>) -> nat
    decreases records.len(),
{
    if records.len() == 0 {
        0
    } else {
        match_total(records.drop_last(), keys) + match_count(records.last(), keys)
    }
}

/// The counts of the keys add up to what the records answer to.
proof fn lemma_answer_is_match_total(records: Seq<PostView>, keys: Seq<Query>)
    ensures
        answer_total(records, keys) == match_total(records, keys),
    decreases records.len(),
{
    if records.len() == 0 {
        assert(records =~= Seq::<PostView>::empty());
        lemma_answer_total_empty(keys);
    } else {
        lemma_answer_is_match_total(records.drop_last(), keys);
        lemma_answer_total_push(records.drop_last(), records.last(), keys);
        assert(records.drop_last().push(records.last()) =~= records);
    }
}

/// Where the keys are tags, each listed once, and hold every tag of some
/// records that each carry a tag, those records answer to as many keys as
/// they are or to more, and to exactly as many where each carries a
/// single tag.
proof fn lemma_match_total_of_tags(records: Seq<PostView>, keys: Seq<Query>)
    requires
        keys.no_duplicates(),
        forall|k: int| 0 <= k < keys.len() ==> (#[trigger] keys[k]) is Tag,
        forall|i: int| 0 <= i < records.len() ==> (#[trigger] records[i]).markdown.tags.len() > 0,
        forall|i: int, j: int|
            0 <= i < records.len() && 0 <= j < records[i].markdown.tags.len() ==> keys.contains(
                Query::Tag(#[trigger] records[i].markdown.tags[j]),
            ),
    ensures
        match_total(records, keys) >= records.len(),
        match_total(records, keys) == records.len() <==> forall|i: int|
            0 <= i < records.len() ==> single_tag(#[trigger] records[i]),
    decreases records.len(),
{
    if records.len() > 0 {
        let fewer = records.drop_last();
        let post = records.last();
        assert(post == records[records.len() - 1]);
        assert forall|i: int| 0 <= i < fewer.len() implies (
        #[trigger] fewer[i]).markdown.tags.len() > 0 by {
            assert(fewer[i] == records[i]);
        }
        assert forall|i: int, j: int|
            0 <= i < fewer.len() && 0 <= j < fewer[i].markdown.tags.len() implies keys.contains(
            Query::Tag(#[trigger] fewer[i].markdown.tags[j]),
        ) by {
            assert(fewer[i] == records[i]);
        }
        lemma_match_total_of_tags(fewer, keys);
        lemma_match_count_of_tags(post, keys);
        if forall|i: int| 0 <= i < records.len() ==> single_tag(#[trigger] records[i]) {
            assert forall|i: int| 0 <= i < fewer.len() implies single_tag(#[trigger] fewer[i]) by {
                assert(fewer[i] == records[i]);
            }
        }
        if match_total(records, keys) == records.len() {
            assert forall|i: int| 0 <= i < records.len() implies single_tag(
                #[trigger] records[i],
            ) by {
                if i < fewer.len() {
                    assert(fewer[i] == records[i]);
                }
            }
        }
    }
}

proof fn lemma_total_is_answer_total(records: Seq<PostView>, keys: Seq<Query>)
    ensures
        total(keys.map_values(|key: Query| (key->Tag_0, selected(records, key).len())))
            == answer_total(records, keys),
    decreases keys.len(),
{
    let counts = keys.map_values(|key: Query| (key->Tag_0, selected(records, key).len()));
    if keys.len() > 0 {
        lemma_total_is_answer_total(records, keys.drop_last());
        assert(counts.drop_last() =~= keys.drop_last().map_values(
            |key: Query| (key->Tag_0, selected(records, key).len()),
        ));
    }
}

/// Where every record carries a tag, the counts of all tags add up to the
/// number of records or to more, and to exactly that number exactly where
/// every record carries a single tag.
pub proof fn law_tag_counts_cover(records: Seq<PostView>)
    requires
        forall|i: int| 0 <= i < records.len() ==> (#[trigger] records[i]).markdown.tags.len() > 0,
    ensures
        total(tag_counts(records)) >= records.len(),
        total(tag_counts(records)) == records.len() <==> forall|i: int|
            0 <= i < records.len() ==> single_tag(#[trigger] records[i]),
{
    let keys = keys_in_order(records, Kind::Tag);
    lemma_keys_in_order(records, Kind::Tag);
    assert forall|i: int, j: int|
        0 <= i < records.len() && 0 <= j < records[i].markdown.tags.len() implies keys.contains(
        Query::Tag(#[trigger] records[i].markdown.tags[j]),
    ) by {
        let tag = records[i].markdown.tags[j];
        assert(records[i].markdown.tags.contains(tag));
        assert(answers(records[i], Query::Tag(tag)));
    }
    lemma_match_total_of_tags(records, keys);
    lemma_answer_is_match_total(records, keys);
    lemma_total_is_answer_total(records, keys);
}

/// The date `a` is not before the date `b`.
pub open spec fn not_before(a: Date, b: Date) -> bool {
    a.year > b.year || (a.year == b.year && (a.month > b.month || (a.month == b.month && a.day
        >= b.day)))
}

/// The date key orders dates as the calendar does.
pub proof fn law_date_key(a: Date, b: Date)
    ensures
        date_key(a) >= date_key(b) <==> not_before(a, b),
        date_key(a) == date_key(b) <==> a == b,
{
}

/// The records from the newest to the oldest are the records of the
/// store, each once, and no record in the list is followed by one of a
/// later date.
pub proof fn law_newest_first(records: Seq<PostView>)
    ensures
        newest_first(records).len() == records.len(),
        forall|a: int, b: int|
            0 <= a < b < records.len() ==> not_before(
                (#[trigger] newest_first(records)[a]).markdown.date,
                (#[trigger] newest_first(records)[b]).markdown.date,
            ),
        forall|i: int|
            0 <= i < records.len() ==> newest_first(records).contains(#[trigger] records[i]),
        forall|k: int|
            0 <= k < records.len() ==> records.contains(#[trigger] newest_first(records)[k]),
        unique_slugs(records) ==> unique_slugs(newest_first(records)),
{
    let keys = date_keys(records);
    let order = descending_order(keys);
    lemma_descending_order(keys);
    assert forall|a: int, b: int| 0 <= a < b < records.len() implies not_before(
        (#[trigger] newest_first(records)[a]).markdown.date,
        (#[trigger] newest_first(records)[b]).markdown.date,
    ) by {
        assert(precedes(keys, order[a], order[b]));
        law_date_key(records[order[a]].markdown.date, records[order[b]].markdown.date);
    }
    assert forall|i: int| 0 <= i < records.len() implies newest_first(records).contains(
        #[trigger] records[i],
    ) by {
        assert(order.contains(i));
        let k = choose|k: int| 0 <= k < order.len() && order[k] == i;
        assert(newest_first(records)[k] == records[i]);
    }
    assert forall|k: int| 0 <= k < records.len() implies records.contains(
        #[trigger] newest_first(records)[k],
    ) by {
        assert(newest_first(records)[k] == records[order[k]]);
    }
    if unique_slugs(records) {
        assert forall|a: int, b: int| 0 <= a < b < records.len() implies (
        #[trigger] newest_first(records)[a]).markdown.slug != (
        #[trigger] newest_first(records)[b]).markdown.slug by {
            assert(precedes(keys, order[a], order[b]));
            assert(order[a] != order[b]);
            if order[a] < order[b] {
                assert(records[order[a]].markdown.slug != records[order[b]].markdown.slug);
            } else {
                assert(records[order[b]].markdown.slug != records[order[a]].markdown.slug);
            }
        }
    }
}

/// The newest `n` records come newest first; none are returned for `n`
/// of 0, and all records for an `n` that is not below their number.
pub proof fn law_latest(records: Seq<PostView>, n: nat)
    ensures
        latest(records, n).len() == if n < records.len() {
            n
        } else {
            records.len()
        },
        forall|a: int, b: int|
            0 <= a < b < latest(records, n).len() ==> not_before(
                (#[trigger] latest(records, n)[a]).markdown.date,
                (#[trigger] latest(records, n)[b]).markdown.date,
            ),
        n == 0 ==> latest(records, n) == Seq::<PostView>::empty(),
        n >= records.len() ==> latest(records, n) == newest_first(records),
        forall|a: int, i: int|
            0 <= a < latest(records, n).len() <= i < records.len() ==> not_before(
                (#[trigger] latest(records, n)[a]).markdown.date,
                (#[trigger] newest_first(records)[i]).markdown.date,
            ),
{
    law_newest_first(records);
    if n == 0 {
        assert(latest(records, n) =~= Seq::<PostView>::empty());
    }
}

/// A document without a marker gives no post, and a post that a document
/// gives holds the display content of the body of the document.
pub proof fn law_parsed(path: Seq<char>, content: Seq<char>, front: FrontMatterView)
    ensures
        !has_front_matter(content) ==> parsed(path, content, front) is Err,
        parsed(path, content, front) matches Err(error) ==> error is ParsingError,
        parsed(path, content, front) matches Ok(post) ==> post.data == display_content(
            body_of(content),
        ),
{
}

} // verus!
