//! The secondary indexes of the store: for each key that a record was
//! filed under, the positions of the records that answer to it.

use crate::data::PostView;
use crate::order::as_ints;
use vstd::prelude::*;

verus! {

/// What records can be asked for: those that carry a tag, those of a
/// series, those of a month, those of a year.
pub enum Query {
    Tag(Seq<char>),
    Series(Seq<char>),
    Month(i32, u32),
    Year(i32),
}

/// The kinds of key under which a record is filed.
pub enum Kind {
    Tag,
    Series,
    Month,
}

/// Whether a record answers to a query.
pub open spec fn answers(post: PostView, query: Query) -> bool {
    match query {
        Query::Tag(tag) => post.markdown.tags.contains(tag),
        Query::Series(title) => post.markdown.series matches Some(series) && series.title == title,
        Query::Month(year, month) => post.markdown.date.year == year && post.markdown.date.month
            == month,
        Query::Year(year) => post.markdown.date.year == year,
    }
}

/// The records that answer to a query, in the order of `records`.
pub open spec fn selected(records: Seq<PostView>, query: Query) -> Seq<PostView> {
    records.filter(|post: PostView| answers(post, query))
}

/// The positions of the records that answer to a query, ascending.
pub open spec fn positions(records: Seq<PostView>, query: Query) -> Seq<int>
    decreases records.len(),
{
    if records.len() == 0 {
        Seq::empty()
    } else {
        let before = positions(records.drop_last(), query);
        if answers(records.last(), query) {
            before.push(records.len() - 1)
        } else {
            before
        }
    }
}

/// Whether a query is a key of the given kind.
pub open spec fn is_key(query: Query, kind: Kind) -> bool {
    match kind {
        Kind::Tag => query is Tag,
        Kind::Series => query is Series,
        Kind::Month => query is Month,
    }
}

/// The keys of one kind under which a record is filed, in the order in
/// which the record holds them: each of its tags, the title of its series
/// if it has one, the year and month of its date.
pub open spec fn keys_of(post: PostView, kind: Kind) -> Seq<Query> {
    match kind {
        Kind::Tag => post.markdown.tags.map_values(|tag: Seq<char>| Query::Tag(tag)),
        Kind::Series => match post.markdown.series {
            Some(series) => seq![Query::Series(series.title)],
            None => Seq::empty(),
        },
        Kind::Month => seq![Query::Month(post.markdown.date.year, post.markdown.date.month)],
    }
}

/// `keys`, and behind them those of `more` that are new, each once and in
/// the order of `more`.
pub open spec fn add_keys(keys: Seq<Query>, more: Seq<Query>) -> Seq<Query>
    decreases more.len(),
{
    if more.len() == 0 {
        keys
    } else {
        let added = add_keys(keys, more.drop_last());
        if added.contains(more.last()) {
            added
        } else {
            added.push(more.last())
        }
    }
}

/// The keys of one kind under which the records are filed, each once, in
/// the order in which they first occur.
pub open spec fn keys_in_order(records: Seq<PostView>, kind: Kind) -> Seq<Query>
    decreases records.len(),
{
    if records.len() == 0 {
        Seq::empty()
    } else {
        add_keys(keys_in_order(records.drop_last(), kind), keys_of(records.last(), kind))
    }
}

/// A record answers to a key of some kind exactly where it is filed under
/// that key.
pub proof fn lemma_filed_under(post: PostView, kind: Kind, key: Query)
    requires
        is_key(key, kind),
    ensures
        keys_of(post, kind).contains(key) <==> answers(post, key),
{
    let keys = keys_of(post, kind);
    match kind {
        Kind::Tag => {
            let tags = post.markdown.tags;
            if answers(post, key) {
                let i = choose|i: int| 0 <= i < tags.len() && tags[i] == key->Tag_0;
                assert(keys[i] == key);
            }
            if keys.contains(key) {
                let i = choose|i: int| 0 <= i < keys.len() && keys[i] == key;
                assert(tags[i] == key->Tag_0);
            }
        },
        Kind::Series => {
            if answers(post, key) {
                assert(keys[0] == key);
            }
        },
        Kind::Month => {
            if answers(post, key) {
                assert(keys[0] == key);
            }
        },
    }
}

/// Every key of a record is of the kind that was asked for.
pub proof fn lemma_keys_of_kind(post: PostView, kind: Kind)
    ensures
        forall|i: int|
            0 <= i < keys_of(post, kind).len() ==> is_key(#[trigger] keys_of(post, kind)[i], kind),
{
}

/// What `add_keys` holds: the old keys and the new ones, nothing twice
/// that was not there twice before.
pub proof fn lemma_add_keys(keys: Seq<Query>, more: Seq<Query>)
    ensures
        forall|key: Query| #[trigger]
            add_keys(keys, more).contains(key) <==> keys.contains(key) || more.contains(key),
        keys.no_duplicates() ==> add_keys(keys, more).no_duplicates(),
        keys.len() <= add_keys(keys, more).len(),
        add_keys(keys, more).take(keys.len() as int) == keys,
    decreases more.len(),
{
    if more.len() == 0 {
        assert(add_keys(keys, more).take(keys.len() as int) =~= keys);
    } else {
        let fewer = more.drop_last();
        let added = add_keys(keys, fewer);
        lemma_add_keys(keys, fewer);
        let all = add_keys(keys, more);
        assert forall|key: Query| #[trigger]
            all.contains(key) <==> keys.contains(key) || more.contains(key) by {
            if more.contains(key) {
                let i = choose|i: int| 0 <= i < more.len() && more[i] == key;
                if i < more.len() - 1 {
                    assert(fewer[i] == key);
                }
            }
            if fewer.contains(key) {
                let i = choose|i: int| 0 <= i < fewer.len() && fewer[i] == key;
                assert(more[i] == key);
            }
            assert(more[more.len() - 1] == more.last());
            if !added.contains(more.last()) {
                assert(all == added.push(more.last()));
                if added.contains(key) {
                    let i = choose|i: int| 0 <= i < added.len() && added[i] == key;
                    assert(all[i] == key);
                }
                assert(all[added.len() as int] == more.last());
            }
        }
        assert(all.take(keys.len() as int) =~= added.take(keys.len() as int));
    }
}

/// What `keys_in_order` holds: each key once, every key of the kind, and
/// a key exactly where some record answers to it.
pub proof fn lemma_keys_in_order(records: Seq<PostView>, kind: Kind)
    ensures
        keys_in_order(records, kind).no_duplicates(),
        forall|i: int|
            0 <= i < keys_in_order(records, kind).len() ==> is_key(
                #[trigger] keys_in_order(records, kind)[i],
                kind,
            ),
        forall|key: Query|
            is_key(key, kind) ==> (#[trigger] keys_in_order(records, kind).contains(key) <==> exists|
                i: int,
            |
                0 <= i < records.len() && answers(#[trigger] records[i], key)),
    decreases records.len(),
{
    if records.len() > 0 {
        let fewer = records.drop_last();
        let last = records.last();
        lemma_keys_in_order(fewer, kind);
        lemma_add_keys(keys_in_order(fewer, kind), keys_of(last, kind));
        lemma_keys_of_kind(last, kind);
        let keys = keys_in_order(records, kind);
        assert forall|i: int| 0 <= i < keys.len() implies is_key(#[trigger] keys[i], kind) by {
            let key = keys[i];
            assert(keys.contains(key));
            if keys_in_order(fewer, kind).contains(key) {
            } else {
                assert(keys_of(last, kind).contains(key));
            }
        }
        assert forall|key: Query| is_key(key, kind) implies (#[trigger] keys.contains(key)
            <==> exists|i: int| 0 <= i < records.len() && answers(#[trigger] records[i], key)) by {
            lemma_filed_under(last, kind, key);
            if keys.contains(key) {
                if keys_in_order(fewer, kind).contains(key) {
                    let i = choose|i: int|
                        0 <= i < fewer.len() && answers(#[trigger] fewer[i], key);
                    assert(answers(records[i], key));
                } else {
                    assert(answers(records[records.len() - 1], key));
                }
            }
            if exists|i: int| 0 <= i < records.len() && answers(#[trigger] records[i], key) {
                let i = choose|i: int|
                    0 <= i < records.len() && answers(#[trigger] records[i], key);
                if i < records.len() - 1 {
                    assert(answers(fewer[i], key));
                }
            }
        }
    } else {
        assert forall|key: Query| is_key(key, kind) implies (#[trigger] keys_in_order(
            records,
            kind,
        ).contains(key) <==> exists|i: int|
            0 <= i < records.len() && answers(#[trigger] records[i], key)) by {}
    }
}

/// The positions of a query after one more record.
pub proof fn lemma_positions_push(records: Seq<PostView>, post: PostView, query: Query)
    ensures
        positions(records.push(post), query) == if answers(post, query) {
            positions(records, query).push(records.len() as int)
        } else {
            positions(records, query)
        },
{
    assert(records.push(post).drop_last() =~= records);
}

/// What `positions` holds: ascending positions of `records`, those and
/// only those of the records that answer to the query.
pub proof fn lemma_positions(records: Seq<PostView>, query: Query)
    ensures
        forall|k: int|
            0 <= k < positions(records, query).len() ==> 0 <= #[trigger] positions(
                records,
                query,
            )[k] < records.len() && answers(records[positions(records, query)[k]], query),
        forall|a: int, b: int|
            0 <= a < b < positions(records, query).len() ==> #[trigger] positions(records, query)[a]
                < #[trigger] positions(records, query)[b],
        forall|i: int|
            0 <= i < records.len() && answers(#[trigger] records[i], query) ==> positions(
                records,
                query,
            ).contains(i),
    decreases records.len(),
{
    if records.len() > 0 {
        let fewer = records.drop_last();
        lemma_positions(fewer, query);
        let before = positions(fewer, query);
        let all = positions(records, query);
        assert forall|i: int|
            0 <= i < records.len() && answers(#[trigger] records[i], query) implies all.contains(
            i,
        ) by {
            if i < records.len() - 1 {
                assert(answers(fewer[i], query));
                let k = choose|k: int| 0 <= k < before.len() && before[k] == i;
                assert(all[k] == i);
            } else {
                assert(all[all.len() - 1] == i);
            }
        }
    }
}

/// The records that answer to a query are those at its positions.
pub proof fn lemma_selected_at_positions(records: Seq<PostView>, query: Query)
    ensures
        selected(records, query).len() == positions(records, query).len(),
        forall|k: int|
            0 <= k < positions(records, query).len() ==> #[trigger] selected(records, query)[k]
                == records[positions(records, query)[k]],
    decreases records.len(),
{
    reveal(Seq::filter);
    if records.len() > 0 {
        let fewer = records.drop_last();
        lemma_selected_at_positions(fewer, query);
        lemma_positions(fewer, query);
    }
}

/// A key under which records are filed.
#[derive(Debug, PartialEq, Eq)]
pub enum Key {
    Tag(String),
    Series(String),
    Month(i32, u32),
}

impl View for Key {
    type V = Query;

    open spec fn view(&self) -> Query {
        match *self {
            Key::Tag(tag) => Query::Tag(tag@),
            Key::Series(title) => Query::Series(title@),
            Key::Month(year, month) => Query::Month(year, month),
        }
    }
}

impl Key {
    /// Whether two keys are the same.
    pub fn same(&self, other: &Key) -> (yes: bool)
        ensures
            yes == (self@ == other@),
    {
        match (self, other) {
            (Key::Tag(a), Key::Tag(b)) => *a == *b,
            (Key::Series(a), Key::Series(b)) => *a == *b,
            (Key::Month(year, month), Key::Month(other_year, other_month)) => *year == *other_year
                && *month == *other_month,
            _ => false,
        }
    }
}

/// One key of an index, with the positions of the records filed under it.
#[derive(Debug, PartialEq, Eq)]
pub struct Bucket {
    pub key: Key,
    pub members: Vec<usize>,
}

/// The keys of a table, in its order.
pub open spec fn table_keys(table: Seq<Bucket>) -> Seq<Query> {
    table.map_values(|bucket: Bucket| bucket.key@)
}

/// A table that is being brought up to date for one more record, which
/// will stand at position `records.len()`: it already files that record
/// under the keys in `done`, and is otherwise the index of `records` for
/// the keys of one kind.
pub open spec fn table_filing(
    table: Seq<Bucket>,
    records: Seq<PostView>,
    kind: Kind,
    done: Seq<Query>,
) -> bool {
    &&& table_keys(table) == add_keys(keys_in_order(records, kind), done)
    &&& forall|b: int|
        0 <= b < table.len() ==> as_ints((#[trigger] table[b]).members@) == if done.contains(
            table[b].key@,
        ) {
            positions(records, table[b].key@).push(records.len() as int)
        } else {
            positions(records, table[b].key@)
        }
}

/// A table is the index of `records` for the keys of one kind: it holds
/// each key under which a record is filed once, in the order in which the
/// keys first occur, and with each key the positions of the records that
/// answer to it.
pub open spec fn table_ok(table: Seq<Bucket>, records: Seq<PostView>, kind: Kind) -> bool {
    table_filing(table, records, kind, Seq::empty())
}

/// Every position that an index holds is the position of a record, and
/// that record answers to the key under which the position is held; and
/// no key holds a position twice.
pub proof fn law_index_refers_to_records(table: Seq<Bucket>, records: Seq<PostView>, kind: Kind)
    requires
        table_ok(table, records, kind),
    ensures
        forall|b: int, k: int|
            0 <= b < table.len() && 0 <= k < table[b].members@.len() ==> (
            #[trigger] table[b].members@[k]) < records.len() && answers(
                records[table[b].members@[k] as int],
                table[b].key@,
            ),
        forall|b: int, k: int, l: int|
            0 <= b < table.len() && 0 <= k < l < table[b].members@.len() ==> (
            #[trigger] table[b].members@[k]) < (#[trigger] table[b].members@[l]),
{
    assert forall|b: int, k: int|
        0 <= b < table.len() && 0 <= k < table[b].members@.len() implies (
    #[trigger] table[b].members@[k]) < records.len() && answers(
        records[table[b].members@[k] as int],
        table[b].key@,
    ) by {
        lemma_positions(records, table[b].key@);
        assert(as_ints(table[b].members@)[k] == table[b].members@[k]);
    }
    assert forall|b: int, k: int, l: int|
        0 <= b < table.len() && 0 <= k < l < table[b].members@.len() implies (
    #[trigger] table[b].members@[k]) < (#[trigger] table[b].members@[l]) by {
        lemma_positions(records, table[b].key@);
        assert(as_ints(table[b].members@)[k] == table[b].members@[k]);
        assert(as_ints(table[b].members@)[l] == table[b].members@[l]);
    }
}

/// The place of a key in a table.
pub(crate) fn find_key(table: &Vec<Bucket>, key: &Key) -> (found: Option<usize>)
    ensures
        found matches Some(b) ==> b < table.len() && table[b as int].key@ == key@,
        found is None ==> !table_keys(table@).contains(key@),
{
    let mut b: usize = 0;
    while b < table.len()
        invariant
            b <= table.len(),
            forall|a: int| 0 <= a < b ==> table_keys(table@)[a] != key@,
        decreases table.len() - b,
    {
        if table[b].key.same(key) {
            return Some(b);
        }
        b += 1;
    }
    None
}

/// Files the record that will stand at position `at` under one more key.
pub(crate) fn add_member(
    table: &mut Vec<Bucket>,
    key: Key,
    at: usize,
    Ghost(records): Ghost<Seq<PostView>>,
    Ghost(kind): Ghost<Kind>,
    Ghost(done): Ghost<Seq<Query>>,
)
    requires
        table_filing(old(table)@, records, kind, done),
        is_key(key@, kind),
        forall|i: int| 0 <= i < done.len() ==> is_key(#[trigger] done[i], kind),
        at == records.len(),
    ensures
        table_filing(final(table)@, records, kind, done.push(key@)),
{
    let ghost query = key@;
    let ghost old_keys = table_keys(table@);
    let ghost more = done.push(query);
    proof {
        assert(more.drop_last() =~= done);
        lemma_keys_in_order(records, kind);
        lemma_add_keys(keys_in_order(records, kind), done);
        lemma_positions(records, query);
        assert forall|other: Query| more.contains(other) <==> done.contains(other) || other
            == query by {
            if done.contains(other) {
                let i = choose|i: int| 0 <= i < done.len() && done[i] == other;
                assert(more[i] == other);
            }
            assert(more[done.len() as int] == query);
        }
    }
    match find_key(table, &key) {
        Some(b) => {
            assert(old_keys[b as int] == query);
            assert(old_keys.contains(query));
            let count = table[b].members.len();
            let filed = count > 0 && table[b].members[count - 1] == at;
            proof {
                let members = as_ints(table@[b as int].members@);
                let found = positions(records, query);
                assert(members.len() == count);
                if done.contains(query) {
                    assert(members == found.push(records.len() as int));
                    assert(members[count - 1] == at);
                    assert(members[count - 1] == table@[b as int].members@[count - 1]);
                } else if count > 0 {
                    assert(members == found);
                    assert(members[count - 1] == table@[b as int].members@[count - 1]);
                    assert(found[count - 1] < records.len());
                }
                assert(filed == done.contains(query));
            }
            if !filed {
                table[b].members.push(at);
                proof {
                    assert(table_keys(table@) =~= old_keys);
                    assert(as_ints(table[b as int].members@) =~= positions(records, query).push(
                        at as int,
                    ));
                    assert forall|c: int| 0 <= c < table.len() && c != b implies table[c] == old(
                        table,
                    )[c] by {}
                    assert forall|c: int| 0 <= c < table.len() && c != b implies table[c].key@
                        != query by {
                        assert(old_keys[c] == table[c].key@);
                        assert(old_keys.no_duplicates());
                    }
                }
            }
        },
        None => {
            let mut members: Vec<usize> = Vec::new();
            members.push(at);
            table.push(Bucket { key, members });
            proof {
                assert(table_keys(table@) =~= old_keys.push(query));
                assert(!keys_in_order(records, kind).contains(query));
                assert(positions(records, query).len() == 0) by {
                    if positions(records, query).len() > 0 {
                        let i = positions(records, query)[0];
                        assert(answers(records[i], query));
                    }
                }
                assert(as_ints(table[table.len() - 1].members@) =~= positions(records, query).push(
                    at as int,
                ));
                assert forall|c: int| 0 <= c < table.len() - 1 implies table[c] == old(table)[c]
                    && table[c].key@ != query by {
                    assert(old_keys[c] == table[c].key@);
                }
            }
        },
    }
}

/// Once the record at `records.len()` is filed under each of its keys,
/// the table is the index of the records with that record behind them.
pub proof fn lemma_filed(table: Seq<Bucket>, records: Seq<PostView>, kind: Kind, post: PostView)
    requires
        table_filing(table, records, kind, keys_of(post, kind)),
    ensures
        table_ok(table, records.push(post), kind),
{
    let longer = records.push(post);
    assert(longer.drop_last() =~= records);
    lemma_keys_in_order(longer, kind);
    assert forall|b: int| 0 <= b < table.len() implies as_ints((#[trigger] table[b]).members@)
        == positions(longer, table[b].key@) by {
        let key = table[b].key@;
        assert(table_keys(table)[b] == key);
        lemma_positions_push(records, post, key);
        lemma_filed_under(post, kind, key);
    }
}

} // verus!
