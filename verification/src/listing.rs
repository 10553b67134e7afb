//! The lists of entries that a user sees.

use crate::access::{can_view_entry, may_view_entry, same_text};
use crate::models::{Collection, CollectionMember, Entry, Interval, Visit};
use crate::schedule::{
    allowance_nanos, build_entry_view, dismissed_instant, read_dismissed, EntryView,
};
use crate::store::{
    distinct_by, lemma_filter_keeps_distinct, lemma_filter_next,
    lemma_permutation_keeps_distinct, same_entry_id, Store,
};
use crate::text::str_eq;
use crate::time::Timestamp;
use vstd::prelude::*;

verus! {

/// A stored entry together with the number of visits on record for it, as
/// one row.
#[derive(Debug)]
pub struct EntryWithCount {
    pub id: String,
    pub user_id: String,
    pub collection_id: Option<String>,
    pub url: String,
    pub title: String,
    pub description: Option<String>,
    pub duration: i64,
    pub interval: Interval,
    pub dismissed_at: Option<String>,
    pub created_at: String,
    pub updated_at: String,
    pub visit_count: i64,
}

impl EntryWithCount {
    /// The entry that the row holds.
    pub open spec fn entry(self) -> Entry {
        Entry {
            id: self.id,
            user_id: self.user_id,
            collection_id: self.collection_id,
            url: self.url,
            title: self.title,
            description: self.description,
            duration: self.duration,
            interval: self.interval,
            dismissed_at: self.dismissed_at,
            created_at: self.created_at,
            updated_at: self.updated_at,
        }
    }

    /// Parts the row into the entry and its visit count.
    pub fn into_entry_and_count(self) -> (r: (Entry, i64))
        ensures
            r.0 == self.entry(),
            r.1 == self.visit_count,
    {
        let entry = Entry {
            id: self.id,
            user_id: self.user_id,
            collection_id: self.collection_id,
            url: self.url,
            title: self.title,
            description: self.description,
            duration: self.duration,
            interval: self.interval,
            dismissed_at: self.dismissed_at,
            created_at: self.created_at,
            updated_at: self.updated_at,
        };
        (entry, self.visit_count)
    }
}


/// The number of visits on record for the entry `entry_id`.
pub open spec fn count_visits(visits: Seq<Visit>, entry_id: Seq<char>) -> nat
    decreases visits.len(),
{
    if visits.len() == 0 {
        0
    } else {
        count_visits(visits.drop_last(), entry_id) + (if visits.last().entry_id@ == entry_id {
            1nat
        } else {
            0nat
        })
    }
}

/// A count as a list carries it: the count itself, or the greatest number
/// that fits where the count is greater.
pub open spec fn count_shown(n: nat) -> i64 {
    if n > i64::MAX {
        i64::MAX
    } else {
        n as i64
    }
}

/// The number of visits on record for the entry `entry_id`.
pub fn visit_count(visits: &Vec<Visit>, entry_id: &String) -> (n: i64)
    ensures
        n == count_shown(count_visits(visits@, entry_id@)),
{
    let mut n: i64 = 0;
    let mut i: usize = 0;
    while i < visits.len()
        invariant
            i <= visits.len(),
            n == count_shown(count_visits(visits@.take(i as int), entry_id@)),
        decreases visits.len() - i,
    {
        assert(visits@.take(i + 1).drop_last() =~= visits@.take(i as int));
        if same_text(&visits[i].entry_id, entry_id) && n < i64::MAX {
            n += 1;
        }
        i += 1;
    }
    assert(visits@.take(visits@.len() as int) =~= visits@);
    n
}

/// The test that keeps the entries that `actor` may see.
pub open spec fn visible_to(
    actor: Seq<char>,
    collections: Seq<Collection>,
    members: Seq<CollectionMember>,
) -> spec_fn(Entry) -> bool {
    |entry: Entry| may_view_entry(actor, entry, collections, members)
}

/// An entry with the number of its visits.
pub open spec fn counted_entry(visits: Seq<Visit>) -> spec_fn(Entry) -> (Entry, i64) {
    |entry: Entry| (entry, count_shown(count_visits(visits, entry.id@)))
}

/// The entries that `actor` may see, each with the number of its visits, in
/// the order of the store.
pub open spec fn candidates(store: Store, actor: Seq<char>) -> Seq<(Entry, i64)> {
    store.entries@.filter(visible_to(actor, store.collections@, store.members@)).map_values(
        counted_entry(store.visits@),
    )
}

/// A row of a list with the instant at which its entry was dismissed.
#[derive(Debug)]
pub struct DatedRow {
    /// The instant of the dismissal; `None` for an entry never dismissed.
    pub dismissed: Option<Timestamp>,
    pub entry: Entry,
    pub visit_count: i64,
}

impl Clone for DatedRow {
    fn clone(&self) -> (copy: Self)
        ensures
            copy == *self,
    {
        DatedRow {
            dismissed: self.dismissed,
            entry: self.entry.clone(),
            visit_count: self.visit_count,
        }
    }
}

/// The place of a dismissal in the order of a list: `None` for none, else
/// its instant in nanoseconds.
pub open spec fn recency_of(at: Option<Timestamp>) -> Option<int> {
    match at {
        None => None,
        Some(t) => Some(t@),
    }
}

/// Whether a row with recency `a` may stand before one with recency `b`:
/// entries never dismissed come first, then the others from the latest
/// dismissal to the earliest.
pub open spec fn stands_before(a: Option<int>, b: Option<int>) -> bool {
    match (a, b) {
        (None, _) => true,
        (Some(_), None) => false,
        (Some(x), Some(y)) => x >= y,
    }
}

/// `sorted` with `row` put in behind every row that may stand before it.
pub open spec fn insert_by_date(sorted: Seq<DatedRow>, row: DatedRow) -> Seq<DatedRow>
    decreases sorted.len(),
{
    if sorted.len() == 0 || stands_before(
        recency_of(sorted.last().dismissed),
        recency_of(row.dismissed),
    ) {
        sorted.push(row)
    } else {
        insert_by_date(sorted.drop_last(), row).push(sorted.last())
    }
}

/// The rows in the order of a list: entries never dismissed first, then
/// from the latest dismissal to the earliest. Rows that tie keep the order
/// they came in.
pub open spec fn by_date(rows: Seq<DatedRow>) -> Seq<DatedRow>
    decreases rows.len(),
{
    if rows.len() == 0 {
        rows
    } else {
        insert_by_date(by_date(rows.drop_last()), rows.last())
    }
}

/// Whether every row may stand before all rows behind it.
pub open spec fn in_date_order(rows: Seq<DatedRow>) -> bool {
    forall|i: int, j: int|
        0 <= i < j < rows.len() ==> stands_before(
            recency_of((#[trigger] rows[i]).dismissed),
            recency_of((#[trigger] rows[j]).dismissed),
        )
}

/// Putting a row into an ordered list keeps the list ordered and adds the
/// row to what it holds, nothing else; so it is for whatever `part` of the
/// rows one looks at.
pub proof fn lemma_insert_by_date<B>(sorted: Seq<DatedRow>, row: DatedRow, part: spec_fn(DatedRow) -> B)
    requires
        in_date_order(sorted),
    ensures
        in_date_order(insert_by_date(sorted, row)),
        insert_by_date(sorted, row).len() == sorted.len() + 1,
        insert_by_date(sorted, row).map_values(part).to_multiset() == sorted.map_values(
            part,
        ).to_multiset().insert(part(row)),
        forall|i: int|
            0 <= i < sorted.len() + 1 ==> (#[trigger] insert_by_date(sorted, row)[i]) == row
                || sorted.contains(insert_by_date(sorted, row)[i]),
    decreases sorted.len(),
{
    broadcast use vstd::seq_lib::group_to_multiset_ensures;

    let out = insert_by_date(sorted, row);
    if sorted.len() == 0 || stands_before(
        recency_of(sorted.last().dismissed),
        recency_of(row.dismissed),
    ) {
        assert(out.map_values(part) =~= sorted.map_values(part).push(part(row)));
        assert forall|i: int| 0 <= i < out.len() implies (#[trigger] out[i]) == row
            || sorted.contains(out[i]) by {
            if i < sorted.len() {
                assert(sorted[i] == out[i]);
            }
        }
        assert forall|i: int, j: int| 0 <= i < j < out.len() implies stands_before(
            recency_of((#[trigger] out[i]).dismissed),
            recency_of((#[trigger] out[j]).dismissed),
        ) by {
            if j == sorted.len() {
                if i < sorted.len() - 1 {
                    assert(stands_before(
                        recency_of(sorted[i].dismissed),
                        recency_of(sorted[sorted.len() - 1].dismissed),
                    ));
                }
            } else {
                assert(stands_before(
                    recency_of(sorted[i].dismissed),
                    recency_of(sorted[j].dismissed),
                ));
            }
        }
    } else {
        let rest = sorted.drop_last();
        let last = sorted.last();
        assert forall|i: int, j: int| 0 <= i < j < rest.len() implies stands_before(
            recency_of((#[trigger] rest[i]).dismissed),
            recency_of((#[trigger] rest[j]).dismissed),
        ) by {
            assert(stands_before(
                recency_of(sorted[i].dismissed),
                recency_of(sorted[j].dismissed),
            ));
        }
        lemma_insert_by_date(rest, row, part);
        let inner = insert_by_date(rest, row);
        assert(out == inner.push(last));
        assert(sorted =~= rest.push(last));
        assert(out.map_values(part) =~= inner.map_values(part).push(part(last)));
        assert(sorted.map_values(part) =~= rest.map_values(part).push(part(last)));
        assert(out.map_values(part).to_multiset() =~= sorted.map_values(part).to_multiset().insert(
            part(row),
        ));
        assert forall|i: int| 0 <= i < out.len() implies (#[trigger] out[i]) == row
            || sorted.contains(out[i]) by {
            if i < inner.len() {
                assert(out[i] == inner[i]);
                if inner[i] != row {
                    let k = choose|k: int| 0 <= k < rest.len() && rest[k] == inner[i];
                    assert(sorted[k] == out[i]);
                }
            } else {
                assert(sorted[sorted.len() - 1] == out[i]);
            }
        }
        assert forall|i: int, j: int| 0 <= i < j < out.len() implies stands_before(
            recency_of((#[trigger] out[i]).dismissed),
            recency_of((#[trigger] out[j]).dismissed),
        ) by {
            if j == inner.len() {
                if inner[i] != row {
                    let k = choose|k: int| 0 <= k < rest.len() && rest[k] == inner[i];
                    assert(stands_before(
                        recency_of(sorted[k].dismissed),
                        recency_of(sorted[sorted.len() - 1].dismissed),
                    ));
                }
            } else {
                assert(stands_before(
                    recency_of(inner[i].dismissed),
                    recency_of(inner[j].dismissed),
                ));
            }
        }
    }
}

/// The order of a list holds the rows it was given, each as often as it was
/// given, and every row in it may stand before all rows behind it; so it is
/// for whatever `part` of the rows one looks at.
pub proof fn lemma_by_date<B>(rows: Seq<DatedRow>, part: spec_fn(DatedRow) -> B)
    ensures
        in_date_order(by_date(rows)),
        by_date(rows).len() == rows.len(),
        by_date(rows).map_values(part).to_multiset() == rows.map_values(part).to_multiset(),
        forall|i: int| 0 <= i < rows.len() ==> rows.contains(#[trigger] by_date(rows)[i]),
    decreases rows.len(),
{
    broadcast use vstd::seq_lib::group_to_multiset_ensures;

    if rows.len() > 0 {
        let rest = rows.drop_last();
        lemma_by_date(rest, part);
        lemma_insert_by_date(by_date(rest), rows.last(), part);
        assert(rows =~= rest.push(rows.last()));
        assert(rows.map_values(part) =~= rest.map_values(part).push(part(rows.last())));
        let out = by_date(rows);
        assert forall|i: int| 0 <= i < rows.len() implies rows.contains(#[trigger] out[i]) by {
            if out[i] == rows.last() {
                assert(rows[rows.len() - 1] == out[i]);
            } else {
                let k = choose|k: int| 0 <= k < by_date(rest).len() && by_date(rest)[k] == out[i];
                assert(rest.contains(by_date(rest)[k]));
                let m = choose|m: int| 0 <= m < rest.len() && rest[m] == out[i];
                assert(rows[m] == out[i]);
            }
        }
    }
}

/// Where `row` goes into `sorted`: at `position`, if every row from there
/// on may not stand before it and the row just ahead may.
proof fn lemma_insert_position(sorted: Seq<DatedRow>, row: DatedRow, position: int)
    requires
        0 <= position <= sorted.len(),
        forall|j: int|
            position <= j < sorted.len() ==> !stands_before(
                recency_of((#[trigger] sorted[j]).dismissed),
                recency_of(row.dismissed),
            ),
        position > 0 ==> stands_before(
            recency_of(sorted[position - 1].dismissed),
            recency_of(row.dismissed),
        ),
    ensures
        insert_by_date(sorted, row) == sorted.insert(position, row),
    decreases sorted.len(),
{
    if position == sorted.len() {
        assert(sorted.insert(position, row) =~= sorted.push(row));
    } else {
        let rest = sorted.drop_last();
        assert(!stands_before(
            recency_of(sorted[sorted.len() - 1].dismissed),
            recency_of(row.dismissed),
        ));
        assert forall|j: int| position <= j < rest.len() implies !stands_before(
            recency_of((#[trigger] rest[j]).dismissed),
            recency_of(row.dismissed),
        ) by {
            assert(rest[j] == sorted[j]);
        }
        lemma_insert_position(rest, row, position);
        assert(sorted.insert(position, row) =~= rest.insert(position, row).push(sorted.last()));
    }
}

/// Whether a row dismissed at `a` may stand before one dismissed at `b`.
pub fn may_stand_before(a: &Option<Timestamp>, b: &Option<Timestamp>) -> (before: bool)
    ensures
        before == stands_before(recency_of(*a), recency_of(*b)),
{
    match a {
        None => true,
        Some(x) => match b {
            None => false,
            Some(y) => x.total_nanos() >= y.total_nanos(),
        },
    }
}

/// Puts rows into the order of a list: entries never dismissed first, then
/// from the latest dismissal to the earliest, rows that tie in the order
/// they came in.
pub fn sort_by_date(rows: &Vec<DatedRow>) -> (sorted: Vec<DatedRow>)
    ensures
        sorted@ == by_date(rows@),
        in_date_order(sorted@),
        sorted@.to_multiset() == rows@.to_multiset(),
{
    let mut sorted: Vec<DatedRow> = Vec::new();
    let mut i: usize = 0;
    assert(rows@.take(0) =~= Seq::<DatedRow>::empty());
    while i < rows.len()
        invariant
            i <= rows.len(),
            sorted@ == by_date(rows@.take(i as int)),
        decreases rows.len() - i,
    {
        let mut position: usize = sorted.len();
        while position > 0 && !may_stand_before(&sorted[position - 1].dismissed, &rows[i].dismissed)
            invariant
                position <= sorted@.len(),
                i < rows.len(),
                forall|j: int|
                    position <= j < sorted@.len() ==> !stands_before(
                        recency_of((#[trigger] sorted@[j]).dismissed),
                        recency_of(rows@[i as int].dismissed),
                    ),
            decreases position,
        {
            position -= 1;
        }
        proof {
            lemma_insert_position(sorted@, rows@[i as int], position as int);
            assert(rows@.take(i + 1).drop_last() =~= rows@.take(i as int));
        }
        sorted.insert(position, rows[i].clone());
        i += 1;
    }
    proof {
        let whole = |row: DatedRow| row;
        assert(rows@.take(rows@.len() as int) =~= rows@);
        lemma_by_date(rows@, whole);
        assert(sorted@.map_values(whole) =~= sorted@);
        assert(rows@.map_values(whole) =~= rows@);
    }
    sorted
}

/// A row with the instant that its entry's `dismissed_at` stands for at
/// `now`.
pub open spec fn dated(now: Timestamp) -> spec_fn((Entry, i64)) -> DatedRow {
    |row: (Entry, i64)|
        DatedRow {
            dismissed: dismissed_instant(row.0.dismissed_at, now),
            entry: row.0,
            visit_count: row.1,
        }
}

/// A row without the instant of its dismissal.
pub open spec fn undated() -> spec_fn(DatedRow) -> (Entry, i64) {
    |row: DatedRow| (row.entry, row.visit_count)
}

/// The place of an entry in the order of a list at `now`. A `dismissed_at`
/// that cannot be read counts as `now`.
pub open spec fn recency(entry: Entry, now: Timestamp) -> Option<int> {
    recency_of(dismissed_instant(entry.dismissed_at, now))
}

/// The rows in the order of a list at `now`: each row is given the instant
/// of its dismissal, and the rows are put in the order of those instants.
pub open spec fn by_recency(rows: Seq<(Entry, i64)>, now: Timestamp) -> Seq<(Entry, i64)> {
    by_date(rows.map_values(dated(now))).map_values(undated())
}

/// Whether every row may stand before all rows behind it at `now`.
pub open spec fn in_recency_order(rows: Seq<(Entry, i64)>, now: Timestamp) -> bool {
    forall|i: int, j: int|
        0 <= i < j < rows.len() ==> stands_before(
            recency((#[trigger] rows[i]).0, now),
            recency((#[trigger] rows[j]).0, now),
        )
}

/// The order of a list at `now` holds the rows it was given, each as often
/// as it was given, and every row in it may stand before all rows behind
/// it.
pub proof fn lemma_by_recency(rows: Seq<(Entry, i64)>, now: Timestamp)
    ensures
        in_recency_order(by_recency(rows, now), now),
        by_recency(rows, now).to_multiset() == rows.to_multiset(),
        by_recency(rows, now).len() == rows.len(),
{
    let given = rows.map_values(dated(now));
    let sorted = by_date(given);
    let out = by_recency(rows, now);
    lemma_by_date(given, undated());
    assert(given.map_values(undated()) =~= rows);
    assert forall|i: int, j: int| 0 <= i < j < out.len() implies stands_before(
        recency((#[trigger] out[i]).0, now),
        recency((#[trigger] out[j]).0, now),
    ) by {
        assert(given.contains(sorted[i]) && given.contains(sorted[j]));
        let a = choose|a: int| 0 <= a < given.len() && given[a] == sorted[i];
        let b = choose|b: int| 0 <= b < given.len() && given[b] == sorted[j];
        assert(given[a] == dated(now)(rows[a]) && given[b] == dated(now)(rows[b]));
        assert(stands_before(recency_of(sorted[i].dismissed), recency_of(sorted[j].dismissed)));
    }
}

/// Puts rows into the order of a list at `now`: entries never dismissed
/// first, then from the latest dismissal to the earliest, rows that tie in
/// the order they came in. A `dismissed_at` that cannot be read counts as
/// `now`.
pub fn sort_by_recency(rows: &Vec<(Entry, i64)>, now: Timestamp) -> (sorted: Vec<(Entry, i64)>)
    ensures
        sorted@ == by_recency(rows@, now),
        in_recency_order(sorted@, now),
        sorted@.to_multiset() == rows@.to_multiset(),
{
    let mut given: Vec<DatedRow> = Vec::new();
    let mut i: usize = 0;
    while i < rows.len()
        invariant
            i <= rows.len(),
            given@ == rows@.take(i as int).map_values(dated(now)),
        decreases rows.len() - i,
    {
        let dismissed = read_dismissed(&rows[i].0.dismissed_at, now);
        given.push(DatedRow { dismissed, entry: rows[i].0.clone(), visit_count: rows[i].1 });
        assert(given@ =~= rows@.take(i + 1).map_values(dated(now)));
        i += 1;
    }
    assert(rows@.take(rows@.len() as int) =~= rows@);
    let ordered = sort_by_date(&given);
    let mut sorted: Vec<(Entry, i64)> = Vec::new();
    let mut k: usize = 0;
    while k < ordered.len()
        invariant
            k <= ordered.len(),
            sorted@ == ordered@.take(k as int).map_values(undated()),
        decreases ordered.len() - k,
    {
        sorted.push((ordered[k].entry.clone(), ordered[k].visit_count));
        assert(sorted@ =~= ordered@.take(k + 1).map_values(undated()));
        k += 1;
    }
    proof {
        assert(ordered@.take(ordered@.len() as int) =~= ordered@);
        lemma_by_recency(rows@, now);
    }
    sorted
}

/// Whether two rows of a list hold entries of the same identifier.
pub open spec fn same_row_id() -> spec_fn((Entry, i64), (Entry, i64)) -> bool {
    |a: (Entry, i64), b: (Entry, i64)| a.0.id@ == b.0.id@
}

/// Whether `rows` holds `row`, and holds no other row for the identifier
/// of its entry.
pub open spec fn holds_once(rows: Seq<(Entry, i64)>, row: (Entry, i64)) -> bool {
    exists|i: int|
        0 <= i < rows.len() && (#[trigger] rows[i]) == row && forall|j: int|
            0 <= j < rows.len() && (#[trigger] rows[j]).0.id@ == row.0.id@ ==> j == i
}

/// Whether `row` is an entry of `store` that `actor` may see, with the
/// number of its visits.
pub open spec fn is_visible_row(store: Store, actor: Seq<char>, row: (Entry, i64)) -> bool {
    exists|k: int|
        0 <= k < store.entries@.len() && may_view_entry(
            actor,
            #[trigger] store.entries@[k],
            store.collections@,
            store.members@,
        ) && row == counted_entry(store.visits@)(store.entries@[k])
}

/// Two lists that hold the same rows equally often hold the same rows.
proof fn lemma_same_rows(given: Seq<(Entry, i64)>, arranged: Seq<(Entry, i64)>, row: (Entry, i64))
    requires
        given.to_multiset() == arranged.to_multiset(),
    ensures
        given.contains(row) <==> arranged.contains(row),
{
    vstd::seq_lib::to_multiset_contains(given, row);
    vstd::seq_lib::to_multiset_contains(arranged, row);
}

/// Every entry that the user may see is in the user's list, with the
/// number of its visits.
pub proof fn lemma_list_holds_what_is_visible(store: Store, actor: Seq<char>, now: Timestamp)
    ensures
        forall|k: int|
            0 <= k < store.entries@.len() && may_view_entry(
                actor,
                #[trigger] store.entries@[k],
                store.collections@,
                store.members@,
            ) ==> by_recency(candidates(store, actor), now).contains(
                counted_entry(store.visits@)(store.entries@[k]),
            ),
{
    let keep = visible_to(actor, store.collections@, store.members@);
    let pair = counted_entry(store.visits@);
    let seen = store.entries@.filter(keep);
    let given = candidates(store, actor);
    let rows = by_recency(given, now);
    lemma_by_recency(given, now);
    assert forall|k: int|
        0 <= k < store.entries@.len() && may_view_entry(
            actor,
            #[trigger] store.entries@[k],
            store.collections@,
            store.members@,
        ) implies rows.contains(pair(store.entries@[k])) by {
        assert(keep(store.entries@[k]));
        store.entries@.lemma_filter_contains(keep, k);
        let m = choose|m: int| 0 <= m < seen.len() && seen[m] == store.entries@[k];
        assert(given[m] == pair(store.entries@[k]));
        assert(given.contains(pair(store.entries@[k])));
        lemma_same_rows(given, rows, pair(store.entries@[k]));
    }
}

/// Every row of a user's list is an entry that the user may see, with the
/// number of its visits.
pub proof fn lemma_list_holds_nothing_else(store: Store, actor: Seq<char>, now: Timestamp)
    ensures
        forall|i: int|
            0 <= i < by_recency(candidates(store, actor), now).len() ==> is_visible_row(
                store,
                actor,
                #[trigger] by_recency(candidates(store, actor), now)[i],
            ),
{
    let keep = visible_to(actor, store.collections@, store.members@);
    let pair = counted_entry(store.visits@);
    let seen = store.entries@.filter(keep);
    let given = candidates(store, actor);
    let rows = by_recency(given, now);
    lemma_by_recency(given, now);
    assert forall|i: int| 0 <= i < rows.len() implies is_visible_row(
        store,
        actor,
        #[trigger] rows[i],
    ) by {
        assert(rows.contains(rows[i]));
        lemma_same_rows(given, rows, rows[i]);
        let m = choose|m: int| 0 <= m < given.len() && given[m] == rows[i];
        assert(given[m] == pair(seen[m]));
        store.entries@.lemma_filter_pred(keep, m);
        assert(seen.contains(seen[m]));
        store.entries@.lemma_filter_contains_rev(keep, seen[m]);
        let k = choose|k: int| 0 <= k < store.entries@.len() && store.entries@[k] == seen[m];
        assert(keep(store.entries@[k]));
        assert(rows[i] == pair(store.entries@[k]));
    }
}

/// Where no two entries of the store have the same identifier, a user's
/// list holds each entry that the user may see exactly once.
pub proof fn lemma_list_holds_each_once(store: Store, actor: Seq<char>, now: Timestamp)
    requires
        distinct_by(store.entries@, same_entry_id()),
    ensures
        distinct_by(by_recency(candidates(store, actor), now), same_row_id()),
        forall|k: int|
            0 <= k < store.entries@.len() && may_view_entry(
                actor,
                #[trigger] store.entries@[k],
                store.collections@,
                store.members@,
            ) ==> holds_once(
                by_recency(candidates(store, actor), now),
                counted_entry(store.visits@)(store.entries@[k]),
            ),
{
    let keep = visible_to(actor, store.collections@, store.members@);
    let pair = counted_entry(store.visits@);
    let seen = store.entries@.filter(keep);
    let given = candidates(store, actor);
    let rows = by_recency(given, now);
    lemma_by_recency(given, now);
    lemma_list_holds_what_is_visible(store, actor, now);
    lemma_filter_keeps_distinct(store.entries@, keep, same_entry_id());
    assert forall|i: int, j: int| 0 <= i < j < given.len() implies !same_row_id()(
        #[trigger] given[i],
        #[trigger] given[j],
    ) by {
        assert(!same_entry_id()(seen[i], seen[j]));
    }
    lemma_permutation_keeps_distinct(given, rows, same_row_id());
    assert forall|k: int|
        0 <= k < store.entries@.len() && may_view_entry(
            actor,
            #[trigger] store.entries@[k],
            store.collections@,
            store.members@,
        ) implies holds_once(rows, pair(store.entries@[k])) by {
        let row = pair(store.entries@[k]);
        assert(rows.contains(row));
        let i = choose|i: int| 0 <= i < rows.len() && rows[i] == row;
        assert forall|j: int|
            0 <= j < rows.len() && (#[trigger] rows[j]).0.id@ == row.0.id@ implies j == i by {
            if j < i {
                assert(!same_row_id()(rows[j], rows[i]));
            }
            if i < j {
                assert(!same_row_id()(rows[i], rows[j]));
            }
        }
    }
}

impl Store {
    /// The entries that `user_id` may see, each with the number of its
    /// visits, in the order of a list.
    ///
    /// These are the entries that the user created and those that stand in
    /// a collection which the user owns or belongs to. Each of them is in
    /// the list, and where no two entries of the store have the same
    /// identifier, exactly once.
    pub fn entries_visible_to(&self, user_id: &str, now: Timestamp) -> (rows: Vec<(Entry, i64)>)
        ensures
            rows@ == by_recency(candidates(*self, user_id@), now),
            in_recency_order(rows@, now),
            forall|k: int|
                0 <= k < self.entries@.len() && may_view_entry(
                    user_id@,
                    #[trigger] self.entries@[k],
                    self.collections@,
                    self.members@,
                ) ==> rows@.contains(counted_entry(self.visits@)(self.entries@[k])),
            forall|i: int| 0 <= i < rows@.len() ==> is_visible_row(*self, user_id@, #[trigger] rows@[i]),
            self.ids_unique() ==> forall|k: int|
                0 <= k < self.entries@.len() && may_view_entry(
                    user_id@,
                    #[trigger] self.entries@[k],
                    self.collections@,
                    self.members@,
                ) ==> holds_once(rows@, counted_entry(self.visits@)(self.entries@[k])),
    {
        proof {
            lemma_list_holds_what_is_visible(*self, user_id@, now);
            lemma_list_holds_nothing_else(*self, user_id@, now);
            if self.ids_unique() {
                lemma_list_holds_each_once(*self, user_id@, now);
            }
        }
        let actor = String::from_str(user_id);
        let ghost keep = visible_to(user_id@, self.collections@, self.members@);
        let ghost pair = counted_entry(self.visits@);
        let mut found: Vec<(Entry, i64)> = Vec::new();
        let mut i: usize = 0;
        assert(self.entries@.take(0).filter(keep) =~= Seq::<Entry>::empty()) by {
            reveal(Seq::filter);
        }
        while i < self.entries.len()
            invariant
                i <= self.entries.len(),
                actor@ == user_id@,
                keep == visible_to(user_id@, self.collections@, self.members@),
                pair == counted_entry(self.visits@),
                found@ == self.entries@.take(i as int).filter(keep).map_values(pair),
            decreases self.entries.len() - i,
        {
            proof {
                lemma_filter_next(self.entries@, keep, i as int);
            }
            let entry = &self.entries[i];
            if can_view_entry(&actor, entry, &self.collections, &self.members) {
                let count = visit_count(&self.visits, &entry.id);
                found.push((entry.clone(), count));
                assert(found@ =~= self.entries@.take(i + 1).filter(keep).map_values(pair));
            }
            i += 1;
        }
        assert(self.entries@.take(self.entries@.len() as int) =~= self.entries@);
        sort_by_recency(&found, now)
    }
}

/// Which entries a list shows.
#[derive(Clone, Copy, Debug, PartialEq, Eq, Structural)]
pub enum EntryFilter {
    /// The entries that are available.
    Ready,
    /// The entries that are not available yet.
    Waiting,
    /// The entries without a visit, available or not.
    Unseen,
    /// Every entry.
    All,
}

/// Whether the entry is available at `now`: it was never dismissed, or its
/// allowance has run out.
pub open spec fn entry_available(entry: Entry, now: Timestamp) -> bool {
    match dismissed_instant(entry.dismissed_at, now) {
        None => true,
        Some(at) => now@ >= at@ + allowance_nanos(entry.duration as int, entry.interval),
    }
}

impl EntryFilter {
    /// The filter that `name` stands for.
    pub open spec fn of_name(name: Seq<char>) -> EntryFilter {
        if name == "ready"@ {
            EntryFilter::Ready
        } else if name == "waiting"@ {
            EntryFilter::Waiting
        } else if name == "unseen"@ {
            EntryFilter::Unseen
        } else {
            EntryFilter::All
        }
    }

    /// Reads the name of a filter: `ready`, `waiting` or `unseen`. Any other
    /// name stands for all entries.
    pub fn parse(name: &str) -> (filter: EntryFilter)
        ensures
            filter == EntryFilter::of_name(name@),
    {
        if str_eq(name, "ready") {
            EntryFilter::Ready
        } else if str_eq(name, "waiting") {
            EntryFilter::Waiting
        } else if str_eq(name, "unseen") {
            EntryFilter::Unseen
        } else {
            EntryFilter::All
        }
    }

    /// Whether the filter lets a row through at `now`.
    pub open spec fn passes(self, row: (Entry, i64), now: Timestamp) -> bool {
        match self {
            EntryFilter::Ready => entry_available(row.0, now),
            EntryFilter::Waiting => !entry_available(row.0, now),
            EntryFilter::Unseen => row.1 == 0,
            EntryFilter::All => true,
        }
    }

    /// The test that lets through what the filter lets through at `now`.
    pub open spec fn admitting(self, now: Timestamp) -> spec_fn((Entry, i64)) -> bool {
        |row: (Entry, i64)| self.passes(row, now)
    }

    /// Whether the filter lets through the entry that `view` shows.
    pub fn accepts(&self, view: &EntryView) -> (kept: bool)
        ensures
            kept == match *self {
                EntryFilter::Ready => view.is_available,
                EntryFilter::Waiting => !view.is_available,
                EntryFilter::Unseen => view.visit_count == 0,
                EntryFilter::All => true,
            },
    {
        match self {
            EntryFilter::Ready => view.is_available,
            EntryFilter::Waiting => !view.is_available,
            EntryFilter::Unseen => view.visit_count == 0,
            EntryFilter::All => true,
        }
    }
}

/// Whether `views` shows `rows` at `now`, row by row.
pub open spec fn show_rows(views: Seq<EntryView>, rows: Seq<(Entry, i64)>, now: Timestamp) -> bool {
    &&& views.len() == rows.len()
    &&& forall|k: int|
        0 <= k < rows.len() ==> (#[trigger] views[k]).shows(rows[k].0, rows[k].1, now)
}

/// What a list shows of `rows` at `now` under the filter named `filter`:
/// the rows that the filter lets through, in the order given, each as
/// `build_entry_view` shows it. One `now` serves the whole list.
pub fn list_filtered_entries(rows: &Vec<(Entry, i64)>, filter: &str, now: Timestamp) -> (views:
    Vec<EntryView>)
    ensures
        show_rows(views@, rows@.filter(EntryFilter::of_name(filter@).admitting(now)), now),
{
    let chosen = EntryFilter::parse(filter);
    let ghost keep = chosen.admitting(now);
    let mut views: Vec<EntryView> = Vec::new();
    let mut i: usize = 0;
    assert(rows@.take(0).filter(keep) =~= Seq::<(Entry, i64)>::empty()) by {
        reveal(Seq::filter);
    }
    while i < rows.len()
        invariant
            i <= rows.len(),
            chosen == EntryFilter::of_name(filter@),
            keep == chosen.admitting(now),
            show_rows(views@, rows@.take(i as int).filter(keep), now),
        decreases rows.len() - i,
    {
        proof {
            lemma_filter_next(rows@, keep, i as int);
        }
        let ghost before = views@;
        let view = build_entry_view(rows[i].0.clone(), rows[i].1, now);
        if chosen.accepts(&view) {
            views.push(view);
            proof {
                let kept = rows@.take(i + 1).filter(keep);
                assert forall|k: int| 0 <= k < kept.len() implies (#[trigger] views@[k]).shows(
                    kept[k].0,
                    kept[k].1,
                    now,
                ) by {
                    if k < before.len() {
                        assert(views@[k] == before[k]);
                    }
                }
            }
        }
        i += 1;
    }
    assert(rows@.take(rows@.len() as int) =~= rows@);
    views
}

} // verus!
