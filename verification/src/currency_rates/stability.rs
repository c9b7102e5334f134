//! What a synchronization leaves as it is: the table after the writes of a
//! synchronization, and the rows that no synchronization touches.

use crate::currency_rates::currency_rate::{
    distinct_ids, lemma_position_of_id, position_of_id, row_of, target_row, upserted, RateFields,
};
use crate::currency_rates::sync::{
    current_row, distinct_keys, frozen, is_finalized, key_of, lemma_stored_under, planned,
    planned_upto, well_aimed, write_of, ProviderRateView, RateUpsertView,
};
use crate::dates::Timestamp;
use crate::models::{CurrencyRateView, Quantity, RateKey};
use vstd::prelude::*;

verus! {

/// What a write puts into its row, where `stored` gives the rate to store
/// for an observed value.
pub open spec fn fields_of(write: RateUpsertView, stored: spec_fn(Quantity) -> Quantity)
    -> RateFields {
    RateFields {
        from_currency: write.from_currency,
        to_currency: write.to_currency,
        provider: write.provider,
        rate: stored(write.value),
        month: write.month,
        year: write.year,
    }
}

/// The rate to store is the value as it is given: for writes whose values
/// are the rates to store.
pub open spec fn as_given() -> spec_fn(Quantity) -> Quantity {
    |value: Quantity| value
}

/// The table after the first `n` writes, where write `t` adds its row, if it
/// adds one, under `new_ids[t]`, and happens at `nows[t]`.
pub open spec fn applied_upto(
    rows: Seq<CurrencyRateView>,
    writes: Seq<RateUpsertView>,
    stored: spec_fn(Quantity) -> Quantity,
    new_ids: Seq<Seq<char>>,
    nows: Seq<Timestamp>,
    n: int,
) -> Seq<CurrencyRateView>
    decreases n,
{
    if n <= 0 {
        rows
    } else {
        upserted(
            applied_upto(rows, writes, stored, new_ids, nows, n - 1),
            writes[n - 1].existing_id,
            fields_of(writes[n - 1], stored),
            new_ids[n - 1],
            nows[n - 1],
        )
    }
}

/// The table after a synchronization that ingests `rates` for the home
/// currency `home`.
pub open spec fn synchronized(
    rows: Seq<CurrencyRateView>,
    rates: Seq<ProviderRateView>,
    home: Seq<char>,
    provider: Seq<char>,
    stored: spec_fn(Quantity) -> Quantity,
    new_ids: Seq<Seq<char>>,
    nows: Seq<Timestamp>,
) -> Seq<CurrencyRateView> {
    let writes = planned(rates, home, provider, rows);
    applied_upto(rows, writes, stored, new_ids, nows, writes.len() as int)
}

/// In a table without a repeated identifier, a row is the one found under
/// its own identifier.
pub proof fn lemma_found_under_own_id(rows: Seq<CurrencyRateView>, i: int)
    requires
        distinct_ids(rows),
        0 <= i < rows.len(),
    ensures
        position_of_id(rows, rows[i].id, rows.len() as int) == Some(i),
{
    lemma_position_of_id(rows, rows[i].id, rows.len() as int);
}

/// A write keeps the rows it does not aim at, the identifier of every row,
/// and the absence of repeated identifiers; it adds at most one row.
pub proof fn lemma_upserted_shape(
    rows: Seq<CurrencyRateView>,
    id: Option<Seq<char>>,
    fields: RateFields,
    new_id: Seq<char>,
    now: Timestamp,
)
    requires
        distinct_ids(rows),
    ensures
        rows.len() <= upserted(rows, id, fields, new_id, now).len() <= rows.len() + 1,
        distinct_ids(upserted(rows, id, fields, new_id, now)),
        forall|j: int|
            0 <= j < rows.len() ==> (#[trigger] upserted(rows, id, fields, new_id, now)[j]).id
                == rows[j].id,
        forall|j: int|
            0 <= j < rows.len() && target_row(rows, id) != Some(j) ==> #[trigger] upserted(
                rows,
                id,
                fields,
                new_id,
                now,
            )[j] == rows[j],
{
    let after = upserted(rows, id, fields, new_id, now);
    match id {
        Some(uid) => {
            lemma_position_of_id(rows, uid, rows.len() as int);
        },
        None => {},
    }
    lemma_position_of_id(rows, new_id, rows.len() as int);
    assert forall|a: int, b: int| 0 <= a < b < after.len() implies (#[trigger] after[a]).id != (
    #[trigger] after[b]).id by {
        if b < rows.len() {
            assert(rows[a].id != rows[b].id);
        }
    }
}

/// Every write of a plan stores one of the observations, one whose stored
/// rate is not frozen.
pub proof fn lemma_planned_origin(
    rates: Seq<ProviderRateView>,
    home: Seq<char>,
    provider: Seq<char>,
    rows: Seq<CurrencyRateView>,
    n: int,
    t: int,
) -> (m: int)
    requires
        0 <= n <= rates.len(),
        0 <= t < planned_upto(rates, home, provider, rows, n).len(),
    ensures
        0 <= m < n,
        !frozen(rows, key_of(rates[m], home)),
        planned_upto(rates, home, provider, rows, n)[t] == write_of(
            rates[m],
            home,
            provider,
            rows,
        ),
    decreases n,
{
    let prev = planned_upto(rates, home, provider, rows, n - 1);
    if !frozen(rows, key_of(rates[n - 1], home)) && t == prev.len() {
        n - 1
    } else {
        lemma_planned_origin(rates, home, provider, rows, n - 1, t)
    }
}

/// The table `after` has the shape of the table `start` it was made from:
/// every row of `start` is still in its place, under its identifier and its
/// key, no identifier is repeated, and a row that was added is stored under
/// a key that had no row in `start`.
pub open spec fn in_shape(start: Seq<CurrencyRateView>, after: Seq<CurrencyRateView>) -> bool {
    &&& start.len() <= after.len()
    &&& distinct_ids(after)
    &&& forall|j: int| 0 <= j < start.len() ==> #[trigger] anchored(start, after, j)
    &&& forall|j: int|
        start.len() <= j < after.len() ==> current_row(start, (#[trigger] after[j]).key()) is None
}

/// Row `r` is the same in `after` as in `before`, and no row of its key was
/// added, nor did another row come under its key.
pub open spec fn kept(before: Seq<CurrencyRateView>, after: Seq<CurrencyRateView>, r: int) -> bool {
    &&& 0 <= r < before.len() <= after.len()
    &&& after[r] == before[r]
    &&& forall|j: int|
        0 <= j < after.len() && (#[trigger] after[j]).key() == before[r].key() ==> j
            < before.len() && before[j].key() == before[r].key()
}

/// Every write is well aimed for the table `rows`.
pub open spec fn all_well_aimed(rows: Seq<CurrencyRateView>, writes: Seq<RateUpsertView>) -> bool {
    forall|t: int| 0 <= t < writes.len() ==> well_aimed(rows, #[trigger] writes[t])
}

/// The writes that a synchronization plans are well aimed.
pub proof fn lemma_planned_is_well_aimed(
    rates: Seq<ProviderRateView>,
    home: Seq<char>,
    provider: Seq<char>,
    rows: Seq<CurrencyRateView>,
)
    ensures
        all_well_aimed(rows, planned(rates, home, provider, rows)),
{
    let writes = planned(rates, home, provider, rows);
    assert forall|t: int| 0 <= t < writes.len() implies well_aimed(rows, #[trigger] writes[t]) by {
        let m = lemma_planned_origin(rates, home, provider, rows, rates.len() as int, t);
    }
}

/// In a table in the shape of `rows`, a write that is well aimed for `rows`
/// aims at the stored rate of its key, where there is one, and at no row,
/// where there is none.
pub proof fn lemma_write_finds_its_row(
    rows: Seq<CurrencyRateView>,
    write: RateUpsertView,
    table: Seq<CurrencyRateView>,
) -> (target: Option<int>)
    requires
        in_shape(rows, table),
        well_aimed(rows, write),
    ensures
        target == current_row(rows, write.key()),
        target == target_row(table, write.existing_id),
{
    lemma_stored_under(rows, write.key(), rows.len() as int);
    match current_row(rows, write.key()) {
        Some(i) => {
            assert(anchored(rows, table, i));
            lemma_found_under_own_id(table, i);
        },
        None => {},
    }
    current_row(rows, write.key())
}

/// The first `n` of writes that are well aimed for `rows` keep the table in
/// shape.
pub proof fn lemma_writes_keep_shape(
    rows: Seq<CurrencyRateView>,
    writes: Seq<RateUpsertView>,
    stored: spec_fn(Quantity) -> Quantity,
    new_ids: Seq<Seq<char>>,
    nows: Seq<Timestamp>,
    n: int,
)
    requires
        distinct_ids(rows),
        all_well_aimed(rows, writes),
        0 <= n <= writes.len(),
    ensures
        in_shape(rows, applied_upto(rows, writes, stored, new_ids, nows, n)),
    decreases n,
{
    if n <= 0 {
        assert forall|j: int| 0 <= j < rows.len() implies #[trigger] anchored(rows, rows, j) by {}
    } else {
        lemma_writes_keep_shape(rows, writes, stored, new_ids, nows, n - 1);
        let before = applied_upto(rows, writes, stored, new_ids, nows, n - 1);
        let after = applied_upto(rows, writes, stored, new_ids, nows, n);
        let write = writes[n - 1];
        let target = lemma_write_finds_its_row(rows, write, before);
        lemma_upserted_shape(
            before,
            write.existing_id,
            fields_of(write, stored),
            new_ids[n - 1],
            nows[n - 1],
        );
        lemma_stored_under(rows, write.key(), rows.len() as int);
        assert forall|j: int| 0 <= j < rows.len() implies #[trigger] anchored(rows, after, j) by {
            assert(anchored(rows, before, j));
        }
        assert forall|j: int| rows.len() <= j < after.len() implies current_row(
            rows,
            (#[trigger] after[j]).key(),
        ) is None by {
            if j < before.len() {
                assert(after[j] == before[j]);
            }
        }
    }
}

/// The first `n` of writes that are well aimed for `rows` keep a finalized
/// stored rate as it is.
pub proof fn lemma_finalized_row_survives(
    rows: Seq<CurrencyRateView>,
    writes: Seq<RateUpsertView>,
    stored: spec_fn(Quantity) -> Quantity,
    new_ids: Seq<Seq<char>>,
    nows: Seq<Timestamp>,
    r: int,
    n: int,
)
    requires
        distinct_ids(rows),
        all_well_aimed(rows, writes),
        0 <= r < rows.len(),
        current_row(rows, rows[r].key()) == Some(r),
        is_finalized(rows[r]),
        0 <= n <= writes.len(),
    ensures
        r < applied_upto(rows, writes, stored, new_ids, nows, n).len(),
        applied_upto(rows, writes, stored, new_ids, nows, n)[r] == rows[r],
    decreases n,
{
    if n > 0 {
        lemma_finalized_row_survives(rows, writes, stored, new_ids, nows, r, n - 1);
        lemma_writes_keep_shape(rows, writes, stored, new_ids, nows, n - 1);
        let before = applied_upto(rows, writes, stored, new_ids, nows, n - 1);
        let write = writes[n - 1];
        let target = lemma_write_finds_its_row(rows, write, before);
        lemma_upserted_shape(
            before,
            write.existing_id,
            fields_of(write, stored),
            new_ids[n - 1],
            nows[n - 1],
        );
        assert(target != Some(r));
    }
}

/// Writes that are well aimed never touch a finalized rate: where row `r`
/// is the stored rate of its key and was written after the last day of its
/// month, the row is the same after the writes as before them, and no other
/// row comes under its key. This holds of the writes of any number of
/// providers, as long as all were decided against the same table.
pub proof fn law_well_aimed_writes_keep_finalized_rates(
    rows: Seq<CurrencyRateView>,
    writes: Seq<RateUpsertView>,
    stored: spec_fn(Quantity) -> Quantity,
    new_ids: Seq<Seq<char>>,
    nows: Seq<Timestamp>,
    r: int,
)
    requires
        distinct_ids(rows),
        all_well_aimed(rows, writes),
        0 <= r < rows.len(),
        current_row(rows, rows[r].key()) == Some(r),
        is_finalized(rows[r]),
    ensures
        kept(rows, applied_upto(rows, writes, stored, new_ids, nows, writes.len() as int), r),
{
    let n = writes.len() as int;
    let after = applied_upto(rows, writes, stored, new_ids, nows, n);
    lemma_finalized_row_survives(rows, writes, stored, new_ids, nows, r, n);
    lemma_writes_keep_shape(rows, writes, stored, new_ids, nows, n);
    assert forall|j: int|
        0 <= j < after.len() && (#[trigger] after[j]).key() == rows[r].key() implies j
        < rows.len() && rows[j].key() == rows[r].key() by {
        if j < rows.len() {
            assert(anchored(rows, after, j));
        }
    }
}

/// A finalized rate is never written again: where row `r` is the stored
/// rate of its key and was written after the last day of its month, the row
/// is the same after a synchronization as before it, whatever the provider
/// observed for that key, and no other row comes under its key.
pub proof fn law_finalized_rate_is_kept(
    rows: Seq<CurrencyRateView>,
    rates: Seq<ProviderRateView>,
    home: Seq<char>,
    provider: Seq<char>,
    stored: spec_fn(Quantity) -> Quantity,
    new_ids: Seq<Seq<char>>,
    nows: Seq<Timestamp>,
    r: int,
)
    requires
        distinct_ids(rows),
        0 <= r < rows.len(),
        current_row(rows, rows[r].key()) == Some(r),
        is_finalized(rows[r]),
    ensures
        kept(rows, synchronized(rows, rates, home, provider, stored, new_ids, nows), r),
{
    lemma_planned_is_well_aimed(rates, home, provider, rows);
    law_well_aimed_writes_keep_finalized_rates(
        rows,
        planned(rates, home, provider, rows),
        stored,
        new_ids,
        nows,
        r,
    );
}

/// The row holds what the write put into it.
pub open spec fn holds(row: CurrencyRateView, fields: RateFields) -> bool {
    &&& row.from_currency == fields.from_currency
    &&& row.to_currency == fields.to_currency
    &&& row.provider == fields.provider
    &&& row.rate == fields.rate
    &&& row.month == fields.month
    &&& row.year == fields.year
}

/// Two rows are the same but for the instant they were written at.
pub open spec fn same_but_timestamp(a: CurrencyRateView, b: CurrencyRateView) -> bool {
    &&& a.id == b.id
    &&& a.from_currency == b.from_currency
    &&& a.to_currency == b.to_currency
    &&& a.provider == b.provider
    &&& a.rate == b.rate
    &&& a.month == b.month
    &&& a.year == b.year
}

/// No two writes have the same key.
pub open spec fn distinct_write_keys(writes: Seq<RateUpsertView>) -> bool {
    forall|a: int, b: int|
        0 <= a < b < writes.len() ==> (#[trigger] writes[a]).key() != (#[trigger] writes[b]).key()
}

/// The first `n` identifiers are new to the table and differ from each
/// other.
pub open spec fn fresh_ids(rows: Seq<CurrencyRateView>, ids: Seq<Seq<char>>, n: int) -> bool {
    &&& n <= ids.len()
    &&& forall|t: int, j: int|
        0 <= t < n && 0 <= j < rows.len() ==> #[trigger] ids[t] != (#[trigger] rows[j]).id
    &&& forall|a: int, b: int| 0 <= a < b < n ==> #[trigger] ids[a] != #[trigger] ids[b]
}

/// The row that holds `key` and is followed by no other row that does is
/// the stored rate of `key`.
pub proof fn lemma_last_under_key_is_current(rows: Seq<CurrencyRateView>, key: RateKey, i: int)
    requires
        0 <= i < rows.len(),
        rows[i].key() == key,
        forall|j: int| i < j < rows.len() ==> (#[trigger] rows[j]).key() != key,
    ensures
        current_row(rows, key) == Some(i),
{
    lemma_stored_under(rows, key, rows.len() as int);
}

/// The writes planned for the first `n` observations are well aimed, and,
/// where no two observations have the same key, neither have two writes.
pub proof fn lemma_planned_facts(
    rates: Seq<ProviderRateView>,
    home: Seq<char>,
    provider: Seq<char>,
    rows: Seq<CurrencyRateView>,
    n: int,
)
    requires
        0 <= n <= rates.len(),
        distinct_keys(rates),
    ensures
        forall|t: int|
            0 <= t < planned_upto(rates, home, provider, rows, n).len() ==> well_aimed(
                rows,
                #[trigger] planned_upto(rates, home, provider, rows, n)[t],
            ),
        distinct_write_keys(planned_upto(rates, home, provider, rows, n)),
    decreases n,
{
    if n > 0 {
        lemma_planned_facts(rates, home, provider, rows, n - 1);
        let prev = planned_upto(rates, home, provider, rows, n - 1);
        let all = planned_upto(rates, home, provider, rows, n);
        if !frozen(rows, key_of(rates[n - 1], home)) {
            let last = write_of(rates[n - 1], home, provider, rows);
            assert(last.key() == key_of(rates[n - 1], home));
            assert forall|t: int| 0 <= t < all.len() implies well_aimed(rows, #[trigger] all[t]) by {
                if t < prev.len() {
                    assert(all[t] == prev[t]);
                }
            }
            assert forall|a: int, b: int| 0 <= a < b < all.len() implies (#[trigger] all[a]).key()
                != (#[trigger] all[b]).key() by {
                if b < prev.len() {
                    assert(all[a] == prev[a] && all[b] == prev[b]);
                } else {
                    let m = lemma_planned_origin(rates, home, provider, rows, n - 1, a);
                    assert(all[a] == prev[a]);
                    assert(!rates[m].same_key(rates[n - 1]));
                }
            }
        }
    }
}

/// Every observation whose stored rate is not frozen has its write in the
/// plan.
pub proof fn lemma_planned_holds(
    rates: Seq<ProviderRateView>,
    home: Seq<char>,
    provider: Seq<char>,
    rows: Seq<CurrencyRateView>,
    n: int,
    m: int,
) -> (t: int)
    requires
        0 <= m < n <= rates.len(),
        !frozen(rows, key_of(rates[m], home)),
    ensures
        0 <= t < planned_upto(rates, home, provider, rows, n).len(),
        planned_upto(rates, home, provider, rows, n)[t] == write_of(
            rates[m],
            home,
            provider,
            rows,
        ),
    decreases n,
{
    let prev = planned_upto(rates, home, provider, rows, n - 1);
    if m == n - 1 {
        prev.len() as int
    } else {
        lemma_planned_holds(rates, home, provider, rows, n - 1, m)
    }
}

/// Write `t` has landed in row `pos[t]`: the row holds what the write put
/// there, and it is the stored rate the write aimed at, or a row added
/// after those that were there.
pub open spec fn landed(
    start: Seq<CurrencyRateView>,
    writes: Seq<RateUpsertView>,
    stored: spec_fn(Quantity) -> Quantity,
    rows: Seq<CurrencyRateView>,
    pos: Seq<int>,
    t: int,
) -> bool {
    &&& 0 <= pos[t] < rows.len()
    &&& holds(rows[pos[t]], fields_of(writes[t], stored))
    &&& match current_row(start, writes[t].key()) {
        Some(i) => pos[t] == i,
        None => pos[t] >= start.len(),
    }
}

/// Row `j` was added by write `src[j - start.len()]`, under the identifier
/// meant for that write.
pub open spec fn added(
    start: Seq<CurrencyRateView>,
    writes: Seq<RateUpsertView>,
    ids: Seq<Seq<char>>,
    rows: Seq<CurrencyRateView>,
    pos: Seq<int>,
    src: Seq<int>,
    n: int,
    j: int,
) -> bool {
    let t = src[j - start.len()];
    &&& 0 <= t < n
    &&& pos[t] == j
    &&& rows[j].id == ids[t]
    &&& current_row(start, writes[t].key()) is None
}

/// Row `j` still has the identifier and the key it started with.
pub open spec fn anchored(start: Seq<CurrencyRateView>, rows: Seq<CurrencyRateView>, j: int) -> bool {
    rows[j].id == start[j].id && rows[j].key() == start[j].key()
}

/// How the table `rows` after the first `n` writes relates to the table
/// `start` before them.
pub open spec fn first_pass_inv(
    start: Seq<CurrencyRateView>,
    writes: Seq<RateUpsertView>,
    stored: spec_fn(Quantity) -> Quantity,
    ids: Seq<Seq<char>>,
    rows: Seq<CurrencyRateView>,
    n: int,
    pos: Seq<int>,
    src: Seq<int>,
) -> bool {
    &&& start.len() <= rows.len()
    &&& distinct_ids(rows)
    &&& pos.len() == n
    &&& src.len() == rows.len() - start.len()
    &&& forall|j: int| 0 <= j < start.len() ==> #[trigger] anchored(start, rows, j)
    &&& forall|t: int| 0 <= t < n ==> #[trigger] landed(start, writes, stored, rows, pos, t)
    &&& forall|j: int|
        start.len() <= j < rows.len() ==> #[trigger] added(start, writes, ids, rows, pos, src, n, j)
}

/// Well-aimed writes with distinct keys, each adding its row under an
/// identifier of its own, land one by one: every write is found in the
/// table afterwards, in the row it aimed at or in a row it added.
pub proof fn lemma_first_pass(
    start: Seq<CurrencyRateView>,
    writes: Seq<RateUpsertView>,
    stored: spec_fn(Quantity) -> Quantity,
    ids: Seq<Seq<char>>,
    nows: Seq<Timestamp>,
    n: int,
) -> (w: (Seq<int>, Seq<int>))
    requires
        distinct_ids(start),
        0 <= n <= writes.len(),
        forall|t: int| 0 <= t < writes.len() ==> well_aimed(start, #[trigger] writes[t]),
        distinct_write_keys(writes),
        fresh_ids(start, ids, writes.len() as int),
    ensures
        first_pass_inv(
            start,
            writes,
            stored,
            ids,
            applied_upto(start, writes, stored, ids, nows, n),
            n,
            w.0,
            w.1,
        ),
    decreases n,
{
    if n <= 0 {
        let pos = Seq::<int>::empty();
        let src = Seq::<int>::empty();
        assert forall|j: int| 0 <= j < start.len() implies #[trigger] anchored(start, start, j) by {}
        (pos, src)
    } else {
        let (pos0, src0) = lemma_first_pass(start, writes, stored, ids, nows, n - 1);
        let before = applied_upto(start, writes, stored, ids, nows, n - 1);
        let after = applied_upto(start, writes, stored, ids, nows, n);
        let write = writes[n - 1];
        let fields = fields_of(write, stored);
        let key = write.key();
        assert(well_aimed(start, write));
        lemma_upserted_shape(before, write.existing_id, fields, ids[n - 1], nows[n - 1]);
        lemma_stored_under(start, key, start.len() as int);
        match current_row(start, key) {
            Some(i) => {
                assert(anchored(start, before, i));
                lemma_found_under_own_id(before, i);
                assert(target_row(before, write.existing_id) == Some(i));
                assert(after == before.update(i, row_of(before[i].id, fields, nows[n - 1])));
                let pos = pos0.push(i);
                let src = src0;
                assert forall|j: int| 0 <= j < start.len() implies #[trigger] anchored(
                    start,
                    after,
                    j,
                ) by {
                    assert(anchored(start, before, j));
                }
                assert forall|t: int| 0 <= t < n implies #[trigger] landed(
                    start,
                    writes,
                    stored,
                    after,
                    pos,
                    t,
                ) by {
                    if t < n - 1 {
                        assert(landed(start, writes, stored, before, pos0, t));
                        assert(writes[t].key() != writes[n - 1].key());
                        if pos0[t] == i {
                            assert(before[i].key() == writes[t].key());
                        }
                    }
                }
                assert forall|j: int| start.len() <= j < after.len() implies #[trigger] added(
                    start,
                    writes,
                    ids,
                    after,
                    pos,
                    src,
                    n,
                    j,
                ) by {
                    assert(added(start, writes, ids, before, pos0, src0, n - 1, j));
                }
                (pos, src)
            },
            None => {
                assert(target_row(before, write.existing_id) is None);
                lemma_position_of_id(before, ids[n - 1], before.len() as int);
                assert forall|j: int| 0 <= j < before.len() implies (#[trigger] before[j]).id
                    != ids[n - 1] by {
                    if j < start.len() {
                        assert(anchored(start, before, j));
                        assert(ids[n - 1] != start[j].id);
                    } else {
                        assert(added(start, writes, ids, before, pos0, src0, n - 1, j));
                    }
                }
                assert(position_of_id(before, ids[n - 1], before.len() as int) is None);
                assert(after == before.push(row_of(ids[n - 1], fields, nows[n - 1])));
                let pos = pos0.push(before.len() as int);
                let src = src0.push(n - 1);
                assert forall|j: int| 0 <= j < start.len() implies #[trigger] anchored(
                    start,
                    after,
                    j,
                ) by {
                    assert(anchored(start, before, j));
                }
                assert forall|t: int| 0 <= t < n implies #[trigger] landed(
                    start,
                    writes,
                    stored,
                    after,
                    pos,
                    t,
                ) by {
                    if t < n - 1 {
                        assert(landed(start, writes, stored, before, pos0, t));
                    }
                }
                assert forall|j: int| start.len() <= j < after.len() implies #[trigger] added(
                    start,
                    writes,
                    ids,
                    after,
                    pos,
                    src,
                    n,
                    j,
                ) by {
                    if j < before.len() {
                        assert(added(start, writes, ids, before, pos0, src0, n - 1, j));
                    }
                }
                (pos, src)
            },
        }
    }
}

/// The observation is settled in the table: its key has a stored rate, and
/// unless that rate is frozen, it holds what a write of the observation
/// would put there.
pub open spec fn settled(
    rows: Seq<CurrencyRateView>,
    rate: ProviderRateView,
    home: Seq<char>,
    provider: Seq<char>,
    stored: spec_fn(Quantity) -> Quantity,
) -> bool {
    match current_row(rows, key_of(rate, home)) {
        Some(i) => frozen(rows, key_of(rate, home)) || holds(
            rows[i],
            fields_of(write_of(rate, home, provider, rows), stored),
        ),
        None => false,
    }
}

/// After a synchronization in which every added row got an identifier of
/// its own, every observation is settled in the table.
pub proof fn lemma_after_first_pass(
    start: Seq<CurrencyRateView>,
    rates: Seq<ProviderRateView>,
    home: Seq<char>,
    provider: Seq<char>,
    stored: spec_fn(Quantity) -> Quantity,
    ids: Seq<Seq<char>>,
    nows: Seq<Timestamp>,
    m: int,
)
    requires
        distinct_ids(start),
        distinct_keys(rates),
        fresh_ids(start, ids, planned(rates, home, provider, start).len() as int),
        0 <= m < rates.len(),
    ensures
        distinct_ids(synchronized(start, rates, home, provider, stored, ids, nows)),
        settled(
            synchronized(start, rates, home, provider, stored, ids, nows),
            rates[m],
            home,
            provider,
            stored,
        ),
{
    let writes = planned(rates, home, provider, start);
    let n = writes.len() as int;
    lemma_planned_facts(rates, home, provider, start, rates.len() as int);
    let (pos, src) = lemma_first_pass(start, writes, stored, ids, nows, n);
    let after = applied_upto(start, writes, stored, ids, nows, n);
    assert(after == synchronized(start, rates, home, provider, stored, ids, nows));
    let key = key_of(rates[m], home);
    lemma_stored_under(start, key, start.len() as int);
    match current_row(start, key) {
        Some(i) => {
            assert(anchored(start, after, i));
            assert forall|j: int| i < j < after.len() implies (#[trigger] after[j]).key()
                != key by {
                if j < start.len() {
                    assert(anchored(start, after, j));
                    assert(start[j].key() != key);
                } else {
                    let t2 = src[j - start.len()];
                    assert(added(start, writes, ids, after, pos, src, n, j));
                    assert(landed(start, writes, stored, after, pos, t2));
                }
            }
            lemma_last_under_key_is_current(after, key, i);
            if frozen(start, key) {
                lemma_finalized_row_survives(start, writes, stored, ids, nows, i, n);
                assert(after[i] == start[i]);
                assert(frozen(after, key));
            } else {
                let t = lemma_planned_holds(rates, home, provider, start, rates.len() as int, m);
                assert(landed(start, writes, stored, after, pos, t));
                assert(writes[t].key() == key);
                assert(pos[t] == i);
            }
        },
        None => {
            let t = lemma_planned_holds(rates, home, provider, start, rates.len() as int, m);
            assert(landed(start, writes, stored, after, pos, t));
            assert(writes[t].key() == key);
            let p = pos[t];
            assert(after[p].key() == key);
            assert forall|j: int| p < j < after.len() implies (#[trigger] after[j]).key()
                != key by {
                assert(p >= start.len());
                let t2 = src[j - start.len()];
                assert(added(start, writes, ids, after, pos, src, n, j));
                assert(landed(start, writes, stored, after, pos, t2));
                assert(t2 != t);
                if t2 < t {
                    assert(writes[t2].key() != writes[t].key());
                } else {
                    assert(writes[t].key() != writes[t2].key());
                }
            }
            lemma_last_under_key_is_current(after, key, p);
        },
    }
}

/// Where every observation is settled in the table, the writes of a
/// synchronization change no row but for its timestamp, and add none.
pub proof fn lemma_second_pass(
    mid: Seq<CurrencyRateView>,
    rates: Seq<ProviderRateView>,
    home: Seq<char>,
    provider: Seq<char>,
    stored: spec_fn(Quantity) -> Quantity,
    ids: Seq<Seq<char>>,
    nows: Seq<Timestamp>,
    n: int,
)
    requires
        distinct_ids(mid),
        0 <= n <= planned(rates, home, provider, mid).len(),
        forall|m: int|
            0 <= m < rates.len() ==> settled(mid, #[trigger] rates[m], home, provider, stored),
    ensures
        ({
            let after = applied_upto(
                mid,
                planned(rates, home, provider, mid),
                stored,
                ids,
                nows,
                n,
            );
            &&& after.len() == mid.len()
            &&& forall|j: int|
                0 <= j < mid.len() ==> same_but_timestamp(#[trigger] after[j], mid[j])
        }),
    decreases n,
{
    if n > 0 {
        lemma_second_pass(mid, rates, home, provider, stored, ids, nows, n - 1);
        let writes = planned(rates, home, provider, mid);
        let before = applied_upto(mid, writes, stored, ids, nows, n - 1);
        let after = applied_upto(mid, writes, stored, ids, nows, n);
        let write = writes[n - 1];
        let m = lemma_planned_origin(rates, home, provider, mid, rates.len() as int, n - 1);
        let key = key_of(rates[m], home);
        assert(settled(mid, rates[m], home, provider, stored));
        lemma_stored_under(mid, key, mid.len() as int);
        let i = current_row(mid, key).unwrap();
        assert forall|a: int, b: int| 0 <= a < b < before.len() implies (#[trigger] before[a]).id
            != (#[trigger] before[b]).id by {
            assert(same_but_timestamp(before[a], mid[a]));
            assert(same_but_timestamp(before[b], mid[b]));
            assert(mid[a].id != mid[b].id);
        }
        assert(same_but_timestamp(before[i], mid[i]));
        lemma_found_under_own_id(before, i);
        assert(write.existing_id == Some(before[i].id));
        assert(target_row(before, write.existing_id) == Some(i));
        assert(after == before.update(
            i,
            row_of(before[i].id, fields_of(write, stored), nows[n - 1]),
        ));
        assert forall|j: int| 0 <= j < mid.len() implies same_but_timestamp(
            #[trigger] after[j],
            mid[j],
        ) by {
            assert(same_but_timestamp(before[j], mid[j]));
        }
    }
}

/// Synchronizing twice is synchronizing once: after a synchronization in
/// which every added row got an identifier of its own, a second one over
/// the same observations adds no row and changes no row but for the instant
/// it was written at; where the second one has nothing to write, the table
/// is the same.
pub proof fn law_second_synchronization_rewrites_nothing(
    start: Seq<CurrencyRateView>,
    rates: Seq<ProviderRateView>,
    home: Seq<char>,
    provider: Seq<char>,
    stored: spec_fn(Quantity) -> Quantity,
    first_ids: Seq<Seq<char>>,
    first_nows: Seq<Timestamp>,
    second_ids: Seq<Seq<char>>,
    second_nows: Seq<Timestamp>,
)
    requires
        distinct_ids(start),
        distinct_keys(rates),
        fresh_ids(start, first_ids, planned(rates, home, provider, start).len() as int),
    ensures
        ({
            let once = synchronized(start, rates, home, provider, stored, first_ids, first_nows);
            let twice = synchronized(once, rates, home, provider, stored, second_ids, second_nows);
            &&& twice.len() == once.len()
            &&& forall|j: int|
                0 <= j < once.len() ==> same_but_timestamp(#[trigger] twice[j], once[j])
            &&& planned(rates, home, provider, once).len() == 0 ==> twice == once
        }),
{
    let once = synchronized(start, rates, home, provider, stored, first_ids, first_nows);
    assert forall|m: int| 0 <= m < rates.len() implies settled(
        once,
        #[trigger] rates[m],
        home,
        provider,
        stored,
    ) by {
        lemma_after_first_pass(start, rates, home, provider, stored, first_ids, first_nows, m);
    }
    if rates.len() > 0 {
        lemma_after_first_pass(start, rates, home, provider, stored, first_ids, first_nows, 0);
    } else {
        assert(planned(rates, home, provider, start).len() == 0);
        assert(once == start);
    }
    lemma_second_pass(
        once,
        rates,
        home,
        provider,
        stored,
        second_ids,
        second_nows,
        planned(rates, home, provider, once).len() as int,
    );
}

} // verus!
