//! The table of stored rates, as the list of its rows.

use crate::dates::{utc_now, Timestamp};
use crate::models::{row_views, CurrencyRate, CurrencyRateView, Quantity};
use vstd::prelude::*;

verus! {

/// Why a write to the table did not happen.
#[derive(Clone, Copy, Debug, PartialEq, Eq, Structural)]
pub enum StoreError {
    /// A row with the identifier chosen for the new row exists already.
    DuplicateId,
}

/// The text of an optional identifier.
pub open spec fn id_view(id: Option<String>) -> Option<Seq<char>> {
    match id {
        Some(uid) => Some(uid@),
        None => None,
    }
}

/// What a write puts into a row, besides its identifier and its timestamp.
pub struct RateFields {
    pub from_currency: Seq<char>,
    pub to_currency: Seq<char>,
    pub provider: Seq<char>,
    pub rate: Quantity,
    pub month: u32,
    pub year: i32,
}

/// The row that holds `fields` under `id`, written at `now`.
pub open spec fn row_of(id: Seq<char>, fields: RateFields, now: Timestamp) -> CurrencyRateView {
    CurrencyRateView {
        id,
        from_currency: fields.from_currency,
        to_currency: fields.to_currency,
        provider: fields.provider,
        rate: fields.rate,
        month: fields.month,
        year: fields.year,
        timestamp: now,
    }
}

/// The first of the first `n` rows whose identifier is `id`.
pub open spec fn position_of_id(rows: Seq<CurrencyRateView>, id: Seq<char>, n: int) -> Option<int>
    decreases n,
{
    if n <= 0 {
        None
    } else {
        match position_of_id(rows, id, n - 1) {
            Some(i) => Some(i),
            None => if rows[n - 1].id == id {
                Some(n - 1)
            } else {
                None
            },
        }
    }
}

/// The row that a write aimed at `id` updates, if there is one.
pub open spec fn target_row(rows: Seq<CurrencyRateView>, id: Option<Seq<char>>) -> Option<int> {
    match id {
        Some(uid) => position_of_id(rows, uid, rows.len() as int),
        None => None,
    }
}

/// No two rows share an identifier.
pub open spec fn distinct_ids(rows: Seq<CurrencyRateView>) -> bool {
    forall|a: int, b: int|
        0 <= a < b < rows.len() ==> (#[trigger] rows[a]).id != (#[trigger] rows[b]).id
}

/// The table after a write: the row aimed at is updated in place and keeps
/// its identifier; where there is none, a row with the new identifier is
/// added at the end, unless that identifier is taken already.
pub open spec fn upserted(
    rows: Seq<CurrencyRateView>,
    id: Option<Seq<char>>,
    fields: RateFields,
    new_id: Seq<char>,
    now: Timestamp,
) -> Seq<CurrencyRateView> {
    match target_row(rows, id) {
        Some(i) => rows.update(i, row_of(rows[i].id, fields, now)),
        None => if position_of_id(rows, new_id, rows.len() as int) is Some {
            rows
        } else {
            rows.push(row_of(new_id, fields, now))
        },
    }
}

/// Those of the first `n` rows that are of the month `(year, month)`, in
/// their order.
pub open spec fn dated_upto(rows: Seq<CurrencyRate>, year: i32, month: u32, n: int) -> Seq<
    CurrencyRate,
>
    decreases n,
{
    if n <= 0 {
        Seq::empty()
    } else if rows[n - 1].year == year && rows[n - 1].month == month {
        dated_upto(rows, year, month, n - 1).push(rows[n - 1])
    } else {
        dated_upto(rows, year, month, n - 1)
    }
}

/// Those of the first `n` rows whose identifier is not `id`, in their
/// order.
pub open spec fn without_id(rows: Seq<CurrencyRate>, id: Seq<char>, n: int) -> Seq<CurrencyRate>
    decreases n,
{
    if n <= 0 {
        Seq::empty()
    } else if rows[n - 1].id@ == id {
        without_id(rows, id, n - 1)
    } else {
        without_id(rows, id, n - 1).push(rows[n - 1])
    }
}

/// What `position_of_id` finds is a row with that identifier, the first one;
/// where it finds none, there is none.
pub proof fn lemma_position_of_id(rows: Seq<CurrencyRateView>, id: Seq<char>, n: int)
    requires
        0 <= n <= rows.len(),
    ensures
        match position_of_id(rows, id, n) {
            Some(i) => 0 <= i < n && rows[i].id == id && forall|j: int|
                0 <= j < i ==> (#[trigger] rows[j]).id != id,
            None => forall|j: int| 0 <= j < n ==> (#[trigger] rows[j]).id != id,
        },
    decreases n,
{
    if n > 0 {
        lemma_position_of_id(rows, id, n - 1);
    }
}

/// Makes an identifier for a new row with `uuid::Uuid::new_v4()`, written
/// out by its `to_string()`. Trusted: nothing is claimed of the identifier.
/// The call panics where the machine has no source of random numbers.
#[verifier::external_body]
pub(crate) fn new_row_id() -> (id: String) {
    uuid::Uuid::new_v4().to_string()
}

/// The table of stored rates: reading, writing and deleting rows.
pub struct CurrencyRateService;

impl CurrencyRateService {
    /// The position of the first row whose identifier is `id`.
    pub fn find_by_id(rows: &Vec<CurrencyRate>, id: &String) -> (r: Option<usize>)
        ensures
            match r {
                Some(i) => position_of_id(row_views(rows@), id@, rows.len() as int) == Some(
                    i as int,
                ) && i < rows.len(),
                None => position_of_id(row_views(rows@), id@, rows.len() as int) is None,
            },
    {
        let mut i: usize = 0;
        while i < rows.len()
            invariant
                0 <= i <= rows.len(),
                position_of_id(row_views(rows@), id@, i as int) is None,
            decreases rows.len() - i,
        {
            if rows[i].id == *id {
                proof {
                    let ghost views = row_views(rows@);
                    assert(views[i as int].id == id@);
                    assert(position_of_id(views, id@, i + 1) == Some(i as int));
                    lemma_position_found_stays(views, id@, i + 1, rows.len() as int);
                }
                return Some(i);
            }
            assert(row_views(rows@)[i as int].id != id@);
            i = i + 1;
        }
        None
    }

    /// The row whose identifier is `id`, if there is one.
    pub fn get_by_id(rows: &Vec<CurrencyRate>, id: &String) -> (r: Option<CurrencyRate>)
        ensures
            match position_of_id(row_views(rows@), id@, rows.len() as int) {
                Some(i) => r == Some(rows[i]),
                None => r is None,
            },
    {
        match Self::find_by_id(rows, id) {
            Some(i) => Some(rows[i].duplicate()),
            None => None,
        }
    }

    /// The rows of the month `(year, month)`, in their order.
    pub fn get_by_date(rows: &Vec<CurrencyRate>, year: i32, month: u32) -> (r: Vec<CurrencyRate>)
        ensures
            r@ == dated_upto(rows@, year, month, rows.len() as int),
    {
        let mut found: Vec<CurrencyRate> = Vec::new();
        let mut i: usize = 0;
        while i < rows.len()
            invariant
                0 <= i <= rows.len(),
                found@ == dated_upto(rows@, year, month, i as int),
            decreases rows.len() - i,
        {
            if rows[i].year == year && rows[i].month == month {
                found.push(rows[i].duplicate());
            }
            i = i + 1;
        }
        found
    }

    /// Takes every row whose identifier is `id` out of the table.
    pub fn delete(rows: &mut Vec<CurrencyRate>, id: &String)
        ensures
            final(rows)@ == without_id(old(rows)@, id@, old(rows).len() as int),
    {
        let mut kept: Vec<CurrencyRate> = Vec::new();
        let mut i: usize = 0;
        while i < rows.len()
            invariant
                0 <= i <= rows.len(),
                rows@ == old(rows)@,
                kept@ == without_id(rows@, id@, i as int),
            decreases rows.len() - i,
        {
            if !(rows[i].id == *id) {
                kept.push(rows[i].duplicate());
            }
            i = i + 1;
        }
        *rows = kept;
    }

    /// Writes a rate: updates the row `id` where it exists, else adds a row
    /// under `new_id`. The row written carries the timestamp `now`.
    pub fn upsert_with(
        rows: &mut Vec<CurrencyRate>,
        id: Option<String>,
        from_currency: String,
        to_currency: String,
        provider: String,
        rate: Quantity,
        month: u32,
        year: i32,
        new_id: String,
        now: Timestamp,
    ) -> (r: Result<CurrencyRate, StoreError>)
        ensures
            row_views(final(rows)@) == upserted(
                row_views(old(rows)@),
                id_view(id),
                (RateFields {
                    from_currency: from_currency@,
                    to_currency: to_currency@,
                    provider: provider@,
                    rate,
                    month,
                    year,
                }),
                new_id@,
                now,
            ),
            match r {
                Ok(row) => {
                    &&& row@.from_currency == from_currency@
                    &&& row@.to_currency == to_currency@
                    &&& row@.provider == provider@
                    &&& row@.rate == rate
                    &&& row@.month == month
                    &&& row@.year == year
                    &&& row@.timestamp == now
                    &&& row@.id == (match target_row(
                        row_views(old(rows)@),
                        id_view(id),
                    ) {
                        Some(i) => row_views(old(rows)@)[i].id,
                        None => new_id@,
                    })
                },
                Err(e) => e == StoreError::DuplicateId && row_views(final(rows)@) == row_views(
                    old(rows)@,
                ),
            },
            r is Err <==> target_row(
                row_views(old(rows)@),
                id_view(id),
            ) is None && position_of_id(row_views(old(rows)@), new_id@, old(rows).len() as int)
                is Some,
    {
        let ghost before = row_views(rows@);
        let ghost fields = RateFields {
            from_currency: from_currency@,
            to_currency: to_currency@,
            provider: provider@,
            rate,
            month,
            year,
        };
        let target: Option<usize> = match &id {
            Some(uid) => Self::find_by_id(rows, uid),
            None => None,
        };
        match target {
            Some(i) => {
                let kept_id = rows[i].id.clone();
                let written = CurrencyRate {
                    id: kept_id.clone(),
                    from_currency: from_currency.clone(),
                    to_currency: to_currency.clone(),
                    provider: provider.clone(),
                    rate,
                    month,
                    year,
                    timestamp: now,
                };
                let row = CurrencyRate {
                    id: kept_id,
                    from_currency,
                    to_currency,
                    provider,
                    rate,
                    month,
                    year,
                    timestamp: now,
                };
                rows.set(i, row);
                proof {
                    assert(row_views(rows@) =~= before.update(
                        i as int,
                        row_of(before[i as int].id, fields, now),
                    ));
                }
                Ok(written)
            },
            None => {
                if Self::find_by_id(rows, &new_id).is_some() {
                    Err(StoreError::DuplicateId)
                } else {
                    let written = CurrencyRate {
                        id: new_id.clone(),
                        from_currency: from_currency.clone(),
                        to_currency: to_currency.clone(),
                        provider: provider.clone(),
                        rate,
                        month,
                        year,
                        timestamp: now,
                    };
                    let row = CurrencyRate {
                        id: new_id,
                        from_currency,
                        to_currency,
                        provider,
                        rate,
                        month,
                        year,
                        timestamp: now,
                    };
                    rows.push(row);
                    proof {
                        assert(row_views(rows@) =~= before.push(row_of(new_id@, fields, now)));
                    }
                    Ok(written)
                }
            },
        }
    }

    /// Writes a rate as `upsert_with` does, under a fresh random identifier
    /// where a row is added, and with the current instant as timestamp.
    pub fn upsert(
        rows: &mut Vec<CurrencyRate>,
        id: Option<String>,
        from_currency: String,
        to_currency: String,
        provider: String,
        rate: Quantity,
        month: u32,
        year: i32,
    ) -> (r: Result<CurrencyRate, StoreError>)
        ensures
            r matches Ok(row) ==> exists|new_id: Seq<char>, now: Timestamp|
                now.wf() && row_views(final(rows)@) == #[trigger] upserted(
                    row_views(old(rows)@),
                    id_view(id),
                    (RateFields {
                        from_currency: from_currency@,
                        to_currency: to_currency@,
                        provider: provider@,
                        rate,
                        month,
                        year,
                    }),
                    new_id,
                    now,
                ) && row@ == row_of(
                    match target_row(row_views(old(rows)@), id_view(id)) {
                        Some(i) => row_views(old(rows)@)[i].id,
                        None => new_id,
                    },
                    (RateFields {
                        from_currency: from_currency@,
                        to_currency: to_currency@,
                        provider: provider@,
                        rate,
                        month,
                        year,
                    }),
                    now,
                ),
            r is Err ==> row_views(final(rows)@) == row_views(old(rows)@),
            target_row(row_views(old(rows)@), id_view(id)) is Some ==> r is Ok,
    {
        let now = utc_now();
        let new_id = new_row_id();
        let ghost before = row_views(rows@);
        let ghost fields = RateFields {
            from_currency: from_currency@,
            to_currency: to_currency@,
            provider: provider@,
            rate,
            month,
            year,
        };
        let ghost new_text = new_id@;
        let r = Self::upsert_with(
            rows,
            id,
            from_currency,
            to_currency,
            provider,
            rate,
            month,
            year,
            new_id,
            now,
        );
        proof {
            if r is Ok {
                let row = r.unwrap();
                assert(row@ == row_of(
                    match target_row(before, id_view(id)) {
                        Some(i) => before[i].id,
                        None => new_text,
                    },
                    fields,
                    now,
                ));
                assert(row_views(rows@) == upserted(before, id_view(id), fields, new_text, now));
            }
        }
        r
    }
}

/// Once a row with the identifier is found among the first `n` rows, it is
/// the one found among any more of them.
pub proof fn lemma_position_found_stays(
    rows: Seq<CurrencyRateView>,
    id: Seq<char>,
    n: int,
    m: int,
)
    requires
        0 <= n <= m <= rows.len(),
        position_of_id(rows, id, n) is Some,
    ensures
        position_of_id(rows, id, m) == position_of_id(rows, id, n),
    decreases m - n,
{
    if n < m {
        lemma_position_found_stays(rows, id, n, m - 1);
    }
}

} // verus!
