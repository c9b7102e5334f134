//! Dated rate observations and the rule that picks, for each calendar month,
//! the observation with the latest date.

use crate::dates::{date_before, parse_date, parsed_date, Date};
use crate::models::Quantity;
use vstd::prelude::*;

verus! {

/// The value a provider quotes for one currency.
#[derive(Clone, Debug)]
pub struct CurrencyValue {
    pub currency: String,
    pub value: Quantity,
}

/// What a provider quotes on one day: the day as text, and one value per
/// currency.
#[derive(Clone, Debug)]
pub struct DatedRates {
    pub date: String,
    pub rates: Vec<CurrencyValue>,
}

impl DatedRates {
    /// No currency is quoted twice.
    pub open spec fn wf(&self) -> bool {
        forall|a: int, b: int|
            0 <= a < b < self.rates.len() ==> (#[trigger] self.rates[a]).currency@ != (
            #[trigger] self.rates[b]).currency@
    }
}

/// The date of each observation, read under `format`; `None` where the text
/// is no date.
pub open spec fn observed_dates(obs: Seq<DatedRates>, format: Seq<char>) -> Seq<Option<Date>> {
    Seq::new(obs.len(), |i: int| parsed_date(obs[i].date@, format))
}

/// Observation `j` takes the month away from observation `i`: both fall in
/// the same month, and `j` is later, or on the same day and earlier in the
/// list.
pub open spec fn outranks(dates: Seq<Option<Date>>, j: int, i: int) -> bool {
    &&& dates[i] is Some
    &&& dates[j] is Some
    &&& dates[j].unwrap().year == dates[i].unwrap().year
    &&& dates[j].unwrap().month == dates[i].unwrap().month
    &&& (date_before(dates[i].unwrap(), dates[j].unwrap()) || (dates[j] == dates[i] && j < i))
}

/// Observation `i` speaks for its month: it has a date, and no observation
/// of the list takes the month away from it.
pub open spec fn wins_month(dates: Seq<Option<Date>>, i: int) -> bool {
    &&& 0 <= i < dates.len()
    &&& dates[i] is Some
    &&& forall|j: int| 0 <= j < dates.len() ==> !#[trigger] outranks(dates, j, i)
}

/// Two observations that both speak for the same month are one and the same.
pub proof fn lemma_one_winner_per_month(dates: Seq<Option<Date>>, i: int, j: int)
    requires
        wins_month(dates, i),
        wins_month(dates, j),
        dates[i].unwrap().year == dates[j].unwrap().year,
        dates[i].unwrap().month == dates[j].unwrap().month,
    ensures
        i == j,
{
    assert(!outranks(dates, j, i));
    assert(!outranks(dates, i, j));
}

/// Reads the date of every observation under `format`.
pub fn parse_dates(obs: &Vec<DatedRates>, format: &str) -> (dates: Vec<Option<Date>>)
    ensures
        dates@ == observed_dates(obs@, format@),
        forall|i: int| 0 <= i < dates.len() && (#[trigger] dates[i]) is Some ==> dates[i].unwrap().wf(),
{
    let mut dates: Vec<Option<Date>> = Vec::new();
    let mut i: usize = 0;
    while i < obs.len()
        invariant
            0 <= i <= obs.len(),
            dates.len() == i,
            forall|k: int| 0 <= k < i ==> #[trigger] dates[k] == parsed_date(obs[k].date@, format@),
            forall|k: int| 0 <= k < i && (#[trigger] dates[k]) is Some ==> dates[k].unwrap().wf(),
        decreases obs.len() - i,
    {
        let d = parse_date(obs[i].date.as_str(), format);
        dates.push(d);
        i = i + 1;
    }
    assert(dates@ =~= observed_dates(obs@, format@));
    dates
}

/// Whether observation `i` speaks for its month.
pub fn is_month_winner(dates: &Vec<Option<Date>>, i: usize) -> (r: bool)
    requires
        i < dates.len(),
    ensures
        r == wins_month(dates@, i as int),
{
    match dates[i] {
        None => false,
        Some(d) => {
            let mut j: usize = 0;
            while j < dates.len()
                invariant
                    0 <= j <= dates.len(),
                    i < dates.len(),
                    dates[i as int] == Some(d),
                    forall|k: int| 0 <= k < j ==> !#[trigger] outranks(dates@, k, i as int),
                decreases dates.len() - j,
            {
                match dates[j] {
                    None => {},
                    Some(e) => {
                        if e.year == d.year && e.month == d.month && (e.is_after(&d) || (e == d
                            && j < i)) {
                            assert(outranks(dates@, j as int, i as int));
                            return false;
                        }
                    },
                }
                j = j + 1;
            }
            true
        },
    }
}

} // verus!
