//! The net-worth series: what every ledger entry contributes to its month,
//! in the home currency, for every month that is not in the future.

use crate::currency_rates::sync::{current_row, SyncService};
use crate::dates::{local_today, Date};
use crate::models::{
    row_views, Account, BalanceSheet, CurrencyRate, CurrencyRateView, Entry, Quantity, RateKey,
    UserSettings,
};
use vstd::prelude::*;
use vstd::string::*;

verus! {

/// Why no series could be made.
#[derive(Clone, Copy, Debug, PartialEq, Eq, Structural)]
pub enum NetWorthError {
    /// There are no user settings, so no home currency.
    SettingsNotFound,
    /// An entry names a balance sheet that is not among the balance sheets.
    BalanceSheetNotFound,
    /// An entry names an account that is not among the accounts.
    AccountNotFound,
}

impl NetWorthError {
    /// The error in words.
    pub fn message(&self) -> (r: &'static str)
        ensures
            r@ == (match *self {
                NetWorthError::SettingsNotFound => "User settings not found"@,
                NetWorthError::BalanceSheetNotFound => "Balance sheet not found for entry"@,
                NetWorthError::AccountNotFound => "Account not found for entry"@,
            }),
    {
        match self {
            NetWorthError::SettingsNotFound => "User settings not found",
            NetWorthError::BalanceSheetNotFound => "Balance sheet not found for entry",
            NetWorthError::AccountNotFound => "Account not found for entry",
        }
    }
}

/// A calendar month.
#[derive(Clone, Copy, Debug, PartialEq, Eq, Structural)]
pub struct Period {
    pub year: i32,
    pub month: u32,
}

/// `a` is an earlier month than `b`.
pub open spec fn period_before(a: Period, b: Period) -> bool {
    a.year < b.year || (a.year == b.year && a.month < b.month)
}

/// By what an amount is multiplied to express it in the home currency.
#[derive(Clone, Copy, Debug, PartialEq, Eq, Structural)]
pub enum Factor {
    /// The account is held in the home currency: the amount stands as it is.
    SameCurrency,
    /// The stored rate of the account's currency for the month.
    Stored(Quantity),
    /// There is no stored rate for the month: the amount counts once, as if
    /// the rate were one.
    Missing,
}

/// What one entry contributes: its amount, and the factor that brings it
/// into the home currency.
#[derive(Clone, Copy, Debug, PartialEq, Eq, Structural)]
pub struct Term {
    pub amount: Quantity,
    pub factor: Factor,
}

/// An entry with its month, its side of the balance and its term resolved.
#[derive(Clone, Copy, Debug, PartialEq, Eq, Structural)]
pub struct Posting {
    pub period: Period,
    pub is_asset: bool,
    pub term: Term,
}

/// One month of the series: the terms of its assets and of its liabilities,
/// each in the order of the entries. The total of a side is the sum of its
/// terms, taken in that order; net worth is assets less liabilities.
#[derive(Clone, Debug)]
pub struct MonthlyPosition {
    pub year: i32,
    pub month: u32,
    pub assets: Vec<Term>,
    pub liabilities: Vec<Term>,
    pub currency: String,
}

/// A `MonthlyPosition` as a mathematical value.
pub struct MonthlyPositionView {
    pub period: Period,
    pub assets: Seq<Term>,
    pub liabilities: Seq<Term>,
    pub currency: Seq<char>,
}

impl View for MonthlyPosition {
    type V = MonthlyPositionView;

    open spec fn view(&self) -> MonthlyPositionView {
        MonthlyPositionView {
            period: Period { year: self.year, month: self.month },
            assets: self.assets@,
            liabilities: self.liabilities@,
            currency: self.currency@,
        }
    }
}

/// The views of a series.
pub open spec fn position_views(series: Seq<MonthlyPosition>) -> Seq<MonthlyPositionView> {
    series.map_values(|p: MonthlyPosition| p@)
}

/// The year of the last of the first `n` balance sheets whose identifier is
/// `id`.
pub open spec fn sheet_year(sheets: Seq<BalanceSheet>, id: Seq<char>, n: int) -> Option<i32>
    decreases n,
{
    if n <= 0 {
        None
    } else if sheets[n - 1].id@ == id {
        Some(sheets[n - 1].year)
    } else {
        sheet_year(sheets, id, n - 1)
    }
}

/// The position of the last of the first `n` accounts whose identifier is
/// `id`.
pub open spec fn account_at(accounts: Seq<Account>, id: Seq<char>, n: int) -> Option<int>
    decreases n,
{
    if n <= 0 {
        None
    } else if accounts[n - 1].id@ == id {
        Some(n - 1)
    } else {
        account_at(accounts, id, n - 1)
    }
}

/// The factor for an amount in `currency` in the month `period`.
pub open spec fn factor_of(
    currency: Seq<char>,
    home: Seq<char>,
    period: Period,
    rates: Seq<CurrencyRateView>,
) -> Factor {
    if currency == home {
        Factor::SameCurrency
    } else {
        match current_row(
            rates,
            RateKey {
                from_currency: currency,
                to_currency: home,
                year: period.year,
                month: period.month,
            },
        ) {
            Some(i) => Factor::Stored(rates[i].rate),
            None => Factor::Missing,
        }
    }
}

/// The entry resolved against the balance sheets, the accounts and the
/// stored rates; the balance sheet is looked up first.
pub open spec fn resolved(
    entry: Entry,
    sheets: Seq<BalanceSheet>,
    accounts: Seq<Account>,
    rates: Seq<CurrencyRateView>,
    home: Seq<char>,
) -> Result<Posting, NetWorthError> {
    match sheet_year(sheets, entry.balance_sheet_id@, sheets.len() as int) {
        None => Err(NetWorthError::BalanceSheetNotFound),
        Some(year) => match account_at(accounts, entry.account_id@, accounts.len() as int) {
            None => Err(NetWorthError::AccountNotFound),
            Some(a) => {
                let period = Period { year, month: entry.month };
                Ok(
                    Posting {
                        period,
                        is_asset: accounts[a].account_type@ == "Asset"@,
                        term: Term {
                            amount: entry.amount,
                            factor: factor_of(accounts[a].currency@, home, period, rates),
                        },
                    },
                )
            },
        },
    }
}

/// The first `n` entries resolved, in their order; the error of the first
/// entry that does not resolve, if there is one.
pub open spec fn postings_upto(
    entries: Seq<Entry>,
    sheets: Seq<BalanceSheet>,
    accounts: Seq<Account>,
    rates: Seq<CurrencyRateView>,
    home: Seq<char>,
    n: int,
) -> Result<Seq<Posting>, NetWorthError>
    decreases n,
{
    if n <= 0 {
        Ok(Seq::empty())
    } else {
        match postings_upto(entries, sheets, accounts, rates, home, n - 1) {
            Err(e) => Err(e),
            Ok(ps) => match resolved(entries[n - 1], sheets, accounts, rates, home) {
                Err(e) => Err(e),
                Ok(p) => Ok(ps.push(p)),
            },
        }
    }
}

/// The terms of the first `n` postings that fall in `period` on the given
/// side, in their order.
pub open spec fn terms_of(postings: Seq<Posting>, period: Period, asset_side: bool, n: int) -> Seq<
    Term,
>
    decreases n,
{
    if n <= 0 {
        Seq::empty()
    } else if postings[n - 1].period == period && postings[n - 1].is_asset == asset_side {
        terms_of(postings, period, asset_side, n - 1).push(postings[n - 1].term)
    } else {
        terms_of(postings, period, asset_side, n - 1)
    }
}

/// Some posting falls in `period`.
pub open spec fn has_posting(postings: Seq<Posting>, period: Period) -> bool {
    exists|j: int| 0 <= j < postings.len() && (#[trigger] postings[j]).period == period
}

/// The months are in ascending order, none twice.
pub open spec fn ascending(periods: Seq<Period>) -> bool {
    forall|a: int, b: int|
        0 <= a < b < periods.len() ==> period_before(#[trigger] periods[a], #[trigger] periods[b])
}

/// `periods` are the months of the postings that are not later than `now`,
/// each once, in ascending order.
pub open spec fn months_of(periods: Seq<Period>, postings: Seq<Posting>, now: Period) -> bool {
    &&& ascending(periods)
    &&& forall|k: int|
        0 <= k < periods.len() ==> !period_before(now, #[trigger] periods[k]) && has_posting(
            postings,
            periods[k],
        )
    &&& forall|j: int|
        0 <= j < postings.len() && !period_before(now, (#[trigger] postings[j]).period)
            ==> periods.contains(postings[j].period)
}

/// `series` is the net-worth series of the postings as of the month `now`:
/// one position for every month that has a posting and is not later than
/// `now`, in ascending order, each with all the terms of its month and in
/// the home currency.
pub open spec fn is_series(
    series: Seq<MonthlyPositionView>,
    postings: Seq<Posting>,
    home: Seq<char>,
    now: Period,
) -> bool {
    &&& months_of(series.map_values(|p: MonthlyPositionView| p.period), postings, now)
    &&& forall|k: int|
        0 <= k < series.len() ==> {
            &&& (#[trigger] series[k]).assets == terms_of(
                postings,
                series[k].period,
                true,
                postings.len() as int,
            )
            &&& series[k].liabilities == terms_of(
                postings,
                series[k].period,
                false,
                postings.len() as int,
            )
            &&& series[k].currency == home
        }
}

/// The last position of a series, if it has one.
pub open spec fn latest_of(series: Seq<MonthlyPositionView>) -> Option<MonthlyPositionView> {
    if series.len() == 0 {
        None
    } else {
        Some(series.last())
    }
}

/// The view of a position that may be absent.
pub open spec fn position_view(position: Option<MonthlyPosition>) -> Option<MonthlyPositionView> {
    match position {
        Some(p) => Some(p@),
        None => None,
    }
}

/// The month a date falls in.
pub open spec fn month_of(date: Date) -> Period {
    Period { year: date.year, month: date.month }
}

/// Some of the first `n` postings falls in `period`.
pub open spec fn has_posting_upto(postings: Seq<Posting>, period: Period, n: int) -> bool {
    exists|j: int| 0 <= j < n && j < postings.len() && (#[trigger] postings[j]).period == period
}

impl Period {
    /// Whether `self` is an earlier month than `other`.
    pub fn is_before(&self, other: &Period) -> (r: bool)
        ensures
            r == period_before(*self, *other),
    {
        self.year < other.year || (self.year == other.year && self.month < other.month)
    }
}

/// The aggregation of the ledger into the net-worth series.
pub struct NetWorthService;

impl NetWorthService {
    /// The year of the balance sheet `id`.
    pub fn find_sheet_year(sheets: &Vec<BalanceSheet>, id: &String) -> (r: Option<i32>)
        ensures
            r == sheet_year(sheets@, id@, sheets.len() as int),
    {
        let mut found: Option<i32> = None;
        let mut i: usize = 0;
        while i < sheets.len()
            invariant
                0 <= i <= sheets.len(),
                found == sheet_year(sheets@, id@, i as int),
            decreases sheets.len() - i,
        {
            if sheets[i].id == *id {
                found = Some(sheets[i].year);
            }
            i = i + 1;
        }
        found
    }

    /// The position of the account `id`.
    pub fn find_account(accounts: &Vec<Account>, id: &String) -> (r: Option<usize>)
        ensures
            match r {
                Some(a) => a < accounts.len() && account_at(
                    accounts@,
                    id@,
                    accounts.len() as int,
                ) == Some(a as int),
                None => account_at(accounts@, id@, accounts.len() as int) is None,
            },
    {
        let mut found: Option<usize> = None;
        let mut i: usize = 0;
        while i < accounts.len()
            invariant
                0 <= i <= accounts.len(),
                match found {
                    Some(a) => a < i && account_at(accounts@, id@, i as int) == Some(a as int),
                    None => account_at(accounts@, id@, i as int) is None,
                },
            decreases accounts.len() - i,
        {
            if accounts[i].id == *id {
                found = Some(i);
            }
            i = i + 1;
        }
        found
    }

    /// Resolves one entry: its year from its balance sheet, its side and
    /// currency from its account, its factor from the stored rates.
    pub fn resolve_entry(
        entry: &Entry,
        sheets: &Vec<BalanceSheet>,
        accounts: &Vec<Account>,
        rates: &Vec<CurrencyRate>,
        home_currency: &String,
    ) -> (r: Result<Posting, NetWorthError>)
        ensures
            r == resolved(*entry, sheets@, accounts@, row_views(rates@), home_currency@),
    {
        let year = match Self::find_sheet_year(sheets, &entry.balance_sheet_id) {
            Some(year) => year,
            None => {
                return Err(NetWorthError::BalanceSheetNotFound);
            },
        };
        let account = match Self::find_account(accounts, &entry.account_id) {
            Some(a) => &accounts[a],
            None => {
                return Err(NetWorthError::AccountNotFound);
            },
        };
        let period = Period { year, month: entry.month };
        let factor = if account.currency == *home_currency {
            Factor::SameCurrency
        } else {
            match SyncService::find_existing(
                rates,
                year,
                entry.month,
                &account.currency,
                home_currency,
            ) {
                Some(i) => {
                    assert(row_views(rates@)[i as int] == rates[i as int]@);
                    Factor::Stored(rates[i].rate)
                },
                None => Factor::Missing,
            }
        };
        let asset_label = String::from_str("Asset");
        Ok(
            Posting {
                period,
                is_asset: account.account_type == asset_label,
                term: Term { amount: entry.amount, factor },
            },
        )
    }

    /// Resolves every entry, in order; fails with the error of the first
    /// entry that does not resolve.
    pub fn resolve_entries(
        entries: &Vec<Entry>,
        sheets: &Vec<BalanceSheet>,
        accounts: &Vec<Account>,
        rates: &Vec<CurrencyRate>,
        home_currency: &String,
    ) -> (r: Result<Vec<Posting>, NetWorthError>)
        ensures
            match r {
                Ok(ps) => postings_upto(
                    entries@,
                    sheets@,
                    accounts@,
                    row_views(rates@),
                    home_currency@,
                    entries.len() as int,
                ) == Ok::<Seq<Posting>, NetWorthError>(ps@),
                Err(e) => postings_upto(
                    entries@,
                    sheets@,
                    accounts@,
                    row_views(rates@),
                    home_currency@,
                    entries.len() as int,
                ) == Err::<Seq<Posting>, NetWorthError>(e),
            },
    {
        let mut postings: Vec<Posting> = Vec::new();
        let mut i: usize = 0;
        while i < entries.len()
            invariant
                0 <= i <= entries.len(),
                postings_upto(
                    entries@,
                    sheets@,
                    accounts@,
                    row_views(rates@),
                    home_currency@,
                    i as int,
                ) == Ok::<Seq<Posting>, NetWorthError>(postings@),
            decreases entries.len() - i,
        {
            match Self::resolve_entry(&entries[i], sheets, accounts, rates, home_currency) {
                Ok(p) => {
                    postings.push(p);
                },
                Err(e) => {
                    proof {
                        lemma_error_stays(
                            entries@,
                            sheets@,
                            accounts@,
                            row_views(rates@),
                            home_currency@,
                            i + 1,
                            entries.len() as int,
                        );
                    }
                    return Err(e);
                },
            }
            i = i + 1;
        }
        Ok(postings)
    }

    /// The months of the postings that are not later than `now`, each once,
    /// in ascending order.
    pub fn collect_months(postings: &Vec<Posting>, now: Period) -> (months: Vec<Period>)
        ensures
            months_of(months@, postings@, now),
    {
        let mut months: Vec<Period> = Vec::new();
        let mut i: usize = 0;
        while i < postings.len()
            invariant
                0 <= i <= postings.len(),
                ascending(months@),
                forall|k: int|
                    0 <= k < months.len() ==> !period_before(now, #[trigger] months[k])
                        && has_posting_upto(postings@, months[k], i as int),
                forall|j: int|
                    0 <= j < i && !period_before(now, (#[trigger] postings[j]).period)
                        ==> months@.contains(postings[j].period),
            decreases postings.len() - i,
        {
            let p = postings[i].period;
            if !now.is_before(&p) {
                let mut idx: usize = 0;
                while idx < months.len() && months[idx].is_before(&p)
                    invariant
                        0 <= idx <= months.len(),
                        forall|k: int| 0 <= k < idx ==> period_before(#[trigger] months[k], p),
                    decreases months.len() - idx,
                {
                    idx = idx + 1;
                }
                if idx < months.len() && months[idx] == p {
                    assert(months@.contains(p));
                    proof {
                        lemma_months_keep_postings(postings@, months@, i as int, i + 1);
                    }
                } else {
                    let ghost before = months@;
                    months.insert(idx, p);
                    proof {
                        let after = months@;
                        assert(after[idx as int] == p);
                        assert forall|a: int, b: int| 0 <= a < b < after.len() implies period_before(
                            #[trigger] after[a],
                            #[trigger] after[b],
                        ) by {
                            if a < idx && b > idx {
                                assert(after[a] == before[a] && after[b] == before[b - 1]);
                            } else if a < idx && b < idx {
                                assert(after[a] == before[a] && after[b] == before[b]);
                            } else if a > idx {
                                assert(after[a] == before[a - 1] && after[b] == before[b - 1]);
                            } else if a == idx {
                                assert(after[b] == before[b - 1]);
                                assert(!period_before(before[idx as int], p));
                                if b - 1 > idx {
                                    assert(period_before(before[idx as int], before[b - 1]));
                                }
                            } else {
                                assert(b == idx);
                                assert(after[a] == before[a]);
                            }
                        }
                        assert forall|k: int| 0 <= k < after.len() implies !period_before(
                            now,
                            #[trigger] after[k],
                        ) && has_posting_upto(postings@, after[k], i + 1) by {
                            if k < idx {
                                assert(after[k] == before[k]);
                                lemma_has_posting_grows(postings@, before[k], i as int, i + 1);
                            } else if k > idx {
                                assert(after[k] == before[k - 1]);
                                lemma_has_posting_grows(postings@, before[k - 1], i as int, i + 1);
                            } else {
                                assert(postings@[i as int].period == p);
                            }
                        }
                        assert forall|j: int|
                            0 <= j < i + 1 && !period_before(
                                now,
                                (#[trigger] postings[j]).period,
                            ) implies after.contains(postings[j].period) by {
                            if j < i {
                                assert(before.contains(postings[j].period));
                                let k = choose|k: int|
                                    0 <= k < before.len() && before[k] == postings[j].period;
                                if k < idx {
                                    assert(after[k] == before[k]);
                                } else {
                                    assert(after[k + 1] == before[k]);
                                }
                            } else {
                                assert(after[idx as int] == postings[j].period);
                            }
                        }
                    }
                }
            } else {
                proof {
                    lemma_months_keep_postings(postings@, months@, i as int, i + 1);
                }
            }
            i = i + 1;
        }
        proof {
            assert forall|k: int| 0 <= k < months.len() implies has_posting(
                postings@,
                #[trigger] months[k],
            ) by {
                assert(has_posting_upto(postings@, months[k], postings.len() as int));
            }
        }
        months
    }

    /// The terms of the postings that fall in `period` on the given side, in
    /// their order.
    pub fn month_terms(postings: &Vec<Posting>, period: Period, asset_side: bool) -> (terms: Vec<
        Term,
    >)
        ensures
            terms@ == terms_of(postings@, period, asset_side, postings.len() as int),
    {
        let mut terms: Vec<Term> = Vec::new();
        let mut j: usize = 0;
        while j < postings.len()
            invariant
                0 <= j <= postings.len(),
                terms@ == terms_of(postings@, period, asset_side, j as int),
            decreases postings.len() - j,
        {
            let posting = postings[j];
            if posting.period == period && posting.is_asset == asset_side {
                terms.push(posting.term);
            }
            j = j + 1;
        }
        terms
    }

    /// The net-worth series as of the month `now`: one position for every
    /// month that has an entry and is not later than `now`, in ascending
    /// order. Fails where an entry names a balance sheet or an account that
    /// is not there, with the error of the first such entry.
    pub fn history_at(
        home_currency: &String,
        entries: &Vec<Entry>,
        accounts: &Vec<Account>,
        sheets: &Vec<BalanceSheet>,
        rates: &Vec<CurrencyRate>,
        now: Period,
    ) -> (r: Result<Vec<MonthlyPosition>, NetWorthError>)
        ensures
            match postings_upto(
                entries@,
                sheets@,
                accounts@,
                row_views(rates@),
                home_currency@,
                entries.len() as int,
            ) {
                Ok(postings) => r is Ok && is_series(
                    position_views(r.unwrap()@),
                    postings,
                    home_currency@,
                    now,
                ),
                Err(e) => r is Err && r.unwrap_err() == e,
            },
    {
        let postings = match Self::resolve_entries(entries, sheets, accounts, rates, home_currency) {
            Ok(ps) => ps,
            Err(e) => {
                return Err(e);
            },
        };
        let months = Self::collect_months(&postings, now);
        let mut series: Vec<MonthlyPosition> = Vec::new();
        let mut k: usize = 0;
        while k < months.len()
            invariant
                0 <= k <= months.len(),
                series.len() == k,
                forall|q: int|
                    0 <= q < k ==> {
                        &&& (#[trigger] series[q])@.period == months[q]
                        &&& series[q]@.assets == terms_of(
                            postings@,
                            months[q],
                            true,
                            postings.len() as int,
                        )
                        &&& series[q]@.liabilities == terms_of(
                            postings@,
                            months[q],
                            false,
                            postings.len() as int,
                        )
                        &&& series[q]@.currency == home_currency@
                    },
            decreases months.len() - k,
        {
            let period = months[k];
            let position = MonthlyPosition {
                year: period.year,
                month: period.month,
                assets: Self::month_terms(&postings, period, true),
                liabilities: Self::month_terms(&postings, period, false),
                currency: home_currency.clone(),
            };
            series.push(position);
            k = k + 1;
        }
        proof {
            let views = position_views(series@);
            assert(views.map_values(|p: MonthlyPositionView| p.period) =~= months@);
            assert forall|q: int| 0 <= q < views.len() implies {
                &&& (#[trigger] views[q]).assets == terms_of(
                    postings@,
                    views[q].period,
                    true,
                    postings.len() as int,
                )
                &&& views[q].liabilities == terms_of(
                    postings@,
                    views[q].period,
                    false,
                    postings.len() as int,
                )
                &&& views[q].currency == home_currency@
            } by {
                assert(views[q] == series[q]@);
            }
        }
        Ok(series)
    }

    /// The last position of the series as of the month `now`; `None` where
    /// the series is empty.
    pub fn latest_at(
        home_currency: &String,
        entries: &Vec<Entry>,
        accounts: &Vec<Account>,
        sheets: &Vec<BalanceSheet>,
        rates: &Vec<CurrencyRate>,
        now: Period,
    ) -> (r: Result<Option<MonthlyPosition>, NetWorthError>)
        ensures
            match postings_upto(
                entries@,
                sheets@,
                accounts@,
                row_views(rates@),
                home_currency@,
                entries.len() as int,
            ) {
                Ok(postings) => r is Ok && exists|series: Seq<MonthlyPositionView>|
                    #[trigger] is_series(series, postings, home_currency@, now) && latest_of(
                        series,
                    ) == position_view(r.unwrap()),
                Err(e) => r is Err && r.unwrap_err() == e,
            },
    {
        let mut history = match Self::history_at(
            home_currency,
            entries,
            accounts,
            sheets,
            rates,
            now,
        ) {
            Ok(history) => history,
            Err(e) => {
                return Err(e);
            },
        };
        let ghost series = position_views(history@);
        let last = history.pop();
        proof {
            if series.len() > 0 {
                assert(series.last() == last.unwrap()@);
            }
        }
        Ok(last)
    }

    /// The net-worth series as of the current month of the machine's clock,
    /// in the home currency of the first settings. Fails where there are no
    /// settings, or where `history_at` fails.
    pub fn get_history(
        settings: &Vec<UserSettings>,
        entries: &Vec<Entry>,
        accounts: &Vec<Account>,
        sheets: &Vec<BalanceSheet>,
        rates: &Vec<CurrencyRate>,
    ) -> (r: Result<Vec<MonthlyPosition>, NetWorthError>)
        ensures
            settings.len() == 0 ==> r is Err && r.unwrap_err() == NetWorthError::SettingsNotFound,
            settings.len() > 0 ==> match postings_upto(
                entries@,
                sheets@,
                accounts@,
                row_views(rates@),
                settings[0].home_currency@,
                entries.len() as int,
            ) {
                Ok(postings) => r is Ok && exists|today: Date|
                    today.wf() && #[trigger] is_series(
                        position_views(r.unwrap()@),
                        postings,
                        settings[0].home_currency@,
                        month_of(today),
                    ),
                Err(e) => r is Err && r.unwrap_err() == e,
            },
    {
        if settings.len() == 0 {
            return Err(NetWorthError::SettingsNotFound);
        }
        let today = local_today();
        let now = Period { year: today.year, month: today.month };
        let r = Self::history_at(&settings[0].home_currency, entries, accounts, sheets, rates, now);
        proof {
            if r is Ok {
                assert(is_series(
                    position_views(r.unwrap()@),
                    postings_upto(
                        entries@,
                        sheets@,
                        accounts@,
                        row_views(rates@),
                        settings[0].home_currency@,
                        entries.len() as int,
                    ).unwrap(),
                    settings[0].home_currency@,
                    month_of(today),
                ));
            }
        }
        r
    }

    /// The last position of the series as of the current month of the
    /// machine's clock; `None` where the series is empty.
    pub fn get_latest(
        settings: &Vec<UserSettings>,
        entries: &Vec<Entry>,
        accounts: &Vec<Account>,
        sheets: &Vec<BalanceSheet>,
        rates: &Vec<CurrencyRate>,
    ) -> (r: Result<Option<MonthlyPosition>, NetWorthError>)
        ensures
            settings.len() == 0 ==> r is Err && r.unwrap_err() == NetWorthError::SettingsNotFound,
            settings.len() > 0 ==> match postings_upto(
                entries@,
                sheets@,
                accounts@,
                row_views(rates@),
                settings[0].home_currency@,
                entries.len() as int,
            ) {
                Ok(postings) => r is Ok && exists|today: Date, series: Seq<MonthlyPositionView>|
                    today.wf() && #[trigger] is_series(
                        series,
                        postings,
                        settings[0].home_currency@,
                        month_of(today),
                    ) && latest_of(series) == position_view(r.unwrap()),
                Err(e) => r is Err && r.unwrap_err() == e,
            },
    {
        let mut history = match Self::get_history(settings, entries, accounts, sheets, rates) {
            Ok(history) => history,
            Err(e) => {
                return Err(e);
            },
        };
        let ghost series = position_views(history@);
        let last = history.pop();
        proof {
            if series.len() > 0 {
                assert(series.last() == last.unwrap()@);
            }
        }
        Ok(last)
    }
}

/// Once an entry among the first `n` does not resolve, the error is the
/// same for any more of them.
pub proof fn lemma_error_stays(
    entries: Seq<Entry>,
    sheets: Seq<BalanceSheet>,
    accounts: Seq<Account>,
    rates: Seq<CurrencyRateView>,
    home: Seq<char>,
    n: int,
    m: int,
)
    requires
        0 <= n <= m,
        postings_upto(entries, sheets, accounts, rates, home, n) is Err,
    ensures
        postings_upto(entries, sheets, accounts, rates, home, m) == postings_upto(
            entries,
            sheets,
            accounts,
            rates,
            home,
            n,
        ),
    decreases m - n,
{
    if n < m {
        lemma_error_stays(entries, sheets, accounts, rates, home, n, m - 1);
    }
}

/// A month that has a posting among the first `n` has one among any more
/// of them.
pub proof fn lemma_has_posting_grows(postings: Seq<Posting>, period: Period, n: int, m: int)
    requires
        n <= m,
        has_posting_upto(postings, period, n),
    ensures
        has_posting_upto(postings, period, m),
{
    let j = choose|j: int| 0 <= j < n && j < postings.len() && (#[trigger] postings[j]).period == period;
    assert(0 <= j < m && j < postings.len() && postings[j].period == period);
}

/// Two ascending lists of months that hold the same months are the same
/// list.
pub proof fn lemma_ascending_months_unique(a: Seq<Period>, b: Seq<Period>)
    requires
        ascending(a),
        ascending(b),
        forall|x: Period| a.contains(x) <==> b.contains(x),
    ensures
        a == b,
    decreases a.len(),
{
    if a.len() == 0 {
        if b.len() > 0 {
            assert(b.contains(b[0]));
            assert(a.contains(b[0]));
        }
        assert(a =~= b);
    } else {
        let top = a.last();
        assert(a.contains(top));
        assert(b.contains(top));
        let kb = choose|k: int| 0 <= k < b.len() && b[k] == top;
        assert(b.contains(b.last()));
        assert(a.contains(b.last()));
        let ka = choose|k: int| 0 <= k < a.len() && a[k] == b.last();
        if ka < a.len() - 1 {
            assert(period_before(a[ka], a[a.len() - 1]));
        }
        if kb < b.len() - 1 {
            assert(period_before(b[kb], b[b.len() - 1]));
        }
        assert(b.last() == top);
        let a0 = a.drop_last();
        let b0 = b.drop_last();
        assert forall|x: Period| a0.contains(x) <==> b0.contains(x) by {
            if a0.contains(x) {
                let k = choose|k: int| 0 <= k < a0.len() && a0[k] == x;
                assert(a[k] == x);
                assert(period_before(a[k], a[a.len() - 1]));
                assert(a.contains(x));
                assert(b.contains(x));
                let k2 = choose|k2: int| 0 <= k2 < b.len() && b[k2] == x;
                assert(k2 < b.len() - 1);
                assert(b0[k2] == x);
            }
            if b0.contains(x) {
                let k = choose|k: int| 0 <= k < b0.len() && b0[k] == x;
                assert(b[k] == x);
                assert(period_before(b[k], b[b.len() - 1]));
                assert(b.contains(x));
                assert(a.contains(x));
                let k2 = choose|k2: int| 0 <= k2 < a.len() && a[k2] == x;
                assert(k2 < a.len() - 1);
                assert(a0[k2] == x);
            }
        }
        assert(ascending(a0)) by {
            assert forall|p: int, q: int| 0 <= p < q < a0.len() implies period_before(
                #[trigger] a0[p],
                #[trigger] a0[q],
            ) by {
                assert(a0[p] == a[p] && a0[q] == a[q]);
            }
        }
        assert(ascending(b0)) by {
            assert forall|p: int, q: int| 0 <= p < q < b0.len() implies period_before(
                #[trigger] b0[p],
                #[trigger] b0[q],
            ) by {
                assert(b0[p] == b[p] && b0[q] == b[q]);
            }
        }
        lemma_ascending_months_unique(a0, b0);
        assert(a =~= a0.push(top));
        assert(b =~= b0.push(top));
    }
}

/// The series is determined by the postings, the home currency and the
/// month it is made in: two series of the same are the same.
pub proof fn law_series_is_determined(
    first: Seq<MonthlyPositionView>,
    second: Seq<MonthlyPositionView>,
    postings: Seq<Posting>,
    home: Seq<char>,
    now: Period,
)
    requires
        is_series(first, postings, home, now),
        is_series(second, postings, home, now),
    ensures
        first == second,
{
    let a = first.map_values(|p: MonthlyPositionView| p.period);
    let b = second.map_values(|p: MonthlyPositionView| p.period);
    assert forall|x: Period| a.contains(x) <==> b.contains(x) by {
        if a.contains(x) {
            let k = choose|k: int| 0 <= k < a.len() && a[k] == x;
            assert(has_posting(postings, a[k]) && !period_before(now, a[k]));
            let j = choose|j: int| 0 <= j < postings.len() && (#[trigger] postings[j]).period == x;
            assert(b.contains(postings[j].period));
        }
        if b.contains(x) {
            let k = choose|k: int| 0 <= k < b.len() && b[k] == x;
            assert(has_posting(postings, b[k]) && !period_before(now, b[k]));
            let j = choose|j: int| 0 <= j < postings.len() && (#[trigger] postings[j]).period == x;
            assert(a.contains(postings[j].period));
        }
    }
    lemma_ascending_months_unique(a, b);
    assert(first.len() == a.len() && second.len() == b.len());
    assert forall|k: int| 0 <= k < first.len() implies first[k] == second[k] by {
        assert(a[k] == first[k].period);
        assert(b[k] == second[k].period);
    }
    assert(first =~= second);
}

/// Months that each have a posting among the first `n` have one among any
/// more of them.
pub proof fn lemma_months_keep_postings(
    postings: Seq<Posting>,
    months: Seq<Period>,
    n: int,
    m: int,
)
    requires
        n <= m,
        forall|k: int| 0 <= k < months.len() ==> has_posting_upto(postings, #[trigger] months[k], n),
    ensures
        forall|k: int| 0 <= k < months.len() ==> has_posting_upto(postings, #[trigger] months[k], m),
{
    assert forall|k: int| 0 <= k < months.len() implies has_posting_upto(
        postings,
        #[trigger] months[k],
        m,
    ) by {
        lemma_has_posting_grows(postings, months[k], n, m);
    }
}

/// No forecasting: a series made in the month `now` holds no position of a
/// later month, so none of a later year, whatever the entries are.
pub proof fn law_no_position_in_the_future(
    series: Seq<MonthlyPositionView>,
    postings: Seq<Posting>,
    home: Seq<char>,
    now: Period,
)
    requires
        is_series(series, postings, home, now),
    ensures
        forall|k: int|
            0 <= k < series.len() ==> (#[trigger] series[k]).period.year <= now.year && (
            series[k].period.year == now.year ==> series[k].period.month <= now.month),
{
    let periods = series.map_values(|p: MonthlyPositionView| p.period);
    assert forall|k: int| 0 <= k < series.len() implies (#[trigger] series[k]).period.year
        <= now.year && (series[k].period.year == now.year ==> series[k].period.month
        <= now.month) by {
        assert(!period_before(now, periods[k]));
    }
}

/// An entry of an account in a foreign currency, for whose month no rate is
/// stored, resolves all the same: it counts with its own amount, once.
pub proof fn law_missing_rate_counts_once(
    entry: Entry,
    sheets: Seq<BalanceSheet>,
    accounts: Seq<Account>,
    rates: Seq<CurrencyRateView>,
    home: Seq<char>,
)
    requires
        sheet_year(sheets, entry.balance_sheet_id@, sheets.len() as int) is Some,
        account_at(accounts, entry.account_id@, accounts.len() as int) is Some,
        accounts[account_at(accounts, entry.account_id@, accounts.len() as int).unwrap()].currency@
            != home,
        current_row(
            rates,
            RateKey {
                from_currency: accounts[account_at(
                    accounts,
                    entry.account_id@,
                    accounts.len() as int,
                ).unwrap()].currency@,
                to_currency: home,
                year: sheet_year(sheets, entry.balance_sheet_id@, sheets.len() as int).unwrap(),
                month: entry.month,
            },
        ) is None,
    ensures
        resolved(entry, sheets, accounts, rates, home) is Ok,
        resolved(entry, sheets, accounts, rates, home).unwrap().term == (Term {
            amount: entry.amount,
            factor: Factor::Missing,
        }),
{
}

/// Every posting of a month that is not later than `now` has its term in
/// the position of that month, on its side.
pub proof fn law_every_entry_is_counted(
    series: Seq<MonthlyPositionView>,
    postings: Seq<Posting>,
    home: Seq<char>,
    now: Period,
    j: int,
) -> (k: int)
    requires
        is_series(series, postings, home, now),
        0 <= j < postings.len(),
        !period_before(now, postings[j].period),
    ensures
        0 <= k < series.len(),
        series[k].period == postings[j].period,
        postings[j].is_asset ==> series[k].assets.contains(postings[j].term),
        !postings[j].is_asset ==> series[k].liabilities.contains(postings[j].term),
{
    let periods = series.map_values(|p: MonthlyPositionView| p.period);
    assert(periods.contains(postings[j].period));
    let k = choose|k: int| 0 <= k < periods.len() && periods[k] == postings[j].period;
    lemma_terms_hold(postings, postings[j].period, postings[j].is_asset, postings.len() as int, j);
    k
}

/// The term of posting `j` is among the terms of its month and side.
pub proof fn lemma_terms_hold(
    postings: Seq<Posting>,
    period: Period,
    asset_side: bool,
    n: int,
    j: int,
)
    requires
        0 <= j < n <= postings.len(),
        postings[j].period == period,
        postings[j].is_asset == asset_side,
    ensures
        terms_of(postings, period, asset_side, n).contains(postings[j].term),
    decreases n,
{
    let all = terms_of(postings, period, asset_side, n);
    if j == n - 1 {
        assert(all[all.len() - 1] == postings[j].term);
    } else {
        lemma_terms_hold(postings, period, asset_side, n - 1, j);
        let prev = terms_of(postings, period, asset_side, n - 1);
        let k = choose|k: int| 0 <= k < prev.len() && prev[k] == postings[j].term;
        assert(all[k] == postings[j].term);
    }
}

} // verus!
