//! The synchronization with the Frankfurter service as a single pass:
//! what is asked of the service, and what is written of its answer.

use crate::currency_rates::monthly::{
    is_month_winner, observed_dates, parse_dates, wins_month, CurrencyValue, DatedRates,
};
use crate::currency_rates::sync::{
    account_currencies, distinct_foreign, planned, sheet_years, upsert_views, ProviderKind,
    ProviderRates, RateUpsert, SyncError, SyncInputs,
};
use crate::currency_rates::sync_frankfurter::{
    earliest, first_day_text, reduced, FrankfurterProvider, SkipReason, FRANKFURTER_BASE_URL,
    FRANKFURTER_DATE_FORMAT,
};
use crate::dates::{utc_now, Date};
use crate::models::{row_views, Account, BalanceSheet, CurrencyRate, Quantity, UserSettings};
use crate::text::{iso_date, iso_date_text, join, joined, signed_decimal_text, texts};
use vstd::prelude::*;
use vstd::string::*;

verus! {

/// The address that asks `base_url` for the rates of `symbols` against
/// `home_currency` from `start_date` to `end_date`.
pub open spec fn query_url(
    base_url: Seq<char>,
    start_date: Seq<char>,
    end_date: Seq<char>,
    home_currency: Seq<char>,
    symbols: Seq<char>,
) -> Seq<char> {
    base_url + "/"@ + start_date + ".."@ + end_date + "?base="@ + home_currency + "&symbols="@
        + symbols
}

/// The quotes that speak for one month.
#[derive(Clone, Debug)]
pub struct MonthlyRates {
    pub year: i32,
    pub month: u32,
    pub rates: Vec<CurrencyValue>,
}

/// A `MonthlyRates` as a mathematical value: the month, and each quoted
/// currency with its value.
pub struct MonthlyRatesView {
    pub year: i32,
    pub month: u32,
    pub rates: Seq<(Seq<char>, Quantity)>,
}

/// The quotes of a list, each as its currency and its value.
pub open spec fn quote_views(quotes: Seq<CurrencyValue>) -> Seq<(Seq<char>, Quantity)> {
    Seq::new(quotes.len(), |k: int| (quotes[k].currency@, quotes[k].value))
}

impl View for MonthlyRates {
    type V = MonthlyRatesView;

    open spec fn view(&self) -> MonthlyRatesView {
        MonthlyRatesView { year: self.year, month: self.month, rates: quote_views(self.rates@) }
    }
}

/// The views of a list of months.
pub open spec fn month_views(months: Seq<MonthlyRates>) -> Seq<MonthlyRatesView> {
    months.map_values(|m: MonthlyRates| m@)
}

/// Those of the first `n` observations that speak for their month, each
/// with its month and all its quotes, in the order of the list.
pub open spec fn grouped_upto(obs: Seq<DatedRates>, dates: Seq<Option<Date>>, n: int) -> Seq<
    MonthlyRatesView,
>
    decreases n,
{
    if n <= 0 {
        Seq::empty()
    } else if wins_month(dates, n - 1) {
        grouped_upto(obs, dates, n - 1).push(
            MonthlyRatesView {
                year: dates[n - 1].unwrap().year,
                month: dates[n - 1].unwrap().month,
                rates: quote_views(obs[n - 1].rates@),
            },
        )
    } else {
        grouped_upto(obs, dates, n - 1)
    }
}

/// One set of quotes per month: for each month, those of the observation
/// with the latest date.
pub open spec fn grouped(obs: Seq<DatedRates>) -> Seq<MonthlyRatesView> {
    grouped_upto(obs, observed_dates(obs, FRANKFURTER_DATE_FORMAT@), obs.len() as int)
}

/// What a single-pass synchronization asks of the service.
#[derive(Debug)]
pub struct PassRequest {
    pub url: String,
    pub inputs: SyncInputs,
}

/// Whether a single-pass synchronization asks the service, and what.
#[derive(Debug)]
pub enum PassPlan {
    Skip(SkipReason),
    Request(PassRequest),
}

/// Why a single-pass synchronization does not ask the service, if it does
/// not. The conditions are taken in this order.
pub open spec fn pass_skip_reason(foreign: Seq<Seq<char>>, years: Seq<i32>, today: Date) -> Option<
    SkipReason,
> {
    if foreign.len() == 0 {
        Some(SkipReason::NoForeignCurrencies)
    } else if years.len() == 0 {
        Some(SkipReason::NoBalanceSheets)
    } else if earliest(years, years.len() as int) > today.year {
        Some(SkipReason::EarliestYearInFuture)
    } else {
        None
    }
}

/// The address a single-pass synchronization asks: all the foreign
/// currencies against the home currency, from the first day of the earliest
/// year to `today`.
pub open spec fn pass_url(
    base_url: Seq<char>,
    foreign: Seq<Seq<char>>,
    years: Seq<i32>,
    home: Seq<char>,
    today: Date,
) -> Seq<char> {
    query_url(
        base_url,
        first_day_text(earliest(years, years.len() as int)),
        iso_date(today),
        home,
        joined(foreign, ","@, foreign.len() as int),
    )
}

/// The address of the service that is asked: the one given, or the one of
/// the Frankfurter service.
pub open spec fn base_url_of(base_url: Option<String>) -> Seq<char> {
    match base_url {
        Some(url) => url@,
        None => FRANKFURTER_BASE_URL@,
    }
}

/// `plan` is what a single-pass synchronization does on the day `today`.
pub open spec fn is_pass_plan(
    plan: PassPlan,
    settings: Seq<UserSettings>,
    accounts: Seq<Account>,
    sheets: Seq<BalanceSheet>,
    all_rates: Vec<CurrencyRate>,
    base_url: Seq<char>,
    today: Date,
) -> bool {
    let home = settings[0].home_currency@;
    let foreign = distinct_foreign(account_currencies(accounts), home, accounts.len() as int);
    let years = sheet_years(sheets);
    match pass_skip_reason(foreign, years, today) {
        Some(reason) => plan matches PassPlan::Skip(r) && r == reason,
        None => plan matches PassPlan::Request(request) && {
            &&& request.url@ == pass_url(base_url, foreign, years, home, today)
            &&& request.inputs.home_currency@ == home
            &&& texts(request.inputs.foreign_currencies@) == foreign
            &&& request.inputs.years@ == years
            &&& request.inputs.existing_rates == all_rates
        },
    }
}

/// The synchronization with the Frankfurter service in a single pass.
pub struct SyncService;

impl SyncService {
    /// The address of the request for a range of dates, a base currency and
    /// a list of symbols.
    pub fn get_query_url(
        base_url: &str,
        start_date: &str,
        end_date: &str,
        home_currency: &str,
        symbols: &str,
    ) -> (url: String)
        ensures
            url@ == query_url(base_url@, start_date@, end_date@, home_currency@, symbols@),
    {
        let mut url = String::from_str(base_url);
        url.append("/");
        url.append(start_date);
        url.append("..");
        url.append(end_date);
        url.append("?base=");
        url.append(home_currency);
        url.append("&symbols=");
        url.append(symbols);
        url
    }

    /// Decides, for the day `today`, whether the service is asked, and
    /// makes the request: all the foreign currencies of the accounts against
    /// the home currency, from the first day of the earliest balance sheet
    /// year to `today`. Fails where there are no settings.
    pub fn plan_sync(
        settings: &Vec<UserSettings>,
        accounts: &Vec<Account>,
        sheets: &Vec<BalanceSheet>,
        all_rates: Vec<CurrencyRate>,
        base_url: Option<String>,
        today: Date,
    ) -> (r: Result<PassPlan, SyncError>)
        ensures
            settings.len() == 0 ==> r matches Err(SyncError::SettingsNotFound),
            settings.len() > 0 ==> (r matches Ok(plan) && is_pass_plan(
                plan,
                settings@,
                accounts@,
                sheets@,
                all_rates,
                base_url_of(base_url),
                today,
            )),
    {
        let inputs = match crate::currency_rates::sync::SyncService::gather_sync_inputs(
            settings,
            accounts,
            sheets,
            all_rates,
        ) {
            Ok(inputs) => inputs,
            Err(e) => {
                return Err(e);
            },
        };
        if inputs.foreign_currencies.len() == 0 {
            return Ok(PassPlan::Skip(SkipReason::NoForeignCurrencies));
        }
        if inputs.years.len() == 0 {
            return Ok(PassPlan::Skip(SkipReason::NoBalanceSheets));
        }
        let earliest_year = FrankfurterProvider::earliest_year(&inputs.years);
        if earliest_year > today.year {
            return Ok(PassPlan::Skip(SkipReason::EarliestYearInFuture));
        }
        let symbols = join(&inputs.foreign_currencies, ",");
        let mut start_date = signed_decimal_text(earliest_year as i64);
        start_date.append("-01-01");
        let end_date = iso_date_text(today);
        let base = match base_url {
            Some(url) => url,
            None => String::from_str(FRANKFURTER_BASE_URL),
        };
        let url = Self::get_query_url(
            base.as_str(),
            start_date.as_str(),
            end_date.as_str(),
            inputs.home_currency.as_str(),
            symbols.as_str(),
        );
        Ok(PassPlan::Request(PassRequest { url, inputs }))
    }

    /// Decides whether the service at `base_url` is asked today, by the
    /// clock in UTC, and makes the request. Without a `base_url` the
    /// Frankfurter service is asked.
    pub fn sync_exchange_rates_with_client_and_url(
        settings: &Vec<UserSettings>,
        accounts: &Vec<Account>,
        sheets: &Vec<BalanceSheet>,
        all_rates: Vec<CurrencyRate>,
        base_url: Option<String>,
    ) -> (r: Result<PassPlan, SyncError>)
        ensures
            settings.len() == 0 ==> r matches Err(SyncError::SettingsNotFound),
            settings.len() > 0 ==> (r matches Ok(plan) && exists|today: Date|
                today.wf() && #[trigger] is_pass_plan(
                    plan,
                    settings@,
                    accounts@,
                    sheets@,
                    all_rates,
                    base_url_of(base_url),
                    today,
                )),
    {
        let now = utc_now();
        let r = Self::plan_sync(settings, accounts, sheets, all_rates, base_url, now.date);
        proof {
            if settings.len() > 0 {
                assert(is_pass_plan(
                    r.unwrap(),
                    settings@,
                    accounts@,
                    sheets@,
                    all_rates,
                    base_url_of(base_url),
                    now.date,
                ));
            }
        }
        r
    }

    /// Decides whether the Frankfurter service is asked today, and makes
    /// the request.
    pub fn sync_exchange_rates(
        settings: &Vec<UserSettings>,
        accounts: &Vec<Account>,
        sheets: &Vec<BalanceSheet>,
        all_rates: Vec<CurrencyRate>,
    ) -> (r: Result<PassPlan, SyncError>)
        ensures
            settings.len() == 0 ==> r matches Err(SyncError::SettingsNotFound),
            settings.len() > 0 ==> (r matches Ok(plan) && exists|today: Date|
                today.wf() && #[trigger] is_pass_plan(
                    plan,
                    settings@,
                    accounts@,
                    sheets@,
                    all_rates,
                    FRANKFURTER_BASE_URL@,
                    today,
                )),
    {
        Self::sync_exchange_rates_with_client_and_url(settings, accounts, sheets, all_rates, None)
    }

    /// Decides what is written of the answer of the service: the quotes are
    /// reduced to one value per currency and month, and each is written
    /// unless its stored rate is finalized.
    pub fn process_and_save_rates(
        rates: Vec<DatedRates>,
        home_currency: &str,
        existing_rates: Vec<CurrencyRate>,
    ) -> (writes: Vec<RateUpsert>)
        ensures
            upsert_views(writes@) == planned(
                reduced(rates@),
                home_currency@,
                ProviderKind::Frankfurter.name(),
                row_views(existing_rates@),
            ),
    {
        let parsed = ProviderRates {
            provider: ProviderKind::Frankfurter,
            rates: FrankfurterProvider::parse_rates_for_most_recent(rates),
        };
        let inputs = SyncInputs {
            home_currency: String::from_str(home_currency),
            foreign_currencies: Vec::new(),
            years: Vec::new(),
            existing_rates,
        };
        crate::currency_rates::sync::SyncService::ingest_provider_rates(&parsed, &inputs)
    }

    /// Returns every observation that speaks for its month by the dates
    /// given, with its month and all its quotes, in the order of the list.
    /// `dates` holds the date of each observation, `None` where it has none.
    pub fn group_with_dates(rates: &Vec<DatedRates>, dates: &Vec<Option<Date>>) -> (out: Vec<
        MonthlyRates,
    >)
        requires
            dates.len() == rates.len(),
        ensures
            month_views(out@) == grouped_upto(rates@, dates@, rates.len() as int),
    {
        let mut out: Vec<MonthlyRates> = Vec::new();
        let mut i: usize = 0;
        while i < rates.len()
            invariant
                0 <= i <= rates.len(),
                dates.len() == rates.len(),
                month_views(out@) == grouped_upto(rates@, dates@, i as int),
            decreases rates.len() - i,
        {
            if is_month_winner(dates, i) {
                let date = dates[i].unwrap();
                let entry = &rates[i];
                let mut quotes: Vec<CurrencyValue> = Vec::new();
                let mut k: usize = 0;
                while k < entry.rates.len()
                    invariant
                        0 <= k <= entry.rates.len(),
                        quotes.len() == k,
                        forall|q: int|
                            0 <= q < k ==> (#[trigger] quotes[q]).currency@
                                == entry.rates[q].currency@ && quotes[q].value
                                == entry.rates[q].value,
                    decreases entry.rates.len() - k,
                {
                    quotes.push(
                        CurrencyValue {
                            currency: entry.rates[k].currency.clone(),
                            value: entry.rates[k].value,
                        },
                    );
                    k = k + 1;
                }
                let month = MonthlyRates { year: date.year, month: date.month, rates: quotes };
                proof {
                    assert(quote_views(month.rates@) =~= quote_views(entry.rates@));
                    assert(month_views(out@.push(month)) =~= month_views(out@).push(month@));
                }
                out.push(month);
            }
            i = i + 1;
        }
        out
    }

    /// Finds the latest date of every month and returns the quotes of that
    /// date, month by month. A date that does not read as year-month-day is
    /// passed over.
    pub fn parse_frankfurter_rates_for_most_recent(rates: Vec<DatedRates>) -> (out: Vec<
        MonthlyRates,
    >)
        ensures
            month_views(out@) == grouped(rates@),
    {
        let dates = parse_dates(&rates, FRANKFURTER_DATE_FORMAT);
        Self::group_with_dates(&rates, &dates)
    }
}

} // verus!
