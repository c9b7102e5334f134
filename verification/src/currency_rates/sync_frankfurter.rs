//! The Frankfurter provider: which currencies it quotes, what is asked of
//! it, and how its dated quotes reduce to one value per currency and month.

use crate::currency_rates::monthly::{
    is_month_winner, lemma_one_winner_per_month, observed_dates, parse_dates, wins_month,
    DatedRates,
};
use crate::currency_exchange_sync::{query_url, SyncService};
use crate::currency_rates::sync::{
    distinct_keys, rate_views, ProviderKind, ProviderRate, ProviderRateView, ProviderRates,
    SyncInputs,
};
use crate::dates::{utc_now, Date};
use crate::text::{iso_date, iso_date_text, join, joined, signed_decimal, signed_decimal_text, texts};
use vstd::prelude::*;
use vstd::string::*;

verus! {

/// The address of the service.
pub const FRANKFURTER_BASE_URL: &'static str = "https://api.frankfurter.dev/v1";

/// How the service writes its dates: year-month-day.
pub const FRANKFURTER_DATE_FORMAT: &'static str = "%Y-%m-%d";

/// The currencies the service quotes.
pub open spec fn supported_currencies() -> Seq<Seq<char>> {
    seq![
        "AUD"@,
        "BRL"@,
        "CAD"@,
        "CHF"@,
        "CNY"@,
        "CZK"@,
        "DKK"@,
        "EUR"@,
        "GBP"@,
        "HKD"@,
        "HUF"@,
        "IDR"@,
        "ILS"@,
        "INR"@,
        "ISK"@,
        "JPY"@,
        "KRW"@,
        "MXN"@,
        "MYR"@,
        "NOK"@,
        "NZD"@,
        "PHP"@,
        "PLN"@,
        "RON"@,
        "SEK"@,
        "SGD"@,
        "THB"@,
        "TRY"@,
        "USD"@,
        "ZAR"@,
    ]
}

/// The service quotes `currency`.
pub open spec fn is_supported(currency: Seq<char>) -> bool {
    supported_currencies().contains(currency)
}

/// Those of the first `n` currencies that the service quotes, in their
/// order.
pub open spec fn supported_among(currencies: Seq<Seq<char>>, n: int) -> Seq<Seq<char>>
    decreases n,
{
    if n <= 0 {
        Seq::empty()
    } else if is_supported(currencies[n - 1]) {
        supported_among(currencies, n - 1).push(currencies[n - 1])
    } else {
        supported_among(currencies, n - 1)
    }
}

/// Those of the first `n` currencies that the service does not quote, in
/// their order.
pub open spec fn unsupported_among(currencies: Seq<Seq<char>>, n: int) -> Seq<Seq<char>>
    decreases n,
{
    if n <= 0 {
        Seq::empty()
    } else if is_supported(currencies[n - 1]) {
        unsupported_among(currencies, n - 1)
    } else {
        unsupported_among(currencies, n - 1).push(currencies[n - 1])
    }
}

/// The seconds after which a request to the service is given up.
pub const REQUEST_TIMEOUT_SECONDS: u64 = 10;

/// Why the service is not asked.
#[derive(Clone, Copy, Debug, PartialEq, Eq, Structural)]
pub enum SkipReason {
    /// No account is held in a foreign currency.
    NoForeignCurrencies,
    /// There is no balance sheet, so no year to cover.
    NoBalanceSheets,
    /// The service does not quote the home currency.
    HomeCurrencyUnsupported,
    /// The service quotes none of the foreign currencies.
    NoSupportedCurrencies,
    /// The earliest balance sheet is of a year to come.
    EarliestYearInFuture,
}

/// What is asked of the service: the address, and the parts it is made of.
#[derive(Clone, Debug)]
pub struct FetchRequest {
    pub url: String,
    pub start_date: String,
    pub end_date: String,
    pub symbols: String,
    pub unsupported: Vec<String>,
}

/// Whether the service is asked, and what.
#[derive(Clone, Debug)]
pub enum FetchPlan {
    Skip(SkipReason),
    Request(FetchRequest),
}

/// Why a request to the service brought no rates.
#[derive(Clone, Debug)]
pub enum FetchFailure {
    /// The client could not be made.
    ClientBuild(String),
    /// The request could not be sent, or no answer came in time.
    Request(String),
    /// The service answered with a status that is no success.
    Status(String),
    /// The body of the answer could not be read as rates.
    Body(String),
}

impl FetchFailure {
    /// The failure in words.
    pub open spec fn text(self) -> Seq<char> {
        match self {
            FetchFailure::ClientBuild(detail) => "Failed to build HTTP client: "@ + detail@,
            FetchFailure::Request(detail) => "Request error: "@ + detail@,
            FetchFailure::Status(detail) => "API error: "@ + detail@,
            FetchFailure::Body(detail) => "Failed to parse JSON: "@ + detail@,
        }
    }

    /// A copy of the failure.
    pub fn duplicate(&self) -> (r: FetchFailure)
        ensures
            r == *self,
    {
        match self {
            FetchFailure::ClientBuild(detail) => FetchFailure::ClientBuild(detail.clone()),
            FetchFailure::Request(detail) => FetchFailure::Request(detail.clone()),
            FetchFailure::Status(detail) => FetchFailure::Status(detail.clone()),
            FetchFailure::Body(detail) => FetchFailure::Body(detail.clone()),
        }
    }

    /// The failure in words.
    pub fn message(&self) -> (r: String)
        ensures
            r@ == self.text(),
    {
        match self {
            FetchFailure::ClientBuild(detail) => String::from_str(
                "Failed to build HTTP client: ",
            ).concat(detail.as_str()),
            FetchFailure::Request(detail) => String::from_str("Request error: ").concat(
                detail.as_str(),
            ),
            FetchFailure::Status(detail) => String::from_str("API error: ").concat(
                detail.as_str(),
            ),
            FetchFailure::Body(detail) => String::from_str("Failed to parse JSON: ").concat(
                detail.as_str(),
            ),
        }
    }
}

/// The least of the first `n` years.
pub open spec fn earliest(years: Seq<i32>, n: int) -> i32
    decreases n,
{
    if n <= 1 {
        years[0]
    } else if years[n - 1] < earliest(years, n - 1) {
        years[n - 1]
    } else {
        earliest(years, n - 1)
    }
}

/// Why the service is not asked, if it is not. The conditions are taken in
/// this order.
pub open spec fn skip_reason(
    foreign: Seq<Seq<char>>,
    years: Seq<i32>,
    home: Seq<char>,
    today: Date,
) -> Option<SkipReason> {
    if foreign.len() == 0 {
        Some(SkipReason::NoForeignCurrencies)
    } else if years.len() == 0 {
        Some(SkipReason::NoBalanceSheets)
    } else if !is_supported(home) {
        Some(SkipReason::HomeCurrencyUnsupported)
    } else if supported_among(foreign, foreign.len() as int).len() == 0 {
        Some(SkipReason::NoSupportedCurrencies)
    } else if earliest(years, years.len() as int) > today.year {
        Some(SkipReason::EarliestYearInFuture)
    } else {
        None
    }
}

/// The first day of `year`, as the service wants it written.
pub open spec fn first_day_text(year: i32) -> Seq<char> {
    signed_decimal(year as int) + "-01-01"@
}

/// `request` asks for the supported ones of the foreign currencies against
/// the home currency, from the first day of the earliest year to `today`.
pub open spec fn asks_for(
    request: FetchRequest,
    foreign: Seq<Seq<char>>,
    years: Seq<i32>,
    home: Seq<char>,
    today: Date,
) -> bool {
    &&& request.start_date@ == first_day_text(earliest(years, years.len() as int))
    &&& request.end_date@ == iso_date(today)
    &&& request.symbols@ == joined(
        supported_among(foreign, foreign.len() as int),
        ","@,
        supported_among(foreign, foreign.len() as int).len() as int,
    )
    &&& texts(request.unsupported@) == unsupported_among(foreign, foreign.len() as int)
    &&& request.url@ == query_url(
        FRANKFURTER_BASE_URL@,
        request.start_date@,
        request.end_date@,
        home,
        request.symbols@,
    )
}

/// `plan` is what is to be done about the service on the day `today`.
pub open spec fn is_plan(
    plan: FetchPlan,
    foreign: Seq<Seq<char>>,
    years: Seq<i32>,
    home: Seq<char>,
    today: Date,
) -> bool {
    match skip_reason(foreign, years, home, today) {
        Some(reason) => plan matches FetchPlan::Skip(r) && r == reason,
        None => plan matches FetchPlan::Request(request) && asks_for(
            request,
            foreign,
            years,
            home,
            today,
        ),
    }
}

/// The quotes of one observation, each as the rate of its currency for the
/// month of `date`.
pub open spec fn month_rates(entry: DatedRates, date: Date) -> Seq<ProviderRateView> {
    Seq::new(
        entry.rates.len() as nat,
        |k: int|
            ProviderRateView {
                year: date.year,
                month: date.month,
                currency: entry.rates[k].currency@,
                value: entry.rates[k].value,
            },
    )
}

/// The quotes of the first `n` observations that speak for their month, in
/// the order of the list.
pub open spec fn reduced_upto(obs: Seq<DatedRates>, dates: Seq<Option<Date>>, n: int) -> Seq<
    ProviderRateView,
>
    decreases n,
{
    if n <= 0 {
        Seq::empty()
    } else if wins_month(dates, n - 1) {
        reduced_upto(obs, dates, n - 1) + month_rates(obs[n - 1], dates[n - 1].unwrap())
    } else {
        reduced_upto(obs, dates, n - 1)
    }
}

/// One value per currency and month: for each month, the quotes of the
/// observation with the latest date, and nothing of the others.
pub open spec fn reduced(obs: Seq<DatedRates>) -> Seq<ProviderRateView> {
    reduced_upto(obs, observed_dates(obs, FRANKFURTER_DATE_FORMAT@), obs.len() as int)
}

/// `rate` is quote `k` of observation `i`, and observation `i` speaks for
/// its month.
pub open spec fn quoted_by(
    obs: Seq<DatedRates>,
    dates: Seq<Option<Date>>,
    rate: ProviderRateView,
    i: int,
    k: int,
) -> bool {
    &&& 0 <= i < obs.len()
    &&& wins_month(dates, i)
    &&& 0 <= k < obs[i].rates.len()
    &&& rate == month_rates(obs[i], dates[i].unwrap())[k]
}

/// Every rate among the quotes of the first `n` observations is a quote of
/// one of them that speaks for its month.
pub proof fn lemma_reduced_origin(
    obs: Seq<DatedRates>,
    dates: Seq<Option<Date>>,
    n: int,
    p: int,
) -> (w: (int, int))
    requires
        0 <= n <= obs.len(),
        0 <= p < reduced_upto(obs, dates, n).len(),
    ensures
        w.0 < n,
        quoted_by(obs, dates, reduced_upto(obs, dates, n)[p], w.0, w.1),
    decreases n,
{
    let prev = reduced_upto(obs, dates, n - 1);
    if wins_month(dates, n - 1) && p >= prev.len() {
        (n - 1, p - prev.len())
    } else {
        lemma_reduced_origin(obs, dates, n - 1, p)
    }
}

/// Every quote of an observation that speaks for its month is among the
/// quotes of the first `n` observations, if the observation is one of them.
pub proof fn lemma_reduced_holds(
    obs: Seq<DatedRates>,
    dates: Seq<Option<Date>>,
    n: int,
    i: int,
    k: int,
) -> (p: int)
    requires
        0 <= i < n <= obs.len(),
        wins_month(dates, i),
        0 <= k < obs[i].rates.len(),
    ensures
        0 <= p < reduced_upto(obs, dates, n).len(),
        reduced_upto(obs, dates, n)[p] == month_rates(obs[i], dates[i].unwrap())[k],
    decreases n,
{
    let prev = reduced_upto(obs, dates, n - 1);
    if i == n - 1 {
        prev.len() + k
    } else {
        lemma_reduced_holds(obs, dates, n - 1, i, k)
    }
}

/// Where no observation quotes a currency twice, the quotes of the first `n`
/// observations hold no currency twice for one month.
pub proof fn lemma_reduced_distinct(obs: Seq<DatedRates>, dates: Seq<Option<Date>>, n: int)
    requires
        0 <= n <= obs.len(),
        forall|i: int| 0 <= i < obs.len() ==> (#[trigger] obs[i]).wf(),
    ensures
        distinct_keys(reduced_upto(obs, dates, n)),
    decreases n,
{
    if n > 0 {
        lemma_reduced_distinct(obs, dates, n - 1);
        let prev = reduced_upto(obs, dates, n - 1);
        let all = reduced_upto(obs, dates, n);
        if wins_month(dates, n - 1) {
            let entry = obs[n - 1];
            assert(entry.wf());
            assert forall|p: int, q: int| 0 <= p < q < all.len() implies !(#[trigger] all[p]).same_key(
                #[trigger] all[q],
            ) by {
                if q < prev.len() {
                    assert(all[p] == prev[p] && all[q] == prev[q]);
                } else if p < prev.len() {
                    let w = lemma_reduced_origin(obs, dates, n - 1, p);
                    assert(all[p] == prev[p]);
                    if all[p].same_key(all[q]) {
                        lemma_one_winner_per_month(dates, w.0, n - 1);
                    }
                } else {
                    let a = p - prev.len();
                    let b = q - prev.len();
                    assert(entry.rates[a].currency@ != entry.rates[b].currency@);
                }
            }
        }
    }
}

/// The latest date of a month speaks for the month, alone: a rate belongs to
/// the reduction exactly when it is a quote of the observation that speaks
/// for its month, so nothing of an earlier observation of that month is
/// kept, and nothing is merged. Where no observation quotes a currency
/// twice, the reduction holds one value per currency and month.
pub proof fn law_latest_date_speaks_for_month(obs: Seq<DatedRates>)
    ensures
        forall|r: ProviderRateView|
            reduced(obs).contains(r) <==> exists|i: int, k: int|
                #[trigger] quoted_by(obs, observed_dates(obs, FRANKFURTER_DATE_FORMAT@), r, i, k),
        (forall|i: int| 0 <= i < obs.len() ==> (#[trigger] obs[i]).wf()) ==> distinct_keys(
            reduced(obs),
        ),
{
    let dates = observed_dates(obs, FRANKFURTER_DATE_FORMAT@);
    let n = obs.len() as int;
    assert forall|r: ProviderRateView| reduced(obs).contains(r) implies exists|i: int, k: int|
        #[trigger] quoted_by(obs, dates, r, i, k) by {
        let p = choose|p: int| 0 <= p < reduced(obs).len() && reduced(obs)[p] == r;
        let w = lemma_reduced_origin(obs, dates, n, p);
        assert(quoted_by(obs, dates, r, w.0, w.1));
    }
    assert forall|r: ProviderRateView|
        (exists|i: int, k: int| #[trigger] quoted_by(obs, dates, r, i, k)) implies reduced(
        obs,
    ).contains(r) by {
        let (i, k) = choose|i: int, k: int| #[trigger] quoted_by(obs, dates, r, i, k);
        let p = lemma_reduced_holds(obs, dates, n, i, k);
    }
    if forall|i: int| 0 <= i < obs.len() ==> (#[trigger] obs[i]).wf() {
        lemma_reduced_distinct(obs, dates, n);
    }
}

/// The Frankfurter service as a provider of rates.
pub struct FrankfurterProvider;

impl FrankfurterProvider {
    /// The codes of the currencies the service quotes.
    pub fn supported_codes() -> (codes: Vec<&'static str>)
        ensures
            codes.len() == supported_currencies().len(),
            forall|i: int| 0 <= i < codes.len() ==> (#[trigger] codes[i])@ == supported_currencies()[i],
    {
        vec![
            "AUD", "BRL", "CAD", "CHF", "CNY", "CZK", "DKK", "EUR", "GBP", "HKD", "HUF", "IDR",
            "ILS", "INR", "ISK", "JPY", "KRW", "MXN", "MYR", "NOK", "NZD", "PHP", "PLN", "RON",
            "SEK", "SGD", "THB", "TRY", "USD", "ZAR",
        ]
    }

    /// Whether the service quotes `currency`.
    pub fn is_supported_currency(currency: &str) -> (r: bool)
        ensures
            r == is_supported(currency@),
    {
        let codes = Self::supported_codes();
        let wanted = currency.to_owned();
        let mut i: usize = 0;
        while i < codes.len()
            invariant
                0 <= i <= codes.len(),
                wanted@ == currency@,
                codes.len() == supported_currencies().len(),
                forall|k: int|
                    0 <= k < codes.len() ==> (#[trigger] codes[k])@ == supported_currencies()[k],
                forall|k: int| 0 <= k < i ==> supported_currencies()[k] != currency@,
            decreases codes.len() - i,
        {
            if String::from_str(codes[i]) == wanted {
                assert(supported_currencies()[i as int] == currency@);
                return true;
            }
            i = i + 1;
        }
        false
    }

    /// Parts the currencies into those the service quotes and those it does
    /// not, each in the order they came in.
    pub fn split_supported_currencies(currencies: Vec<String>) -> (r: (Vec<String>, Vec<String>))
        ensures
            texts(r.0@) == supported_among(texts(currencies@), currencies.len() as int),
            texts(r.1@) == unsupported_among(texts(currencies@), currencies.len() as int),
    {
        let mut supported: Vec<String> = Vec::new();
        let mut unsupported: Vec<String> = Vec::new();
        let mut i: usize = 0;
        while i < currencies.len()
            invariant
                0 <= i <= currencies.len(),
                texts(supported@) == supported_among(texts(currencies@), i as int),
                texts(unsupported@) == unsupported_among(texts(currencies@), i as int),
            decreases currencies.len() - i,
        {
            let currency = currencies[i].clone();
            assert(texts(currencies@)[i as int] == currency@);
            if Self::is_supported_currency(currency.as_str()) {
                assert(texts(supported@.push(currency)) =~= texts(supported@).push(currency@));
                supported.push(currency);
            } else {
                assert(texts(unsupported@.push(currency)) =~= texts(unsupported@).push(
                    currency@,
                ));
                unsupported.push(currency);
            }
            i = i + 1;
        }
        (supported, unsupported)
    }

    /// The least of the years.
    pub fn earliest_year(years: &Vec<i32>) -> (r: i32)
        requires
            years.len() > 0,
        ensures
            r == earliest(years@, years.len() as int),
    {
        let mut least = years[0];
        let mut i: usize = 1;
        while i < years.len()
            invariant
                1 <= i <= years.len(),
                least == earliest(years@, i as int),
            decreases years.len() - i,
        {
            if years[i] < least {
                least = years[i];
            }
            i = i + 1;
        }
        least
    }

    /// Decides, for the day `today`, whether the service is asked, and
    /// makes the request: the supported foreign currencies against the home
    /// currency, from the first day of the earliest year to `today`.
    pub fn plan_fetch(inputs: &SyncInputs, today: Date) -> (plan: FetchPlan)
        ensures
            is_plan(
                plan,
                texts(inputs.foreign_currencies@),
                inputs.years@,
                inputs.home_currency@,
                today,
            ),
    {
        if inputs.foreign_currencies.len() == 0 {
            return FetchPlan::Skip(SkipReason::NoForeignCurrencies);
        }
        if inputs.years.len() == 0 {
            return FetchPlan::Skip(SkipReason::NoBalanceSheets);
        }
        if !Self::is_supported_currency(inputs.home_currency.as_str()) {
            return FetchPlan::Skip(SkipReason::HomeCurrencyUnsupported);
        }
        let mut foreign: Vec<String> = Vec::new();
        let mut i: usize = 0;
        while i < inputs.foreign_currencies.len()
            invariant
                0 <= i <= inputs.foreign_currencies.len(),
                foreign.len() == i,
                forall|k: int| 0 <= k < i ==> (#[trigger] foreign[k])@ == inputs.foreign_currencies[k]@,
            decreases inputs.foreign_currencies.len() - i,
        {
            foreign.push(inputs.foreign_currencies[i].clone());
            i = i + 1;
        }
        assert(texts(foreign@) =~= texts(inputs.foreign_currencies@));
        let (supported, unsupported) = Self::split_supported_currencies(foreign);
        if supported.len() == 0 {
            return FetchPlan::Skip(SkipReason::NoSupportedCurrencies);
        }
        let earliest_year = Self::earliest_year(&inputs.years);
        if earliest_year > today.year {
            return FetchPlan::Skip(SkipReason::EarliestYearInFuture);
        }
        let mut start_date = signed_decimal_text(earliest_year as i64);
        start_date.append("-01-01");
        let end_date = iso_date_text(today);
        let symbols = join(&supported, ",");
        let url = SyncService::get_query_url(
            FRANKFURTER_BASE_URL,
            start_date.as_str(),
            end_date.as_str(),
            inputs.home_currency.as_str(),
            symbols.as_str(),
        );
        FetchPlan::Request(FetchRequest { url, start_date, end_date, symbols, unsupported })
    }

    /// Decides whether the service is asked today, by the clock in UTC, and
    /// makes the request.
    pub fn fetch_provider_rates(inputs: &SyncInputs) -> (plan: FetchPlan)
        ensures
            exists|today: Date|
                today.wf() && #[trigger] is_plan(
                    plan,
                    texts(inputs.foreign_currencies@),
                    inputs.years@,
                    inputs.home_currency@,
                    today,
                ),
    {
        let now = utc_now();
        let plan = Self::plan_fetch(inputs, now.date);
        assert(is_plan(
            plan,
            texts(inputs.foreign_currencies@),
            inputs.years@,
            inputs.home_currency@,
            now.date,
        ));
        plan
    }

    /// What the answer of the service amounts to: its quotes reduced to one
    /// value per currency and month, or the failure as it came.
    pub fn rates_from_response(response: Result<Vec<DatedRates>, FetchFailure>) -> (r: Result<
        ProviderRates,
        FetchFailure,
    >)
        ensures
            match response {
                Ok(quotes) => r is Ok && r.unwrap().provider == ProviderKind::Frankfurter
                    && rate_views(r.unwrap().rates@) == reduced(quotes@) && r.unwrap().wf() && ((
                forall|i: int| 0 <= i < quotes.len() ==> (#[trigger] quotes[i]).wf())
                    ==> distinct_keys(rate_views(r.unwrap().rates@))),
                Err(failure) => r is Err && r.unwrap_err() == failure,
            },
    {
        match response {
            Ok(quotes) => Ok(
                ProviderRates {
                    provider: ProviderKind::Frankfurter,
                    rates: Self::parse_rates_for_most_recent(quotes),
                },
            ),
            Err(failure) => Err(failure),
        }
    }

    /// Returns, for every observation that speaks for its month by the dates
    /// given, its quotes as rates of that month, in the order of the list.
    /// `dates` holds the date of each observation, `None` where it has none.
    pub fn reduce_with_dates(rates: &Vec<DatedRates>, dates: &Vec<Option<Date>>) -> (out: Vec<
        ProviderRate,
    >)
        requires
            dates.len() == rates.len(),
            forall|j: int|
                0 <= j < dates.len() && (#[trigger] dates[j]) is Some ==> dates[j].unwrap().wf(),
        ensures
            rate_views(out@) == reduced_upto(rates@, dates@, rates.len() as int),
            forall|p: int| 0 <= p < out.len() ==> 1 <= (#[trigger] out[p]).month <= 12,
            (forall|i: int| 0 <= i < rates.len() ==> (#[trigger] rates[i]).wf()) ==> distinct_keys(
                rate_views(out@),
            ),
    {
        let mut out: Vec<ProviderRate> = Vec::new();
        let mut i: usize = 0;
        while i < rates.len()
            invariant
                0 <= i <= rates.len(),
                dates.len() == rates.len(),
                rate_views(out@) == reduced_upto(rates@, dates@, i as int),
                forall|p: int| 0 <= p < out.len() ==> 1 <= (#[trigger] out[p]).month <= 12,
                forall|j: int|
                    0 <= j < dates.len() && (#[trigger] dates[j]) is Some ==> dates[j].unwrap().wf(),
            decreases rates.len() - i,
        {
            if is_month_winner(dates, i) {
                let date = dates[i].unwrap();
                let entry = &rates[i];
                let ghost before = rate_views(out@);
                let mut k: usize = 0;
                while k < entry.rates.len()
                    invariant
                        0 <= k <= entry.rates.len(),
                        1 <= date.month <= 12,
                        forall|p: int| 0 <= p < out.len() ==> 1 <= (#[trigger] out[p]).month <= 12,
                        rate_views(out@) == before + month_rates(*entry, date).subrange(
                            0,
                            k as int,
                        ),
                    decreases entry.rates.len() - k,
                {
                    let quote = &entry.rates[k];
                    let rate = ProviderRate {
                        year: date.year,
                        month: date.month,
                        currency: quote.currency.clone(),
                        value: quote.value,
                    };
                    proof {
                        assert(rate@ == month_rates(*entry, date)[k as int]);
                        assert(rate_views(out@.push(rate)) =~= rate_views(out@).push(rate@));
                        assert(month_rates(*entry, date).subrange(0, k + 1) =~= month_rates(
                            *entry,
                            date,
                        ).subrange(0, k as int).push(rate@));
                    }
                    out.push(rate);
                    k = k + 1;
                }
                assert(month_rates(*entry, date).subrange(0, k as int) =~= month_rates(
                    *entry,
                    date,
                ));
            }
            i = i + 1;
        }
        proof {
            if forall|i: int| 0 <= i < rates.len() ==> (#[trigger] rates[i]).wf() {
                lemma_reduced_distinct(rates@, dates@, rates.len() as int);
            }
        }
        out
    }

    /// Finds the latest date of every month and returns the quotes of that
    /// date, one rate per currency. A date that does not read as
    /// year-month-day is passed over.
    pub fn parse_rates_for_most_recent(rates: Vec<DatedRates>) -> (out: Vec<ProviderRate>)
        ensures
            rate_views(out@) == reduced(rates@),
            forall|p: int| 0 <= p < out.len() ==> 1 <= (#[trigger] out[p]).month <= 12,
            (forall|i: int| 0 <= i < rates.len() ==> (#[trigger] rates[i]).wf()) ==> distinct_keys(
                rate_views(out@),
            ),
    {
        let dates = parse_dates(&rates, FRANKFURTER_DATE_FORMAT);
        Self::reduce_with_dates(&rates, &dates)
    }
}

} // verus!
