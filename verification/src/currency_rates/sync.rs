//! The synchronization of stored rates with what the providers observed.

use crate::currency_rates::currency_rate::{
    distinct_ids, id_view, CurrencyRateService, RateFields, StoreError,
};
use crate::currency_rates::stability::{
    all_well_aimed, applied_upto, as_given, fields_of, fresh_ids, kept,
    law_well_aimed_writes_keep_finalized_rates, lemma_after_first_pass,
    lemma_planned_is_well_aimed, lemma_second_pass, same_but_timestamp, settled, synchronized,
};
use crate::currency_rates::sync_frankfurter::FetchFailure;
use crate::dates::{
    after_month_end, is_after_month_end, lemma_after_month_end_is_later_month, month_before,
    Timestamp,
};
use crate::models::{
    row_views, Account, BalanceSheet, CurrencyRate, CurrencyRateView, Quantity, RateKey,
    UserSettings,
};
use crate::text::texts;
use vstd::prelude::*;
use vstd::string::*;

verus! {

/// The providers this library knows. The list is closed.
#[derive(Debug, Clone, Copy, PartialEq, Eq, Structural)]
pub enum ProviderKind {
    Frankfurter,
}

impl ProviderKind {
    /// The name under which the provider's rates are stored.
    pub open spec fn name(self) -> Seq<char> {
        match self {
            ProviderKind::Frankfurter => "frankfurter"@,
        }
    }

    /// The name under which the provider's rates are stored.
    pub fn as_str(self) -> (r: &'static str)
        ensures
            r@ == self.name(),
    {
        match self {
            ProviderKind::Frankfurter => "frankfurter",
        }
    }
}

/// What a synchronization starts from.
#[derive(Debug)]
pub struct SyncInputs {
    pub home_currency: String,
    pub foreign_currencies: Vec<String>,
    pub years: Vec<i32>,
    pub existing_rates: Vec<CurrencyRate>,
}

/// One observation after reduction: the value that speaks for `currency` in
/// the month `(year, month)`.
#[derive(Debug, Clone)]
pub struct ProviderRate {
    pub year: i32,
    pub month: u32,
    pub currency: String,
    pub value: Quantity,
}

/// A `ProviderRate` as a mathematical value.
pub struct ProviderRateView {
    pub year: i32,
    pub month: u32,
    pub currency: Seq<char>,
    pub value: Quantity,
}

impl View for ProviderRate {
    type V = ProviderRateView;

    open spec fn view(&self) -> ProviderRateView {
        ProviderRateView {
            year: self.year,
            month: self.month,
            currency: self.currency@,
            value: self.value,
        }
    }
}

impl ProviderRateView {
    /// Two observations speak of the same currency in the same month.
    pub open spec fn same_key(self, other: ProviderRateView) -> bool {
        self.year == other.year && self.month == other.month && self.currency == other.currency
    }
}

/// The views of a list of observations.
pub open spec fn rate_views(rates: Seq<ProviderRate>) -> Seq<ProviderRateView> {
    rates.map_values(|r: ProviderRate| r@)
}

/// No two observations of the list speak of the same currency in the same
/// month.
pub open spec fn distinct_keys(rates: Seq<ProviderRateView>) -> bool {
    forall|p: int, q: int|
        0 <= p < q < rates.len() ==> !(#[trigger] rates[p]).same_key(#[trigger] rates[q])
}

/// The reduced observations of one provider.
#[derive(Debug)]
pub struct ProviderRates {
    pub provider: ProviderKind,
    pub rates: Vec<ProviderRate>,
}

/// The last of the first `n` rows that is stored under `key`.
pub open spec fn stored_under(rows: Seq<CurrencyRateView>, key: RateKey, n: int) -> Option<int>
    decreases n,
{
    if n <= 0 {
        None
    } else if rows[n - 1].key() == key {
        Some(n - 1)
    } else {
        stored_under(rows, key, n - 1)
    }
}

/// What `stored_under` finds is a row stored under the key, the last one
/// among the first `n`; where it finds none, there is none among them.
pub proof fn lemma_stored_under(rows: Seq<CurrencyRateView>, key: RateKey, n: int)
    requires
        0 <= n <= rows.len(),
    ensures
        match stored_under(rows, key, n) {
            Some(i) => 0 <= i < n && rows[i].key() == key && forall|j: int|
                i < j < n ==> (#[trigger] rows[j]).key() != key,
            None => forall|j: int| 0 <= j < n ==> (#[trigger] rows[j]).key() != key,
        },
    decreases n,
{
    if n > 0 {
        lemma_stored_under(rows, key, n - 1);
    }
}

/// The row that counts as the stored rate of `key`: the last one stored
/// under it.
pub open spec fn current_row(rows: Seq<CurrencyRateView>, key: RateKey) -> Option<int> {
    stored_under(rows, key, rows.len() as int)
}

/// The row was written after the last day of its month.
pub open spec fn is_finalized(row: CurrencyRateView) -> bool {
    after_month_end(row.timestamp.date, row.year, row.month)
}

/// A rate is finalized exactly when it was written in a month later than its
/// own: as long as a rate is written within its month, the last day
/// included, a later synchronization may refine it.
pub proof fn law_finalized_means_written_in_a_later_month(row: CurrencyRateView)
    requires
        row.timestamp.wf(),
        1 <= row.month <= 12,
    ensures
        is_finalized(row) == month_before(row.year, row.month, row.timestamp.date),
{
    lemma_after_month_end_is_later_month(row.timestamp.date, row.year, row.month);
}

/// The stored rate of `key` exists and is finalized: no synchronization may
/// write it again.
pub open spec fn frozen(rows: Seq<CurrencyRateView>, key: RateKey) -> bool {
    match current_row(rows, key) {
        Some(i) => is_finalized(rows[i]),
        None => false,
    }
}

/// One write of a synchronization: the value of an observation for a
/// currency pair and month, and the row it replaces, if there is one. Where
/// `value` is what the provider observed, the rate to store is its
/// reciprocal, and zero where `value` is zero; where the observations were
/// given with the rates to store, `value` is that rate.
#[derive(Debug, Clone)]
pub struct RateUpsert {
    pub existing_id: Option<String>,
    pub from_currency: String,
    pub to_currency: String,
    pub provider: String,
    pub value: Quantity,
    pub month: u32,
    pub year: i32,
}

/// A `RateUpsert` as a mathematical value.
pub struct RateUpsertView {
    pub existing_id: Option<Seq<char>>,
    pub from_currency: Seq<char>,
    pub to_currency: Seq<char>,
    pub provider: Seq<char>,
    pub value: Quantity,
    pub month: u32,
    pub year: i32,
}

impl View for RateUpsert {
    type V = RateUpsertView;

    open spec fn view(&self) -> RateUpsertView {
        RateUpsertView {
            existing_id: match self.existing_id {
                Some(id) => Some(id@),
                None => None,
            },
            from_currency: self.from_currency@,
            to_currency: self.to_currency@,
            provider: self.provider@,
            value: self.value,
            month: self.month,
            year: self.year,
        }
    }
}

impl RateUpsertView {
    /// The key the write is stored under.
    pub open spec fn key(self) -> RateKey {
        RateKey {
            from_currency: self.from_currency,
            to_currency: self.to_currency,
            year: self.year,
            month: self.month,
        }
    }
}

/// The views of a list of writes.
pub open spec fn upsert_views(writes: Seq<RateUpsert>) -> Seq<RateUpsertView> {
    writes.map_values(|w: RateUpsert| w@)
}

/// The key under which the observation is stored for the home currency.
pub open spec fn key_of(rate: ProviderRateView, home: Seq<char>) -> RateKey {
    RateKey { from_currency: rate.currency, to_currency: home, year: rate.year, month: rate.month }
}

/// The write that stores the observation.
pub open spec fn write_of(
    rate: ProviderRateView,
    home: Seq<char>,
    provider: Seq<char>,
    rows: Seq<CurrencyRateView>,
) -> RateUpsertView {
    RateUpsertView {
        existing_id: match current_row(rows, key_of(rate, home)) {
            Some(i) => Some(rows[i].id),
            None => None,
        },
        from_currency: rate.currency,
        to_currency: home,
        provider,
        value: rate.value,
        month: rate.month,
        year: rate.year,
    }
}

/// The write is one that a synchronization over `rows` plans: its key is not
/// frozen, and it aims at the stored rate of its key.
pub open spec fn well_aimed(rows: Seq<CurrencyRateView>, write: RateUpsertView) -> bool {
    &&& !frozen(rows, write.key())
    &&& write.existing_id == match current_row(rows, write.key()) {
        Some(i) => Some(rows[i].id),
        None => None,
    }
}

/// The writes for the first `n` observations, in their order: one for each
/// observation whose stored rate is not frozen.
pub open spec fn planned_upto(
    rates: Seq<ProviderRateView>,
    home: Seq<char>,
    provider: Seq<char>,
    rows: Seq<CurrencyRateView>,
    n: int,
) -> Seq<RateUpsertView>
    decreases n,
{
    if n <= 0 {
        Seq::empty()
    } else if frozen(rows, key_of(rates[n - 1], home)) {
        planned_upto(rates, home, provider, rows, n - 1)
    } else {
        planned_upto(rates, home, provider, rows, n - 1).push(
            write_of(rates[n - 1], home, provider, rows),
        )
    }
}

/// The writes of a synchronization: one for each observation whose stored
/// rate is not frozen.
pub open spec fn planned(
    rates: Seq<ProviderRateView>,
    home: Seq<char>,
    provider: Seq<char>,
    rows: Seq<CurrencyRateView>,
) -> Seq<RateUpsertView> {
    planned_upto(rates, home, provider, rows, rates.len() as int)
}

/// The observations with `values` in the place of their own values, one for
/// one.
pub open spec fn with_values(rates: Seq<ProviderRateView>, values: Seq<Quantity>) -> Seq<
    ProviderRateView,
> {
    Seq::new(
        rates.len(),
        |m: int|
            ProviderRateView {
                year: rates[m].year,
                month: rates[m].month,
                currency: rates[m].currency,
                value: values[m],
            },
    )
}

/// Observations given other values keep their keys, so no two of them have
/// the same key where no two had.
pub proof fn lemma_with_values_keeps_keys(rates: Seq<ProviderRateView>, values: Seq<Quantity>)
    requires
        distinct_keys(rates),
    ensures
        distinct_keys(with_values(rates, values)),
{
    let given = with_values(rates, values);
    assert forall|p: int, q: int| 0 <= p < q < given.len() implies !(#[trigger] given[p]).same_key(
        #[trigger] given[q],
    ) by {
        assert(!rates[p].same_key(rates[q]));
    }
}

/// There are no more writes than observations.
pub proof fn lemma_planned_len(
    rates: Seq<ProviderRateView>,
    home: Seq<char>,
    provider: Seq<char>,
    rows: Seq<CurrencyRateView>,
    n: int,
)
    requires
        0 <= n,
    ensures
        planned_upto(rates, home, provider, rows, n).len() <= n,
    decreases n,
{
    if n > 0 {
        lemma_planned_len(rates, home, provider, rows, n - 1);
    }
}

impl ProviderRates {
    /// Every observation names a month of the calendar.
    pub open spec fn wf(&self) -> bool {
        forall|p: int| 0 <= p < self.rates.len() ==> 1 <= (#[trigger] self.rates[p]).month <= 12
    }
}

/// Why a synchronization failed as a whole.
#[derive(Clone, Debug)]
pub enum SyncError {
    /// There are no user settings, so no home currency.
    SettingsNotFound,
    /// Every provider failed; the failure is that of the first one.
    AllProvidersFailed(FetchFailure),
}

impl SyncError {
    /// The error in words.
    pub open spec fn text(self) -> Seq<char> {
        match self {
            SyncError::SettingsNotFound => "User settings not found"@,
            SyncError::AllProvidersFailed(failure) => failure.text(),
        }
    }

    /// The error in words.
    pub fn message(&self) -> (r: String)
        ensures
            r@ == self.text(),
    {
        match self {
            SyncError::SettingsNotFound => String::from_str("User settings not found"),
            SyncError::AllProvidersFailed(failure) => failure.message(),
        }
    }
}

/// How asking one provider ended.
#[derive(Debug)]
pub enum ProviderOutcome {
    /// The provider was not asked.
    Skipped,
    /// The provider was asked and brought nothing.
    Failed(FetchFailure),
    /// The provider brought its observations.
    Fetched(ProviderRates),
}

/// What a synchronization comes to.
#[derive(Debug)]
pub enum SyncDecision {
    /// No provider brought anything: nothing is written, and the
    /// synchronization counts as not having run.
    NothingToDo,
    /// These writes are to be made, in this order; a write that fails does
    /// not stop the others. The synchronization counts as having run.
    Write(Vec<RateUpsert>),
}

/// The currencies of the accounts, in their order.
pub open spec fn account_currencies(accounts: Seq<Account>) -> Seq<Seq<char>> {
    Seq::new(accounts.len(), |i: int| accounts[i].currency@)
}

/// The years of the balance sheets, in their order.
pub open spec fn sheet_years(sheets: Seq<BalanceSheet>) -> Seq<i32> {
    Seq::new(sheets.len(), |i: int| sheets[i].year)
}

/// Those of the first `n` currencies that are not the home currency, each
/// once, in the order of first appearance.
pub open spec fn distinct_foreign(currencies: Seq<Seq<char>>, home: Seq<char>, n: int) -> Seq<
    Seq<char>,
>
    decreases n,
{
    if n <= 0 {
        Seq::empty()
    } else {
        let before = distinct_foreign(currencies, home, n - 1);
        if currencies[n - 1] == home || before.contains(currencies[n - 1]) {
            before
        } else {
            before.push(currencies[n - 1])
        }
    }
}

/// The foreign currencies hold every currency that differs from the home
/// currency, none that does not, and none twice.
pub proof fn law_foreign_currencies_once_each(currencies: Seq<Seq<char>>, home: Seq<char>, n: int)
    requires
        0 <= n <= currencies.len(),
    ensures
        forall|c: Seq<char>|
            distinct_foreign(currencies, home, n).contains(c) <==> (c != home && exists|i: int|
                0 <= i < n && #[trigger] currencies[i] == c),
        forall|a: int, b: int|
            0 <= a < b < distinct_foreign(currencies, home, n).len() ==> #[trigger] distinct_foreign(
                currencies,
                home,
                n,
            )[a] != #[trigger] distinct_foreign(currencies, home, n)[b],
    decreases n,
{
    if n > 0 {
        law_foreign_currencies_once_each(currencies, home, n - 1);
        let before = distinct_foreign(currencies, home, n - 1);
        let all = distinct_foreign(currencies, home, n);
        let last = currencies[n - 1];
        assert forall|c: Seq<char>| all.contains(c) <==> (c != home && exists|i: int|
            0 <= i < n && #[trigger] currencies[i] == c) by {
            if all.contains(c) {
                let k = choose|k: int| 0 <= k < all.len() && all[k] == c;
                if k < before.len() {
                    assert(before[k] == c);
                    assert(before.contains(c));
                    let i = choose|i: int| 0 <= i < n - 1 && #[trigger] currencies[i] == c;
                    assert(0 <= i < n && currencies[i] == c);
                } else {
                    assert(c == last);
                    assert(currencies[n - 1] == c);
                }
            }
            if c != home && exists|i: int| 0 <= i < n && #[trigger] currencies[i] == c {
                let i = choose|i: int| 0 <= i < n && #[trigger] currencies[i] == c;
                if i < n - 1 {
                    assert(before.contains(c));
                    let k = choose|k: int| 0 <= k < before.len() && before[k] == c;
                    assert(all[k] == c);
                } else if before.contains(c) {
                    let k = choose|k: int| 0 <= k < before.len() && before[k] == c;
                    assert(all[k] == c);
                } else {
                    assert(all[all.len() - 1] == c);
                }
            }
        }
        assert forall|a: int, b: int| 0 <= a < b < all.len() implies #[trigger] all[a]
            != #[trigger] all[b] by {
            if b < before.len() {
                assert(before[a] != before[b]);
            } else {
                assert(all[a] == before[a]);
                assert(before.contains(before[a]));
            }
        }
    }
}

/// Every one of the first `n` outcomes is a failure.
pub open spec fn all_failed(outcomes: Seq<ProviderOutcome>, n: int) -> bool {
    forall|i: int| 0 <= i < n ==> (#[trigger] outcomes[i]) is Failed
}

/// One of the first `n` outcomes brought observations.
pub open spec fn any_fetched(outcomes: Seq<ProviderOutcome>, n: int) -> bool {
    exists|i: int| 0 <= i < n && (#[trigger] outcomes[i]) is Fetched
}

/// An outcome that brought nothing adds nothing to what was fetched.
pub proof fn lemma_no_more_fetched(outcomes: Seq<ProviderOutcome>, i: int)
    requires
        0 <= i < outcomes.len(),
        !(outcomes[i] is Fetched),
    ensures
        any_fetched(outcomes, i + 1) == any_fetched(outcomes, i),
{
    if any_fetched(outcomes, i + 1) {
        let q = choose|q: int| 0 <= q < i + 1 && (#[trigger] outcomes[q]) is Fetched;
        assert(q < i);
    }
    if any_fetched(outcomes, i) {
        let q = choose|q: int| 0 <= q < i && (#[trigger] outcomes[q]) is Fetched;
        assert(0 <= q < i + 1);
    }
}

/// The writes for what the first `n` providers brought, provider after
/// provider, all decided against the same stored rates.
pub open spec fn writes_upto(
    outcomes: Seq<ProviderOutcome>,
    home: Seq<char>,
    rows: Seq<CurrencyRateView>,
    n: int,
) -> Seq<RateUpsertView>
    decreases n,
{
    if n <= 0 {
        Seq::empty()
    } else {
        match outcomes[n - 1] {
            ProviderOutcome::Fetched(parsed) => writes_upto(outcomes, home, rows, n - 1) + planned(
                rate_views(parsed.rates@),
                home,
                parsed.provider.name(),
                rows,
            ),
            _ => writes_upto(outcomes, home, rows, n - 1),
        }
    }
}

/// The synchronization over every provider: its inputs, what it writes for
/// the observations of a provider, and what it comes to.
pub struct SyncService;

impl SyncService {
    /// The providers a synchronization asks, in order.
    pub fn provider_candidates() -> (r: Vec<ProviderKind>)
        ensures
            r@ == seq![ProviderKind::Frankfurter],
    {
        vec![ProviderKind::Frankfurter]
    }

    /// Puts together what a synchronization starts from: the home currency
    /// of the first settings, the currencies of the accounts that differ
    /// from it, each once, the years of the balance sheets, and the stored
    /// rates. Fails where there are no settings.
    pub fn gather_sync_inputs(
        settings: &Vec<UserSettings>,
        accounts: &Vec<Account>,
        sheets: &Vec<BalanceSheet>,
        all_rates: Vec<CurrencyRate>,
    ) -> (r: Result<SyncInputs, SyncError>)
        ensures
            settings.len() == 0 ==> r matches Err(SyncError::SettingsNotFound),
            settings.len() > 0 ==> (r matches Ok(inputs) && {
                &&& inputs.home_currency@ == settings[0].home_currency@
                &&& texts(inputs.foreign_currencies@) == distinct_foreign(
                    account_currencies(accounts@),
                    settings[0].home_currency@,
                    accounts.len() as int,
                )
                &&& inputs.years@ == sheet_years(sheets@)
                &&& inputs.existing_rates == all_rates
            }),
    {
        if settings.len() == 0 {
            return Err(SyncError::SettingsNotFound);
        }
        let home_currency = settings[0].home_currency.clone();
        let mut foreign_currencies: Vec<String> = Vec::new();
        let mut i: usize = 0;
        while i < accounts.len()
            invariant
                0 <= i <= accounts.len(),
                home_currency@ == settings[0].home_currency@,
                texts(foreign_currencies@) == distinct_foreign(
                    account_currencies(accounts@),
                    home_currency@,
                    i as int,
                ),
            decreases accounts.len() - i,
        {
            let currency = &accounts[i].currency;
            assert(account_currencies(accounts@)[i as int] == currency@);
            if !(*currency == home_currency) {
                let mut known = false;
                let mut k: usize = 0;
                while k < foreign_currencies.len()
                    invariant
                        0 <= k <= foreign_currencies.len(),
                        known == exists|q: int|
                            0 <= q < k && #[trigger] texts(foreign_currencies@)[q] == currency@,
                    decreases foreign_currencies.len() - k,
                {
                    assert(texts(foreign_currencies@)[k as int] == foreign_currencies[k as int]@);
                    if foreign_currencies[k] == *currency {
                        known = true;
                    }
                    k = k + 1;
                }
                assert(known == texts(foreign_currencies@).contains(currency@));
                if !known {
                    let added = currency.clone();
                    assert(texts(foreign_currencies@.push(added)) =~= texts(
                        foreign_currencies@,
                    ).push(added@));
                    foreign_currencies.push(added);
                }
            }
            i = i + 1;
        }
        let mut years: Vec<i32> = Vec::new();
        let mut j: usize = 0;
        while j < sheets.len()
            invariant
                0 <= j <= sheets.len(),
                years.len() == j,
                forall|q: int| 0 <= q < j ==> #[trigger] years[q] == sheets[q].year,
            decreases sheets.len() - j,
        {
            years.push(sheets[j].year);
            j = j + 1;
        }
        assert(years@ =~= sheet_years(sheets@));
        Ok(SyncInputs { home_currency, foreign_currencies, years, existing_rates: all_rates })
    }

    /// Decides what a synchronization comes to, from how asking each
    /// provider ended. Where every provider failed, the synchronization
    /// fails with the failure of the first. Where none brought anything,
    /// nothing is to be done. Else the observations of each provider that
    /// brought some are ingested, in the order of the providers.
    pub fn sync_exchange_rates(inputs: &SyncInputs, outcomes: &Vec<ProviderOutcome>) -> (r: Result<
        SyncDecision,
        SyncError,
    >)
        requires
            forall|i: int|
                0 <= i < outcomes.len() ==> ((#[trigger] outcomes[i]) matches ProviderOutcome::Fetched(
                    parsed,
                ) ==> parsed.wf()),
        ensures
            outcomes.len() > 0 && all_failed(outcomes@, outcomes.len() as int) ==> (r matches Err(
                SyncError::AllProvidersFailed(failure),
            ) && outcomes[0] == ProviderOutcome::Failed(failure)),
            !(outcomes.len() > 0 && all_failed(outcomes@, outcomes.len() as int)) && !any_fetched(
                outcomes@,
                outcomes.len() as int,
            ) ==> r matches Ok(SyncDecision::NothingToDo),
            any_fetched(outcomes@, outcomes.len() as int) ==> (r matches Ok(
                SyncDecision::Write(writes),
            ) && upsert_views(writes@) == writes_upto(
                outcomes@,
                inputs.home_currency@,
                row_views(inputs.existing_rates@),
                outcomes.len() as int,
            )),
            r matches Ok(SyncDecision::Write(writes)) ==> all_well_aimed(
                row_views(inputs.existing_rates@),
                upsert_views(writes@),
            ),
    {
        let mut writes: Vec<RateUpsert> = Vec::new();
        let mut fetched = false;
        let mut failed = true;
        let mut i: usize = 0;
        while i < outcomes.len()
            invariant
                0 <= i <= outcomes.len(),
                forall|k: int|
                    0 <= k < outcomes.len() ==> ((#[trigger] outcomes[k]) matches ProviderOutcome::Fetched(
                        parsed,
                    ) ==> parsed.wf()),
                fetched == any_fetched(outcomes@, i as int),
                failed == all_failed(outcomes@, i as int),
                all_well_aimed(row_views(inputs.existing_rates@), upsert_views(writes@)),
                upsert_views(writes@) == writes_upto(
                    outcomes@,
                    inputs.home_currency@,
                    row_views(inputs.existing_rates@),
                    i as int,
                ),
            decreases outcomes.len() - i,
        {
            match &outcomes[i] {
                ProviderOutcome::Fetched(parsed) => {
                    let mut more = Self::ingest_provider_rates(parsed, inputs);
                    let ghost before = writes@;
                    let ghost added = more@;
                    writes.append(&mut more);
                    assert(upsert_views(before + added) =~= upsert_views(before) + upsert_views(
                        added,
                    ));
                    assert forall|t: int| 0 <= t < writes.len() implies well_aimed(
                        row_views(inputs.existing_rates@),
                        #[trigger] upsert_views(writes@)[t],
                    ) by {
                        if t < before.len() {
                            assert(upsert_views(writes@)[t] == upsert_views(before)[t]);
                        } else {
                            assert(upsert_views(writes@)[t] == upsert_views(added)[t
                                - before.len()]);
                        }
                    }
                    fetched = true;
                    failed = false;
                    assert(outcomes@[i as int] is Fetched);
                },
                ProviderOutcome::Failed(_) => {
                    proof {
                        lemma_no_more_fetched(outcomes@, i as int);
                    }
                },
                ProviderOutcome::Skipped => {
                    failed = false;
                    assert(!(outcomes@[i as int] is Failed));
                    proof {
                        lemma_no_more_fetched(outcomes@, i as int);
                    }
                },
            }
            i = i + 1;
        }
        if outcomes.len() > 0 && failed {
            match &outcomes[0] {
                ProviderOutcome::Failed(failure) => Err(
                    SyncError::AllProvidersFailed(failure.duplicate()),
                ),
                _ => Ok(SyncDecision::NothingToDo),
            }
        } else if fetched {
            Ok(SyncDecision::Write(writes))
        } else {
            Ok(SyncDecision::NothingToDo)
        }
    }

    /// The position of the row that counts as the stored rate of the key.
    pub fn find_existing(
        rows: &Vec<CurrencyRate>,
        year: i32,
        month: u32,
        from_currency: &String,
        to_currency: &String,
    ) -> (r: Option<usize>)
        ensures
            match r {
                Some(i) => i < rows.len() && current_row(
                    row_views(rows@),
                    (RateKey {
                        from_currency: from_currency@,
                        to_currency: to_currency@,
                        year,
                        month,
                    }),
                ) == Some(i as int),
                None => current_row(
                    row_views(rows@),
                    (RateKey {
                        from_currency: from_currency@,
                        to_currency: to_currency@,
                        year,
                        month,
                    }),
                ) is None,
            },
    {
        let ghost key = RateKey {
            from_currency: from_currency@,
            to_currency: to_currency@,
            year,
            month,
        };
        let mut found: Option<usize> = None;
        let mut i: usize = 0;
        while i < rows.len()
            invariant
                0 <= i <= rows.len(),
                key == (RateKey {
                    from_currency: from_currency@,
                    to_currency: to_currency@,
                    year,
                    month,
                }),
                match found {
                    Some(f) => f < i && stored_under(row_views(rows@), key, i as int) == Some(
                        f as int,
                    ),
                    None => stored_under(row_views(rows@), key, i as int) is None,
                },
            decreases rows.len() - i,
        {
            let row = &rows[i];
            assert(row_views(rows@)[i as int] == row@);
            if row.year == year && row.month == month && row.from_currency == *from_currency
                && row.to_currency == *to_currency {
                assert(row@.key() == key);
                found = Some(i);
            } else {
                assert(row@.key() != key);
            }
            i = i + 1;
        }
        found
    }

    /// Decides what a synchronization writes for the observations of one
    /// provider: an observation whose stored rate was written after the last
    /// day of its month is passed over; every other one is written, over the
    /// stored rate where there is one.
    pub fn ingest_provider_rates(parsed: &ProviderRates, inputs: &SyncInputs) -> (writes: Vec<
        RateUpsert,
    >)
        requires
            parsed.wf(),
        ensures
            upsert_views(writes@) == planned(
                rate_views(parsed.rates@),
                inputs.home_currency@,
                parsed.provider.name(),
                row_views(inputs.existing_rates@),
            ),
            writes.len() <= parsed.rates.len(),
            all_well_aimed(row_views(inputs.existing_rates@), upsert_views(writes@)),
    {
        let ghost rates = rate_views(parsed.rates@);
        let ghost home = inputs.home_currency@;
        let ghost rows = row_views(inputs.existing_rates@);
        let mut writes: Vec<RateUpsert> = Vec::new();
        let mut n: usize = 0;
        while n < parsed.rates.len()
            invariant
                0 <= n <= parsed.rates.len(),
                parsed.wf(),
                rates == rate_views(parsed.rates@),
                home == inputs.home_currency@,
                rows == row_views(inputs.existing_rates@),
                upsert_views(writes@) == planned_upto(
                    rates,
                    home,
                    parsed.provider.name(),
                    rows,
                    n as int,
                ),
            decreases parsed.rates.len() - n,
        {
            let rate = &parsed.rates[n];
            assert(rates[n as int] == rate@);
            let existing = Self::find_existing(
                &inputs.existing_rates,
                rate.year,
                rate.month,
                &rate.currency,
                &inputs.home_currency,
            );
            proof {
                lemma_stored_under(rows, key_of(rates[n as int], home), rows.len() as int);
            }
            let is_frozen = match existing {
                Some(i) => {
                    assert(rows[i as int] == inputs.existing_rates[i as int]@);
                    is_after_month_end(
                        &inputs.existing_rates[i].timestamp.date,
                        rate.year,
                        rate.month,
                    )
                },
                None => false,
            };
            assert(is_frozen == frozen(rows, key_of(rates[n as int], home)));
            if !is_frozen {
                let existing_id = match existing {
                    Some(i) => Some(inputs.existing_rates[i].id.clone()),
                    None => None,
                };
                let write = RateUpsert {
                    existing_id,
                    from_currency: rate.currency.clone(),
                    to_currency: inputs.home_currency.clone(),
                    provider: String::from_str(parsed.provider.as_str()),
                    value: rate.value,
                    month: rate.month,
                    year: rate.year,
                };
                proof {
                    assert(write@ == write_of(rates[n as int], home, parsed.provider.name(), rows));
                    assert(upsert_views(writes@.push(write)) =~= upsert_views(writes@).push(
                        write@,
                    ));
                }
                writes.push(write);
            }
            n = n + 1;
        }
        proof {
            lemma_planned_len(rates, home, parsed.provider.name(), rows, rates.len() as int);
            lemma_planned_is_well_aimed(rates, home, parsed.provider.name(), rows);
        }
        writes
    }

    /// Makes the writes on the table, one after the other; each write stores
    /// the value it carries. Write `t` adds its row, if it adds one, under
    /// `new_ids[t]`, and happens at `nows[t]`. A write whose new identifier
    /// is taken is refused and does not stop the others. Hands back how each
    /// write ended.
    pub fn apply_writes(
        rows: &mut Vec<CurrencyRate>,
        writes: &Vec<RateUpsert>,
        new_ids: &Vec<String>,
        nows: &Vec<Timestamp>,
    ) -> (results: Vec<Result<CurrencyRate, StoreError>>)
        requires
            writes.len() <= new_ids.len(),
            writes.len() <= nows.len(),
        ensures
            row_views(final(rows)@) == applied_upto(
                row_views(old(rows)@),
                upsert_views(writes@),
                as_given(),
                texts(new_ids@),
                nows@,
                writes.len() as int,
            ),
            results.len() == writes.len(),
            distinct_ids(row_views(old(rows)@)) && all_well_aimed(
                row_views(old(rows)@),
                upsert_views(writes@),
            ) ==> forall|r: int|
                0 <= r < old(rows).len() && current_row(
                    row_views(old(rows)@),
                    row_views(old(rows)@)[r].key(),
                ) == Some(r) && is_finalized(row_views(old(rows)@)[r]) ==> #[trigger] kept(
                    row_views(old(rows)@),
                    row_views(final(rows)@),
                    r,
                ),
    {
        let mut results: Vec<Result<CurrencyRate, StoreError>> = Vec::new();
        let mut t: usize = 0;
        while t < writes.len()
            invariant
                0 <= t <= writes.len(),
                writes.len() <= new_ids.len(),
                writes.len() <= nows.len(),
                results.len() == t,
                row_views(rows@) == applied_upto(
                    row_views(old(rows)@),
                    upsert_views(writes@),
                    as_given(),
                    texts(new_ids@),
                    nows@,
                    t as int,
                ),
            decreases writes.len() - t,
        {
            let write = &writes[t];
            let id = match &write.existing_id {
                Some(uid) => Some(uid.clone()),
                None => None,
            };
            proof {
                assert(upsert_views(writes@)[t as int] == write@);
                assert(texts(new_ids@)[t as int] == new_ids[t as int]@);
                assert(id_view(id) == write@.existing_id);
                assert(fields_of(write@, as_given()) == (RateFields {
                    from_currency: write.from_currency@,
                    to_currency: write.to_currency@,
                    provider: write.provider@,
                    rate: write.value,
                    month: write.month,
                    year: write.year,
                }));
            }
            let result = CurrencyRateService::upsert_with(
                rows,
                id,
                write.from_currency.clone(),
                write.to_currency.clone(),
                write.provider.clone(),
                write.value,
                write.month,
                write.year,
                new_ids[t].clone(),
                nows[t],
            );
            results.push(result);
            t = t + 1;
        }
        proof {
            let before = row_views(old(rows)@);
            if distinct_ids(before) && all_well_aimed(before, upsert_views(writes@)) {
                assert forall|r: int|
                    0 <= r < before.len() && current_row(before, before[r].key()) == Some(r)
                        && is_finalized(before[r]) implies #[trigger] kept(
                    before,
                    row_views(rows@),
                    r,
                ) by {
                    law_well_aimed_writes_keep_finalized_rates(
                        before,
                        upsert_views(writes@),
                        as_given(),
                        texts(new_ids@),
                        nows@,
                        r,
                    );
                }
            }
        }
        results
    }

    /// Synchronizes the table with the observations of one provider.
    /// `stored[m]` is the rate to store for observation `m`. Plans the writes
    /// against the table as it is, then makes them as `apply_writes` does. A
    /// stored rate that is finalized is kept as it is, and no row comes under
    /// its key.
    pub fn synchronize(
        rows: &mut Vec<CurrencyRate>,
        parsed: &ProviderRates,
        stored: &Vec<Quantity>,
        home_currency: &String,
        new_ids: &Vec<String>,
        nows: &Vec<Timestamp>,
    ) -> (results: Vec<Result<CurrencyRate, StoreError>>)
        requires
            parsed.wf(),
            stored.len() == parsed.rates.len(),
            parsed.rates.len() <= new_ids.len(),
            parsed.rates.len() <= nows.len(),
        ensures
            row_views(final(rows)@) == synchronized(
                row_views(old(rows)@),
                with_values(rate_views(parsed.rates@), stored@),
                home_currency@,
                parsed.provider.name(),
                as_given(),
                texts(new_ids@),
                nows@,
            ),
            results.len() == planned(
                with_values(rate_views(parsed.rates@), stored@),
                home_currency@,
                parsed.provider.name(),
                row_views(old(rows)@),
            ).len(),
            distinct_ids(row_views(old(rows)@)) ==> forall|r: int|
                0 <= r < old(rows).len() && current_row(
                    row_views(old(rows)@),
                    row_views(old(rows)@)[r].key(),
                ) == Some(r) && is_finalized(row_views(old(rows)@)[r]) ==> #[trigger] kept(
                    row_views(old(rows)@),
                    row_views(final(rows)@),
                    r,
                ),
            distinct_ids(row_views(old(rows)@)) && distinct_keys(rate_views(parsed.rates@))
                && fresh_ids(row_views(old(rows)@), texts(new_ids@), results.len() as int)
                ==> distinct_ids(row_views(final(rows)@)) && forall|m: int|
                0 <= m < parsed.rates.len() ==> settled(
                    row_views(final(rows)@),
                    #[trigger] with_values(rate_views(parsed.rates@), stored@)[m],
                    home_currency@,
                    parsed.provider.name(),
                    as_given(),
                ),
            distinct_ids(row_views(old(rows)@)) && (forall|m: int|
                0 <= m < parsed.rates.len() ==> settled(
                    row_views(old(rows)@),
                    #[trigger] with_values(rate_views(parsed.rates@), stored@)[m],
                    home_currency@,
                    parsed.provider.name(),
                    as_given(),
                )) ==> final(rows).len() == old(rows).len() && forall|j: int|
                0 <= j < old(rows).len() ==> same_but_timestamp(
                    #[trigger] row_views(final(rows)@)[j],
                    row_views(old(rows)@)[j],
                ),
    {
        let mut given: Vec<ProviderRate> = Vec::new();
        let mut m: usize = 0;
        while m < parsed.rates.len()
            invariant
                0 <= m <= parsed.rates.len(),
                stored.len() == parsed.rates.len(),
                parsed.wf(),
                given.len() == m,
                forall|q: int|
                    0 <= q < m ==> (#[trigger] given[q])@ == with_values(
                        rate_views(parsed.rates@),
                        stored@,
                    )[q],
            decreases parsed.rates.len() - m,
        {
            let rate = &parsed.rates[m];
            assert(rate_views(parsed.rates@)[m as int] == rate@);
            given.push(
                ProviderRate {
                    year: rate.year,
                    month: rate.month,
                    currency: rate.currency.clone(),
                    value: stored[m],
                },
            );
            m = m + 1;
        }
        let mut snapshot: Vec<CurrencyRate> = Vec::new();
        let mut j: usize = 0;
        while j < rows.len()
            invariant
                0 <= j <= rows.len(),
                rows@ == old(rows)@,
                snapshot.len() == j,
                forall|q: int| 0 <= q < j ==> #[trigger] snapshot[q] == rows[q],
            decreases rows.len() - j,
        {
            snapshot.push(rows[j].duplicate());
            j = j + 1;
        }
        let given_rates = ProviderRates { provider: parsed.provider, rates: given };
        let inputs = SyncInputs {
            home_currency: home_currency.clone(),
            foreign_currencies: Vec::new(),
            years: Vec::new(),
            existing_rates: snapshot,
        };
        proof {
            assert(rate_views(given_rates.rates@) =~= with_values(
                rate_views(parsed.rates@),
                stored@,
            ));
            assert(inputs.existing_rates@ =~= old(rows)@);
            assert forall|p: int| 0 <= p < given_rates.rates.len() implies 1 <= (
            #[trigger] given_rates.rates[p]).month <= 12 by {
                assert(given_rates.rates[p]@ == with_values(
                    rate_views(parsed.rates@),
                    stored@,
                )[p]);
                assert(rate_views(parsed.rates@)[p] == parsed.rates[p]@);
            }
        }
        let writes = Self::ingest_provider_rates(&given_rates, &inputs);
        let results = Self::apply_writes(rows, &writes, new_ids, nows);
        proof {
            let before = row_views(old(rows)@);
            let rates = with_values(rate_views(parsed.rates@), stored@);
            let name = parsed.provider.name();
            let ids = texts(new_ids@);
            if distinct_ids(before) {
                if distinct_keys(rate_views(parsed.rates@)) && fresh_ids(
                    before,
                    ids,
                    results.len() as int,
                ) {
                    lemma_with_values_keeps_keys(rate_views(parsed.rates@), stored@);
                    if rates.len() == 0 {
                        assert(row_views(rows@) == before);
                    }
                    assert forall|m: int| 0 <= m < rates.len() implies distinct_ids(
                        row_views(rows@),
                    ) && settled(row_views(rows@), #[trigger] rates[m], home_currency@, name, as_given()) by {
                        lemma_after_first_pass(
                            before,
                            rates,
                            home_currency@,
                            name,
                            as_given(),
                            ids,
                            nows@,
                            m,
                        );
                    }
                }
                if forall|m: int|
                    0 <= m < rates.len() ==> settled(
                        before,
                        #[trigger] rates[m],
                        home_currency@,
                        name,
                        as_given(),
                    ) {
                    lemma_second_pass(
                        before,
                        rates,
                        home_currency@,
                        name,
                        as_given(),
                        ids,
                        nows@,
                        planned(rates, home_currency@, name, before).len() as int,
                    );
                    assert(row_views(rows@).len() == rows.len());
                    assert(before.len() == old(rows).len());
                }
            }
        }
        results
    }
}

} // verus!
