use personal_finances::currency_exchange_sync::{PassPlan, SyncService as SinglePassService};
use personal_finances::currency_rates::currency_rate::CurrencyRateService;
use personal_finances::currency_rates::monthly::{CurrencyValue, DatedRates};
use personal_finances::currency_rates::sync::{
    ProviderKind, ProviderOutcome, ProviderRate, ProviderRates, RateUpsert, SyncDecision,
    SyncError, SyncInputs, SyncService,
};
use personal_finances::currency_rates::sync_frankfurter::{
    FetchFailure, FetchPlan, FrankfurterProvider, SkipReason,
};
use personal_finances::dates::{Date, Timestamp};
use personal_finances::models::{Account, BalanceSheet, CurrencyRate, Quantity, UserSettings};

fn quantity(value: f64) -> Quantity {
    Quantity { bits: value.to_bits() }
}

fn value_of(quantity: Quantity) -> f64 {
    f64::from_bits(quantity.bits)
}

fn inverted(value: Quantity) -> Quantity {
    let raw = value_of(value);
    quantity(if raw == 0.0 { 0.0 } else { 1.0 / raw })
}

fn stamp(year: i32, month: u32, day: u32) -> Timestamp {
    Timestamp { date: Date { year, month, day }, second_of_day: 0, nanosecond: 0 }
}

fn settings(home: &str) -> Vec<UserSettings> {
    vec![UserSettings {
        id: "settings-1".to_string(),
        name: "Test User".to_string(),
        home_currency: home.to_string(),
        theme: "Light".to_string(),
        created_at: stamp(2024, 1, 1),
        updated_at: stamp(2024, 1, 1),
    }]
}

fn account(id: &str, name: &str, currency: &str) -> Account {
    Account {
        id: id.to_string(),
        name: name.to_string(),
        account_type: "Asset".to_string(),
        currency: currency.to_string(),
        sort_order: 1,
        is_archived: false,
        created_at: stamp(2024, 1, 1),
    }
}

fn sheet(id: &str, year: i32) -> BalanceSheet {
    BalanceSheet { id: id.to_string(), year, created_at: stamp(2024, 1, 1) }
}

fn stored(
    id: &str,
    from: &str,
    to: &str,
    value: f64,
    month: u32,
    year: i32,
    written: Timestamp,
) -> CurrencyRate {
    CurrencyRate {
        id: id.to_string(),
        from_currency: from.to_string(),
        to_currency: to.to_string(),
        provider: "frankfurter".to_string(),
        rate: quantity(value),
        month,
        year,
        timestamp: written,
    }
}

fn observed(year: i32, month: u32, currency: &str, value: f64) -> ProviderRate {
    ProviderRate { year, month, currency: currency.to_string(), value: quantity(value) }
}

fn inputs(home: &str, foreign: &[&str], years: &[i32], existing: Vec<CurrencyRate>) -> SyncInputs {
    SyncInputs {
        home_currency: home.to_string(),
        foreign_currencies: foreign.iter().map(|c| c.to_string()).collect(),
        years: years.to_vec(),
        existing_rates: existing,
    }
}

fn dated(date: &str, quotes: &[(&str, f64)]) -> DatedRates {
    DatedRates {
        date: date.to_string(),
        rates: quotes
            .iter()
            .map(|(currency, value)| CurrencyValue {
                currency: currency.to_string(),
                value: quantity(*value),
            })
            .collect(),
    }
}

fn fixture() -> Vec<DatedRates> {
    vec![
        dated("2022-01-31", &[("USD", 0.6321), ("EUR", 0.5891)]),
        dated("2022-02-28", &[("USD", 0.6350), ("EUR", 0.5912)]),
        dated("2022-12-31", &[("USD", 0.6420), ("EUR", 0.5985)]),
        dated("2023-06-30", &[("USD", 0.6089), ("EUR", 0.5681)]),
        dated("2023-12-31", &[("USD", 0.6187), ("EUR", 0.5772)]),
        dated("2024-01-31", &[("USD", 0.6150), ("EUR", 0.5742)]),
        dated("2024-06-30", &[("USD", 0.6098), ("EUR", 0.5693)]),
        dated("2024-12-31", &[("USD", 0.5913), ("EUR", 0.5516)]),
    ]
}

fn apply(rows: &mut Vec<CurrencyRate>, writes: &[RateUpsert], now: Timestamp, prefix: &str) {
    for (n, write) in writes.iter().enumerate() {
        CurrencyRateService::upsert_with(
            rows,
            write.existing_id.clone(),
            write.from_currency.clone(),
            write.to_currency.clone(),
            write.provider.clone(),
            inverted(write.value),
            write.month,
            write.year,
            format!("{prefix}-{n}"),
            now,
        )
        .expect("write");
    }
}

fn copy_of(rows: &[CurrencyRate]) -> Vec<CurrencyRate> {
    rows.iter().map(|r| r.duplicate()).collect()
}

fn without_timestamp(row: &CurrencyRate) -> (String, String, String, String, u64, u32, i32) {
    (
        row.id.clone(),
        row.from_currency.clone(),
        row.to_currency.clone(),
        row.provider.clone(),
        row.rate.bits,
        row.month,
        row.year,
    )
}

#[test]
fn test_frankfurter_single_api_call() {
    let settings = settings("NZD");
    let accounts = vec![account("a-1", "US Bank", "USD"), account("a-2", "EU Bank", "EUR")];
    let sheets = vec![sheet("s-1", 2022), sheet("s-2", 2023), sheet("s-3", 2024)];
    let mut table: Vec<CurrencyRate> = Vec::new();

    let gathered =
        SyncService::gather_sync_inputs(&settings, &accounts, &sheets, copy_of(&table))
            .expect("inputs");
    let plan = FrankfurterProvider::plan_fetch(&gathered, Date { year: 2024, month: 12, day: 31 });
    let request = match plan {
        FetchPlan::Request(request) => request,
        FetchPlan::Skip(reason) => panic!("skipped: {:?}", reason),
    };
    assert_eq!(
        request.url,
        "https://api.frankfurter.dev/v1/2022-01-01..2024-12-31?base=NZD&symbols=USD,EUR"
    );

    let fetched = FrankfurterProvider::rates_from_response(Ok(fixture())).expect("rates");
    let outcomes = vec![ProviderOutcome::Fetched(fetched)];
    let result = SyncService::sync_exchange_rates(&gathered, &outcomes);
    let writes = match result {
        Ok(SyncDecision::Write(writes)) => writes,
        other => panic!("Sync should succeed: {:?}", other),
    };
    apply(&mut table, &writes, stamp(2025, 1, 5), "row");

    let all_rates = CurrencyRateService::get_by_date(&table, 2024, 12);
    assert_eq!(all_rates.len(), 2);
    assert_eq!(table.len(), 16);

    let expected_pairs = vec![("USD", "NZD"), ("EUR", "NZD")];
    for (from_currency, to_currency) in &expected_pairs {
        let has_rates = table
            .iter()
            .any(|r| &r.from_currency == *from_currency && &r.to_currency == *to_currency);
        assert!(has_rates, "Should have rates for {from_currency} -> {to_currency}");
    }
    let december = table
        .iter()
        .find(|r| r.year == 2024 && r.month == 12 && r.from_currency == "USD")
        .expect("december");
    assert_eq!(value_of(december.rate), 1.0 / 0.5913);
    assert_eq!(december.provider, "frankfurter");
}

#[test]
fn test_sync_single_api_call() {
    let settings = settings("NZD");
    let accounts = vec![account("a-1", "US Bank", "USD"), account("a-2", "EU Bank", "EUR")];
    let sheets = vec![sheet("s-1", 2022), sheet("s-2", 2023), sheet("s-3", 2024)];
    let mut table: Vec<CurrencyRate> = Vec::new();

    let plan = SinglePassService::plan_sync(
        &settings,
        &accounts,
        &sheets,
        copy_of(&table),
        Some("http://127.0.0.1:9999".to_string()),
        Date { year: 2024, month: 12, day: 31 },
    )
    .expect("plan");
    let request = match plan {
        PassPlan::Request(request) => request,
        PassPlan::Skip(reason) => panic!("skipped: {:?}", reason),
    };
    assert_eq!(
        request.url,
        "http://127.0.0.1:9999/2022-01-01..2024-12-31?base=NZD&symbols=USD,EUR"
    );

    let writes = SinglePassService::process_and_save_rates(
        fixture(),
        &request.inputs.home_currency,
        request.inputs.existing_rates,
    );
    apply(&mut table, &writes, stamp(2025, 1, 5), "row");

    let expected_pairs = vec![("USD", "NZD"), ("EUR", "NZD")];
    for (from_currency, to_currency) in &expected_pairs {
        let has_rates = table
            .iter()
            .any(|r| &r.from_currency == *from_currency && &r.to_currency == *to_currency);
        assert!(has_rates, "Should have rates for {from_currency} -> {to_currency}");
    }
    assert_eq!(table.len(), 16);
}

#[test]
fn single_pass_asks_the_frankfurter_service_by_default() {
    let plan = SinglePassService::plan_sync(
        &settings("NZD"),
        &vec![account("a-1", "US Bank", "USD")],
        &vec![sheet("s-1", 2023)],
        Vec::new(),
        None,
        Date { year: 2024, month: 2, day: 9 },
    )
    .expect("plan");
    match plan {
        PassPlan::Request(request) => assert_eq!(
            request.url,
            "https://api.frankfurter.dev/v1/2023-01-01..2024-02-09?base=NZD&symbols=USD"
        ),
        PassPlan::Skip(reason) => panic!("skipped: {:?}", reason),
    }
}

#[test]
fn single_pass_skips_and_fails_as_told() {
    let today = Date { year: 2024, month: 2, day: 9 };
    let none: Vec<UserSettings> = Vec::new();
    assert!(matches!(
        SinglePassService::plan_sync(&none, &Vec::new(), &Vec::new(), Vec::new(), None, today),
        Err(SyncError::SettingsNotFound)
    ));
    assert!(matches!(
        SinglePassService::sync_exchange_rates(&none, &Vec::new(), &Vec::new(), Vec::new()),
        Err(SyncError::SettingsNotFound)
    ));
    assert!(matches!(
        SinglePassService::plan_sync(
            &settings("NZD"),
            &vec![account("a-1", "Home", "NZD")],
            &vec![sheet("s-1", 2023)],
            Vec::new(),
            None,
            today
        ),
        Ok(PassPlan::Skip(SkipReason::NoForeignCurrencies))
    ));
    assert!(matches!(
        SinglePassService::plan_sync(
            &settings("NZD"),
            &vec![account("a-1", "US Bank", "USD")],
            &Vec::new(),
            Vec::new(),
            None,
            today
        ),
        Ok(PassPlan::Skip(SkipReason::NoBalanceSheets))
    ));
    assert!(matches!(
        SinglePassService::plan_sync(
            &settings("NZD"),
            &vec![account("a-1", "US Bank", "USD")],
            &vec![sheet("s-1", 2025), sheet("s-2", 2026)],
            Vec::new(),
            None,
            today
        ),
        Ok(PassPlan::Skip(SkipReason::EarliestYearInFuture))
    ));
    assert!(matches!(
        SinglePassService::sync_exchange_rates_with_client_and_url(
            &settings("NZD"),
            &vec![account("a-1", "US Bank", "USD")],
            &vec![sheet("s-1", 3000)],
            Vec::new(),
            None
        ),
        Ok(PassPlan::Skip(SkipReason::EarliestYearInFuture))
    ));
}

#[test]
fn query_url_is_put_together_from_its_parts() {
    assert_eq!(
        SinglePassService::get_query_url("https://x.test/v1", "2020-01-01", "2020-12-31", "NZD", "USD,EUR"),
        "https://x.test/v1/2020-01-01..2020-12-31?base=NZD&symbols=USD,EUR"
    );
    assert_eq!(SinglePassService::get_query_url("", "", "", "", ""), "/..?base=&symbols=");
}

#[test]
fn provider_names_and_candidates() {
    assert_eq!(ProviderKind::Frankfurter.as_str(), "frankfurter");
    assert_eq!(SyncService::provider_candidates(), vec![ProviderKind::Frankfurter]);
}

#[test]
fn supported_currencies_are_told_apart() {
    assert!(FrankfurterProvider::is_supported_currency("EUR"));
    assert!(FrankfurterProvider::is_supported_currency("AUD"));
    assert!(FrankfurterProvider::is_supported_currency("ZAR"));
    assert!(!FrankfurterProvider::is_supported_currency("eur"));
    assert!(!FrankfurterProvider::is_supported_currency("XXX"));
    assert!(!FrankfurterProvider::is_supported_currency(""));
    assert!(!FrankfurterProvider::is_supported_currency("EURO"));
    assert_eq!(FrankfurterProvider::supported_codes().len(), 30);

    let (supported, unsupported) = FrankfurterProvider::split_supported_currencies(vec![
        "USD".to_string(),
        "XXX".to_string(),
        "EUR".to_string(),
        "BTC".to_string(),
    ]);
    assert_eq!(supported, vec!["USD".to_string(), "EUR".to_string()]);
    assert_eq!(unsupported, vec!["XXX".to_string(), "BTC".to_string()]);
}

#[test]
fn provider_is_skipped_for_each_reason_in_order() {
    let today = Date { year: 2024, month: 6, day: 15 };
    let skip = |inputs: SyncInputs| match FrankfurterProvider::plan_fetch(&inputs, today) {
        FetchPlan::Skip(reason) => Some(reason),
        FetchPlan::Request(_) => None,
    };
    assert_eq!(skip(inputs("XXX", &[], &[], Vec::new())), Some(SkipReason::NoForeignCurrencies));
    assert_eq!(skip(inputs("XXX", &["USD"], &[], Vec::new())), Some(SkipReason::NoBalanceSheets));
    assert_eq!(
        skip(inputs("XXX", &["USD"], &[2024], Vec::new())),
        Some(SkipReason::HomeCurrencyUnsupported)
    );
    assert_eq!(
        skip(inputs("NZD", &["BTC", "XXX"], &[2030], Vec::new())),
        Some(SkipReason::NoSupportedCurrencies)
    );
    assert_eq!(
        skip(inputs("NZD", &["USD"], &[2026, 2025], Vec::new())),
        Some(SkipReason::EarliestYearInFuture)
    );
    assert_eq!(skip(inputs("NZD", &["USD"], &[2026, 2024], Vec::new())), None);
}

#[test]
fn request_names_supported_currencies_only() {
    let given = inputs("NZD", &["USD", "BTC", "EUR"], &[2023, 2021, 2022], Vec::new());
    let plan = FrankfurterProvider::plan_fetch(&given, Date { year: 2024, month: 3, day: 7 });
    match plan {
        FetchPlan::Request(request) => {
            assert_eq!(request.start_date, "2021-01-01");
            assert_eq!(request.end_date, "2024-03-07");
            assert_eq!(request.symbols, "USD,EUR");
            assert_eq!(request.unsupported, vec!["BTC".to_string()]);
            assert_eq!(
                request.url,
                "https://api.frankfurter.dev/v1/2021-01-01..2024-03-07?base=NZD&symbols=USD,EUR"
            );
        }
        FetchPlan::Skip(reason) => panic!("skipped: {:?}", reason),
    }
}

#[test]
fn request_of_today_ends_on_a_date_of_ten_characters() {
    let given = inputs("NZD", &["USD"], &[2020], Vec::new());
    match FrankfurterProvider::fetch_provider_rates(&given) {
        FetchPlan::Request(request) => {
            assert_eq!(request.start_date, "2020-01-01");
            assert_eq!(request.end_date.len(), 10);
            assert!(request.end_date.as_str() >= "2024-01-01");
            assert!(request.url.ends_with("?base=NZD&symbols=USD"));
        }
        FetchPlan::Skip(reason) => panic!("skipped: {:?}", reason),
    }
}

#[test]
fn inputs_hold_each_foreign_currency_once() {
    let accounts = vec![
        account("a-1", "One", "USD"),
        account("a-2", "Two", "NZD"),
        account("a-3", "Three", "EUR"),
        account("a-4", "Four", "USD"),
        account("a-5", "Five", "EUR"),
    ];
    let sheets = vec![sheet("s-1", 2024), sheet("s-2", 2022), sheet("s-3", 2024)];
    let existing = vec![stored("r-1", "USD", "NZD", 1.5, 1, 2024, stamp(2024, 1, 20))];
    let gathered = SyncService::gather_sync_inputs(&settings("NZD"), &accounts, &sheets, existing)
        .expect("inputs");

    assert_eq!(gathered.home_currency, "NZD");
    assert_eq!(gathered.foreign_currencies, vec!["USD".to_string(), "EUR".to_string()]);
    assert_eq!(gathered.years, vec![2024, 2022, 2024]);
    assert_eq!(gathered.existing_rates.len(), 1);
    assert_eq!(gathered.existing_rates[0].id, "r-1");

    let none: Vec<UserSettings> = Vec::new();
    let failed = SyncService::gather_sync_inputs(&none, &accounts, &sheets, Vec::new());
    assert!(matches!(failed, Err(SyncError::SettingsNotFound)));
    assert_eq!(SyncError::SettingsNotFound.message(), "User settings not found");
}

#[test]
fn finalized_rate_is_not_written_again() {
    let existing = vec![
        stored("r-jan", "EUR", "NZD", 1.7, 1, 2024, stamp(2024, 2, 1)),
        stored("r-feb", "EUR", "NZD", 1.8, 2, 2024, stamp(2024, 2, 29)),
    ];
    let given = inputs("NZD", &["EUR"], &[2024], copy_of(&existing));
    let parsed = ProviderRates {
        provider: ProviderKind::Frankfurter,
        rates: vec![observed(2024, 1, "EUR", 0.5), observed(2024, 2, "EUR", 0.4)],
    };

    let writes = SyncService::ingest_provider_rates(&parsed, &given);

    assert_eq!(writes.len(), 1);
    assert_eq!(writes[0].existing_id, Some("r-feb".to_string()));
    assert_eq!(writes[0].from_currency, "EUR");
    assert_eq!(writes[0].to_currency, "NZD");
    assert_eq!(writes[0].provider, "frankfurter");
    assert_eq!((writes[0].year, writes[0].month), (2024, 2));
    assert_eq!(value_of(writes[0].value), 0.4);

    let mut table = copy_of(&existing);
    apply(&mut table, &writes, stamp(2024, 3, 5), "row");
    assert_eq!(table.len(), 2);
    assert_eq!(value_of(table[0].rate), 1.7);
    assert_eq!(table[0].timestamp, stamp(2024, 2, 1));
    assert_eq!(value_of(table[1].rate), 1.0 / 0.4);
    assert_eq!(table[1].timestamp, stamp(2024, 3, 5));
}

#[test]
fn rate_written_on_the_last_day_of_its_month_is_not_final() {
    let leap = vec![stored("r-1", "EUR", "NZD", 1.0, 2, 2024, stamp(2024, 2, 29))];
    let common = vec![stored("r-2", "EUR", "NZD", 1.0, 2, 2023, stamp(2023, 3, 1))];
    let december = vec![
        stored("r-3", "EUR", "NZD", 1.0, 12, 2023, stamp(2023, 12, 31)),
        stored("r-4", "USD", "NZD", 1.0, 12, 2023, stamp(2024, 1, 1)),
    ];
    let one = |year, month, currency: &str| ProviderRates {
        provider: ProviderKind::Frankfurter,
        rates: vec![observed(year, month, currency, 0.5)],
    };

    let writes = SyncService::ingest_provider_rates(&one(2024, 2, "EUR"), &inputs("NZD", &[], &[], leap));
    assert_eq!(writes.len(), 1);
    let writes =
        SyncService::ingest_provider_rates(&one(2023, 2, "EUR"), &inputs("NZD", &[], &[], common));
    assert_eq!(writes.len(), 0);
    let writes = SyncService::ingest_provider_rates(
        &one(2023, 12, "EUR"),
        &inputs("NZD", &[], &[], copy_of(&december)),
    );
    assert_eq!(writes.len(), 1);
    let writes = SyncService::ingest_provider_rates(
        &one(2023, 12, "USD"),
        &inputs("NZD", &[], &[], copy_of(&december)),
    );
    assert_eq!(writes.len(), 0);
}

#[test]
fn rate_of_another_pair_or_month_is_no_stored_rate() {
    let existing = vec![
        stored("r-1", "EUR", "USD", 1.0, 1, 2024, stamp(2025, 1, 1)),
        stored("r-2", "GBP", "NZD", 1.0, 1, 2024, stamp(2025, 1, 1)),
        stored("r-3", "EUR", "NZD", 1.0, 2, 2024, stamp(2025, 1, 1)),
        stored("r-4", "EUR", "NZD", 1.0, 1, 2023, stamp(2025, 1, 1)),
    ];
    let parsed = ProviderRates {
        provider: ProviderKind::Frankfurter,
        rates: vec![observed(2024, 1, "EUR", 0.5)],
    };
    let writes = SyncService::ingest_provider_rates(&parsed, &inputs("NZD", &[], &[], existing));
    assert_eq!(writes.len(), 1);
    assert_eq!(writes[0].existing_id, None);
}

#[test]
fn synchronizing_twice_changes_no_value() {
    let mut table = vec![
        stored("r-jan", "EUR", "NZD", 1.7, 1, 2024, stamp(2024, 2, 1)),
        stored("r-feb", "EUR", "NZD", 1.8, 2, 2024, stamp(2024, 2, 10)),
    ];
    let rates = || ProviderRates {
        provider: ProviderKind::Frankfurter,
        rates: vec![
            observed(2024, 1, "EUR", 0.5),
            observed(2024, 2, "EUR", 0.4),
            observed(2024, 2, "USD", 0.0),
            observed(2024, 3, "EUR", 0.25),
        ],
    };

    let first = SyncService::ingest_provider_rates(&rates(), &inputs("NZD", &[], &[], copy_of(&table)));
    assert_eq!(first.len(), 3);
    apply(&mut table, &first, stamp(2024, 3, 5), "first");
    let once: Vec<_> = table.iter().map(without_timestamp).collect();
    assert_eq!(table.len(), 4);
    assert_eq!(value_of(table[0].rate), 1.7);
    assert_eq!(value_of(table[1].rate), 2.5);
    assert_eq!(value_of(table[2].rate), 0.0);
    assert_eq!(value_of(table[3].rate), 4.0);

    let second = SyncService::ingest_provider_rates(&rates(), &inputs("NZD", &[], &[], copy_of(&table)));
    assert_eq!(second.len(), 1);
    assert_eq!(second[0].existing_id, Some(table[3].id.clone()));
    apply(&mut table, &second, stamp(2024, 3, 6), "second");
    let twice: Vec<_> = table.iter().map(without_timestamp).collect();

    assert_eq!(once, twice);
}

#[test]
fn synchronization_fails_only_where_every_provider_failed() {
    let given = inputs("NZD", &["EUR"], &[2024], Vec::new());
    let failure = || FetchFailure::Status("500 Internal Server Error".to_string());
    let fetched = || ProviderOutcome::Fetched(ProviderRates {
        provider: ProviderKind::Frankfurter,
        rates: vec![observed(2024, 1, "EUR", 0.5)],
    });

    let nothing: Vec<ProviderOutcome> = Vec::new();
    assert!(matches!(
        SyncService::sync_exchange_rates(&given, &nothing),
        Ok(SyncDecision::NothingToDo)
    ));
    assert!(matches!(
        SyncService::sync_exchange_rates(&given, &vec![ProviderOutcome::Skipped]),
        Ok(SyncDecision::NothingToDo)
    ));
    assert!(matches!(
        SyncService::sync_exchange_rates(
            &given,
            &vec![ProviderOutcome::Skipped, ProviderOutcome::Failed(failure())]
        ),
        Ok(SyncDecision::NothingToDo)
    ));
    match SyncService::sync_exchange_rates(
        &given,
        &vec![
            ProviderOutcome::Failed(FetchFailure::Request("timed out".to_string())),
            ProviderOutcome::Failed(failure()),
        ],
    ) {
        Err(error) => assert_eq!(error.message(), "Request error: timed out"),
        other => panic!("expected a failure: {:?}", other),
    }
    match SyncService::sync_exchange_rates(
        &given,
        &vec![ProviderOutcome::Failed(failure()), fetched(), fetched()],
    ) {
        Ok(SyncDecision::Write(writes)) => assert_eq!(writes.len(), 2),
        other => panic!("expected writes: {:?}", other),
    }
}

#[test]
fn failures_are_put_in_words() {
    assert_eq!(
        FetchFailure::ClientBuild("no tls".to_string()).message(),
        "Failed to build HTTP client: no tls"
    );
    assert_eq!(FetchFailure::Request("refused".to_string()).message(), "Request error: refused");
    assert_eq!(
        FetchFailure::Status("404 Not Found".to_string()).message(),
        "API error: 404 Not Found"
    );
    assert_eq!(
        FetchFailure::Body("expected value".to_string()).message(),
        "Failed to parse JSON: expected value"
    );
    let failed = FrankfurterProvider::rates_from_response(Err(FetchFailure::Body("x".to_string())));
    assert_eq!(failed.unwrap_err().message(), "Failed to parse JSON: x");
    assert_eq!(
        FetchFailure::Body("x".to_string()).duplicate().message(),
        "Failed to parse JSON: x"
    );
}

fn ids(prefix: &str, count: usize) -> Vec<String> {
    (0..count).map(|n| format!("{prefix}-{n}")).collect()
}

#[test]
fn synchronizing_the_table_twice_rewrites_nothing() {
    let mut table = vec![
        stored("r-jan", "EUR", "NZD", 1.7, 1, 2024, stamp(2024, 2, 1)),
        stored("r-feb", "EUR", "NZD", 1.8, 2, 2024, stamp(2024, 2, 10)),
    ];
    let parsed = ProviderRates {
        provider: ProviderKind::Frankfurter,
        rates: vec![
            observed(2024, 1, "EUR", 0.5),
            observed(2024, 2, "EUR", 0.4),
            observed(2024, 2, "USD", 0.0),
            observed(2024, 3, "EUR", 0.25),
        ],
    };
    let to_store: Vec<Quantity> = parsed.rates.iter().map(|r| inverted(r.value)).collect();
    let home = "NZD".to_string();

    let first = SyncService::synchronize(
        &mut table,
        &parsed,
        &to_store,
        &home,
        &ids("first", 4),
        &vec![stamp(2024, 3, 5); 4],
    );
    assert_eq!(first.len(), 3);
    assert!(first.iter().all(|r| r.is_ok()));
    assert_eq!(table.len(), 4);
    assert_eq!(value_of(table[0].rate), 1.7);
    assert_eq!(table[0].timestamp, stamp(2024, 2, 1));
    assert_eq!(value_of(table[1].rate), 2.5);
    assert_eq!(table[1].id, "r-feb");
    assert_eq!(value_of(table[2].rate), 0.0);
    assert_eq!(table[2].id, "first-1");
    assert_eq!(value_of(table[3].rate), 4.0);
    assert_eq!(table[3].id, "first-2");
    let once: Vec<_> = table.iter().map(without_timestamp).collect();

    let second = SyncService::synchronize(
        &mut table,
        &parsed,
        &to_store,
        &home,
        &ids("second", 4),
        &vec![stamp(2024, 3, 6); 4],
    );
    assert_eq!(second.len(), 1);
    let twice: Vec<_> = table.iter().map(without_timestamp).collect();
    assert_eq!(once, twice);
    assert_eq!(table[1].timestamp, stamp(2024, 3, 5));
    assert_eq!(table[3].timestamp, stamp(2024, 3, 6));
}

#[test]
fn a_finalized_rate_stays_whatever_the_provider_says() {
    let mut table = vec![stored("r-jan", "EUR", "NZD", 1.7, 1, 2024, stamp(2024, 2, 1))];
    let home = "NZD".to_string();
    for value in [0.5, 0.9, 0.0] {
        let parsed = ProviderRates {
            provider: ProviderKind::Frankfurter,
            rates: vec![observed(2024, 1, "EUR", value)],
        };
        let results = SyncService::synchronize(
            &mut table,
            &parsed,
            &vec![inverted(quantity(value))],
            &home,
            &ids("new", 1),
            &vec![stamp(2024, 4, 1)],
        );
        assert!(results.is_empty());
        assert_eq!(table.len(), 1);
        assert_eq!(table[0].id, "r-jan");
        assert_eq!(value_of(table[0].rate), 1.7);
        assert_eq!(table[0].provider, "frankfurter");
        assert_eq!(table[0].timestamp, stamp(2024, 2, 1));
    }
    let none = ProviderRates { provider: ProviderKind::Frankfurter, rates: Vec::new() };
    SyncService::synchronize(&mut table, &none, &Vec::new(), &home, &Vec::new(), &Vec::new());
    assert_eq!(table.len(), 1);
    assert_eq!(value_of(table[0].rate), 1.7);
}

#[test]
fn writes_store_the_value_they_carry() {
    let mut table = vec![stored("r-feb", "EUR", "NZD", 1.8, 2, 2024, stamp(2024, 2, 10))];
    let write = |existing: Option<&str>, currency: &str, value: f64, month: u32| RateUpsert {
        existing_id: existing.map(|id| id.to_string()),
        from_currency: currency.to_string(),
        to_currency: "NZD".to_string(),
        provider: "frankfurter".to_string(),
        value: quantity(value),
        month,
        year: 2024,
    };
    let writes = vec![
        write(Some("r-feb"), "EUR", 2.5, 2),
        write(None, "USD", 3.5, 2),
        write(None, "GBP", 4.5, 2),
    ];
    let results = SyncService::apply_writes(
        &mut table,
        &writes,
        &vec!["a".to_string(), "b".to_string(), "b".to_string()],
        &vec![stamp(2024, 2, 11), stamp(2024, 2, 12), stamp(2024, 2, 13)],
    );
    assert_eq!(results.len(), 3);
    assert!(results[0].is_ok());
    assert!(results[1].is_ok());
    assert!(results[2].is_err());
    assert_eq!(table.len(), 2);
    assert_eq!(table[0].id, "r-feb");
    assert_eq!(value_of(table[0].rate), 2.5);
    assert_eq!(table[0].timestamp, stamp(2024, 2, 11));
    assert_eq!(table[1].id, "b");
    assert_eq!(value_of(table[1].rate), 3.5);
    assert_eq!(table[1].from_currency, "USD");
}
