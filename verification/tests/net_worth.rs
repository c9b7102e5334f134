use personal_finances::dates::{Date, Timestamp};
use personal_finances::models::{
    Account, BalanceSheet, CurrencyRate, Entry, Quantity, UserSettings,
};
use personal_finances::net_worth::{
    Factor, MonthlyPosition, NetWorthError, NetWorthService, Period, Term,
};

fn quantity(value: f64) -> Quantity {
    Quantity { bits: value.to_bits() }
}

fn value_of(quantity: Quantity) -> f64 {
    f64::from_bits(quantity.bits)
}

fn stamp(year: i32, month: u32, day: u32) -> Timestamp {
    Timestamp { date: Date { year, month, day }, second_of_day: 0, nanosecond: 0 }
}

fn settings(home: &str) -> Vec<UserSettings> {
    vec![UserSettings {
        id: "settings-1".to_string(),
        name: "Test User".to_string(),
        home_currency: home.to_string(),
        theme: "system".to_string(),
        created_at: stamp(2025, 1, 1),
        updated_at: stamp(2025, 1, 1),
    }]
}

fn account(id: &str, name: &str, account_type: &str, currency: &str) -> Account {
    Account {
        id: id.to_string(),
        name: name.to_string(),
        account_type: account_type.to_string(),
        currency: currency.to_string(),
        sort_order: 1,
        is_archived: false,
        created_at: stamp(2025, 1, 1),
    }
}

fn sheet(id: &str, year: i32) -> BalanceSheet {
    BalanceSheet { id: id.to_string(), year, created_at: stamp(2025, 1, 1) }
}

fn entry(id: &str, sheet_id: &str, account_id: &str, month: u32, amount: f64) -> Entry {
    Entry {
        id: id.to_string(),
        balance_sheet_id: sheet_id.to_string(),
        account_id: account_id.to_string(),
        month,
        amount: quantity(amount),
        updated_at: stamp(2025, 1, 1),
    }
}

fn rate(id: &str, from: &str, to: &str, value: f64, month: u32, year: i32) -> CurrencyRate {
    CurrencyRate {
        id: id.to_string(),
        from_currency: from.to_string(),
        to_currency: to.to_string(),
        provider: "manual".to_string(),
        rate: quantity(value),
        month,
        year,
        timestamp: stamp(year, month, 15),
    }
}

fn total(terms: &[Term]) -> f64 {
    let mut sum = 0.0;
    for term in terms {
        sum += match term.factor {
            Factor::SameCurrency => value_of(term.amount),
            Factor::Stored(rate) => value_of(term.amount) * value_of(rate),
            Factor::Missing => value_of(term.amount) * 1.0,
        };
    }
    sum
}

fn total_assets(position: &MonthlyPosition) -> f64 {
    total(&position.assets)
}

fn total_liabilities(position: &MonthlyPosition) -> f64 {
    total(&position.liabilities)
}

fn net_worth(position: &MonthlyPosition) -> f64 {
    total_assets(position) - total_liabilities(position)
}

#[test]
fn test_net_worth_calculation() {
    let settings = settings("USD");
    let accounts = vec![
        account("a-usd", "Cash", "Asset", "USD"),
        account("a-eur", "Euro Stash", "Asset", "EUR"),
        account("l-usd", "Loan", "Liability", "USD"),
    ];
    let sheets = vec![sheet("s-2025", 2025)];
    let rates = vec![rate("r-1", "EUR", "USD", 1.1, 1, 2025)];
    let entries = vec![
        entry("e-1", "s-2025", "a-usd", 1, 1000.0),
        entry("e-2", "s-2025", "a-eur", 1, 100.0),
        entry("e-3", "s-2025", "l-usd", 1, 50.0),
    ];

    let history = NetWorthService::get_history(&settings, &entries, &accounts, &sheets, &rates)
        .expect("get history");

    assert_eq!(history.len(), 1);
    let point = &history[0];

    assert_eq!(point.year, 2025);
    assert_eq!(point.month, 1);
    assert!(
        (total_assets(point) - 1110.0).abs() < 0.001,
        "Assets mismatch: {}",
        total_assets(point)
    );
    assert!((total_liabilities(point) - 50.0).abs() < 0.001);
    assert!((net_worth(point) - 1060.0).abs() < 0.001);
    assert_eq!(point.currency, "USD");
}

#[test]
fn test_net_worth_future_exclusion() {
    let settings = settings("USD");
    let accounts = vec![account("a-usd", "Cash", "Asset", "USD")];
    let sheets = vec![sheet("s-3000", 3000)];
    let entries = vec![entry("e-1", "s-3000", "a-usd", 1, 5000.0)];

    let history = NetWorthService::get_history(&settings, &entries, &accounts, &sheets, &Vec::new())
        .expect("get history");

    assert_eq!(history.len(), 0);
}

#[test]
fn test_get_latest_net_worth() {
    let settings = settings("USD");
    let accounts = vec![account("a-usd", "Cash", "Asset", "USD")];
    let sheets = vec![sheet("s-2025", 2025)];
    let entries = vec![
        entry("e-1", "s-2025", "a-usd", 1, 1000.0),
        entry("e-2", "s-2025", "a-usd", 2, 1500.0),
    ];

    let latest = NetWorthService::get_latest(&settings, &entries, &accounts, &sheets, &Vec::new())
        .expect("latest");

    let latest = latest.expect("expected latest point");
    assert_eq!(latest.year, 2025);
    assert_eq!(latest.month, 2);
    assert!((net_worth(&latest) - 1500.0).abs() < 0.001);
}

#[test]
fn test_get_latest_net_worth_empty() {
    let settings = settings("USD");

    let latest = NetWorthService::get_latest(
        &settings,
        &Vec::new(),
        &Vec::new(),
        &Vec::new(),
        &Vec::new(),
    )
    .expect("latest");

    assert!(latest.is_none());
}

#[test]
fn terms_keep_what_each_entry_contributes() {
    let accounts = vec![
        account("a-usd", "Cash", "Asset", "USD"),
        account("a-eur", "Euro Stash", "Asset", "EUR"),
        account("l-usd", "Loan", "Liability", "USD"),
    ];
    let sheets = vec![sheet("s-2025", 2025)];
    let rates = vec![rate("r-1", "EUR", "USD", 1.1, 1, 2025)];
    let entries = vec![
        entry("e-1", "s-2025", "a-usd", 1, 1000.0),
        entry("e-2", "s-2025", "a-eur", 1, 100.0),
        entry("e-3", "s-2025", "l-usd", 1, 50.0),
    ];

    let history = NetWorthService::history_at(
        &"USD".to_string(),
        &entries,
        &accounts,
        &sheets,
        &rates,
        Period { year: 2025, month: 1 },
    )
    .expect("history");

    assert_eq!(history.len(), 1);
    assert_eq!(
        history[0].assets,
        vec![
            Term { amount: quantity(1000.0), factor: Factor::SameCurrency },
            Term { amount: quantity(100.0), factor: Factor::Stored(quantity(1.1)) },
        ]
    );
    assert_eq!(
        history[0].liabilities,
        vec![Term { amount: quantity(50.0), factor: Factor::SameCurrency }]
    );
    assert_eq!(total_assets(&history[0]), 1000.0 + 100.0 * 1.1);
    assert_eq!(total_liabilities(&history[0]), 50.0);
    assert_eq!(net_worth(&history[0]), (1000.0 + 100.0 * 1.1) - 50.0);
}

#[test]
fn missing_rate_counts_the_amount_once() {
    let accounts = vec![account("a-eur", "Euro Stash", "Asset", "EUR")];
    let sheets = vec![sheet("s-2025", 2025)];
    let rates = vec![
        rate("r-1", "EUR", "USD", 1.1, 2, 2025),
        rate("r-2", "EUR", "USD", 1.2, 1, 2024),
        rate("r-3", "GBP", "USD", 1.3, 1, 2025),
        rate("r-4", "EUR", "NZD", 1.4, 1, 2025),
    ];
    let entries = vec![entry("e-1", "s-2025", "a-eur", 1, 100.0)];

    let history = NetWorthService::history_at(
        &"USD".to_string(),
        &entries,
        &accounts,
        &sheets,
        &rates,
        Period { year: 2025, month: 12 },
    )
    .expect("history");

    assert_eq!(history.len(), 1);
    assert_eq!(
        history[0].assets,
        vec![Term { amount: quantity(100.0), factor: Factor::Missing }]
    );
    assert_eq!(total_assets(&history[0]), 100.0);
    assert_eq!(net_worth(&history[0]), 100.0);
}

#[test]
fn history_is_in_ascending_order_of_months() {
    let accounts = vec![account("a-usd", "Cash", "Asset", "USD")];
    let sheets = vec![sheet("s-2025", 2025), sheet("s-2023", 2023), sheet("s-2024", 2024)];
    let entries = vec![
        entry("e-1", "s-2025", "a-usd", 3, 1.0),
        entry("e-2", "s-2023", "a-usd", 12, 2.0),
        entry("e-3", "s-2024", "a-usd", 1, 3.0),
        entry("e-4", "s-2025", "a-usd", 1, 4.0),
        entry("e-5", "s-2023", "a-usd", 12, 5.0),
    ];

    let history = NetWorthService::history_at(
        &"USD".to_string(),
        &entries,
        &accounts,
        &sheets,
        &Vec::new(),
        Period { year: 2025, month: 6 },
    )
    .expect("history");

    let months: Vec<(i32, u32)> = history.iter().map(|p| (p.year, p.month)).collect();
    assert_eq!(months, vec![(2023, 12), (2024, 1), (2025, 1), (2025, 3)]);
    assert_eq!(total_assets(&history[0]), 7.0);
    assert_eq!(history[0].assets.len(), 2);
    assert_eq!(value_of(history[0].assets[0].amount), 2.0);
    assert_eq!(value_of(history[0].assets[1].amount), 5.0);
}

#[test]
fn months_after_the_current_one_are_left_out() {
    let accounts = vec![account("a-usd", "Cash", "Asset", "USD")];
    let sheets = vec![sheet("s-2025", 2025), sheet("s-2026", 2026)];
    let entries = vec![
        entry("e-1", "s-2025", "a-usd", 6, 1.0),
        entry("e-2", "s-2025", "a-usd", 7, 2.0),
        entry("e-3", "s-2025", "a-usd", 12, 3.0),
        entry("e-4", "s-2026", "a-usd", 1, 4.0),
    ];

    let history = NetWorthService::history_at(
        &"USD".to_string(),
        &entries,
        &accounts,
        &sheets,
        &Vec::new(),
        Period { year: 2025, month: 6 },
    )
    .expect("history");

    let months: Vec<(i32, u32)> = history.iter().map(|p| (p.year, p.month)).collect();
    assert_eq!(months, vec![(2025, 6)]);

    let latest = NetWorthService::latest_at(
        &"USD".to_string(),
        &entries,
        &accounts,
        &sheets,
        &Vec::new(),
        Period { year: 2025, month: 7 },
    )
    .expect("latest")
    .expect("a position");
    assert_eq!((latest.year, latest.month), (2025, 7));
}

#[test]
fn no_settings_is_an_error() {
    let none: Vec<UserSettings> = Vec::new();
    let history =
        NetWorthService::get_history(&none, &Vec::new(), &Vec::new(), &Vec::new(), &Vec::new());
    assert_eq!(history.unwrap_err(), NetWorthError::SettingsNotFound);
    let latest =
        NetWorthService::get_latest(&none, &Vec::new(), &Vec::new(), &Vec::new(), &Vec::new());
    assert_eq!(latest.unwrap_err(), NetWorthError::SettingsNotFound);
    assert_eq!(NetWorthError::SettingsNotFound.message(), "User settings not found");
}

#[test]
fn entry_without_its_balance_sheet_is_an_error() {
    let accounts = vec![account("a-usd", "Cash", "Asset", "USD")];
    let sheets = vec![sheet("s-2025", 2025)];
    let entries = vec![
        entry("e-1", "s-2025", "a-usd", 1, 1.0),
        entry("e-2", "s-gone", "a-gone", 1, 2.0),
    ];

    let history = NetWorthService::history_at(
        &"USD".to_string(),
        &entries,
        &accounts,
        &sheets,
        &Vec::new(),
        Period { year: 2025, month: 6 },
    );

    assert_eq!(history.unwrap_err(), NetWorthError::BalanceSheetNotFound);
    assert_eq!(
        NetWorthError::BalanceSheetNotFound.message(),
        "Balance sheet not found for entry"
    );
}

#[test]
fn entry_without_its_account_is_an_error_even_in_the_future() {
    let accounts = vec![account("a-usd", "Cash", "Asset", "USD")];
    let sheets = vec![sheet("s-3000", 3000)];
    let entries = vec![entry("e-1", "s-3000", "a-gone", 1, 1.0)];

    let history = NetWorthService::history_at(
        &"USD".to_string(),
        &entries,
        &accounts,
        &sheets,
        &Vec::new(),
        Period { year: 2025, month: 6 },
    );

    assert_eq!(history.unwrap_err(), NetWorthError::AccountNotFound);
    assert_eq!(NetWorthError::AccountNotFound.message(), "Account not found for entry");
}

#[test]
fn anything_but_an_asset_is_a_liability() {
    let accounts = vec![
        account("a-1", "Card", "Credit", "USD"),
        account("a-2", "House", "Asset", "USD"),
        account("a-3", "Odd", "asset", "USD"),
    ];
    let sheets = vec![sheet("s-2025", 2025)];
    let entries = vec![
        entry("e-1", "s-2025", "a-1", 1, 10.0),
        entry("e-2", "s-2025", "a-2", 1, 20.0),
        entry("e-3", "s-2025", "a-3", 1, 30.0),
    ];

    let history = NetWorthService::history_at(
        &"USD".to_string(),
        &entries,
        &accounts,
        &sheets,
        &Vec::new(),
        Period { year: 2025, month: 1 },
    )
    .expect("history");

    assert_eq!(total_assets(&history[0]), 20.0);
    assert_eq!(total_liabilities(&history[0]), 40.0);
    assert_eq!(net_worth(&history[0]), -20.0);
}

#[test]
fn the_last_of_two_rates_for_one_key_counts() {
    let accounts = vec![account("a-eur", "Euro Stash", "Asset", "EUR")];
    let sheets = vec![sheet("s-2025", 2025)];
    let rates = vec![
        rate("r-1", "EUR", "USD", 1.1, 1, 2025),
        rate("r-2", "EUR", "USD", 1.3, 1, 2025),
    ];
    let entries = vec![entry("e-1", "s-2025", "a-eur", 1, 100.0)];

    let history = NetWorthService::history_at(
        &"USD".to_string(),
        &entries,
        &accounts,
        &sheets,
        &rates,
        Period { year: 2025, month: 1 },
    )
    .expect("history");

    assert_eq!(history[0].assets[0].factor, Factor::Stored(quantity(1.3)));
}
