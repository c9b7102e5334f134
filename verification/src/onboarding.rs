//! The steps a new user goes through, and which of them what is there
//! already completes.

use vstd::prelude::*;

verus! {

/// The step of choosing the settings.
pub const STEP_CONFIGURE_SETTINGS: &'static str = "CONFIGURE_SETTINGS";

/// The step of making the first account.
pub const STEP_CREATE_FIRST_ACCOUNT: &'static str = "CREATE_FIRST_ACCOUNT";

/// The step of making the first balance sheet.
pub const STEP_CREATE_FIRST_BALANCE_SHEET: &'static str = "CREATE_FIRST_BALANCE_SHEET";

/// The keys of a list of steps.
pub open spec fn step_keys(steps: Seq<&'static str>) -> Seq<Seq<char>> {
    steps.map_values(|s: &'static str| s@)
}

/// The steps that what is there completes, in the order of the steps.
pub open spec fn completed_steps(has_settings: bool, has_accounts: bool, has_sheets: bool) -> Seq<
    Seq<char>,
> {
    (if has_settings {
        seq![STEP_CONFIGURE_SETTINGS@]
    } else {
        Seq::empty()
    }) + (if has_accounts {
        seq![STEP_CREATE_FIRST_ACCOUNT@]
    } else {
        Seq::empty()
    }) + (if has_sheets {
        seq![STEP_CREATE_FIRST_BALANCE_SHEET@]
    } else {
        Seq::empty()
    })
}

/// The rules of the steps.
pub struct OnboardingService;

impl OnboardingService {
    /// All the steps, in their order.
    pub fn ensure_steps_exist() -> (steps: Vec<&'static str>)
        ensures
            step_keys(steps@) == seq![
                STEP_CONFIGURE_SETTINGS@,
                STEP_CREATE_FIRST_ACCOUNT@,
                STEP_CREATE_FIRST_BALANCE_SHEET@,
            ],
    {
        let steps = vec![
            STEP_CONFIGURE_SETTINGS,
            STEP_CREATE_FIRST_ACCOUNT,
            STEP_CREATE_FIRST_BALANCE_SHEET,
        ];
        assert(step_keys(steps@) =~= seq![
            STEP_CONFIGURE_SETTINGS@,
            STEP_CREATE_FIRST_ACCOUNT@,
            STEP_CREATE_FIRST_BALANCE_SHEET@,
        ]);
        steps
    }

    /// The steps to mark as completed: settings exist, an account exists, a
    /// balance sheet exists, each completing its step.
    pub fn auto_complete_steps(has_settings: bool, has_accounts: bool, has_sheets: bool) -> (steps:
        Vec<&'static str>)
        ensures
            step_keys(steps@) == completed_steps(has_settings, has_accounts, has_sheets),
    {
        let mut steps: Vec<&'static str> = Vec::new();
        if has_settings {
            steps.push(STEP_CONFIGURE_SETTINGS);
        }
        if has_accounts {
            steps.push(STEP_CREATE_FIRST_ACCOUNT);
        }
        if has_sheets {
            steps.push(STEP_CREATE_FIRST_BALANCE_SHEET);
        }
        assert(step_keys(steps@) =~= completed_steps(has_settings, has_accounts, has_sheets));
        steps
    }
}

} // verus!
