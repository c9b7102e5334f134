//! The rules of the accounts: names are unique, a new account goes last, and
//! the order of the accounts is the order they are listed in.

use crate::models::Account;
use vstd::prelude::*;
use vstd::string::*;

verus! {

/// Why a change to the accounts is refused.
#[derive(Clone, Debug, PartialEq, Eq)]
pub enum AccountError {
    /// Another account has the name already.
    NameTaken(String),
    /// There is no account with the identifier.
    NotFound(String),
}

impl AccountError {
    /// The error in words.
    pub open spec fn text(self) -> Seq<char> {
        match self {
            AccountError::NameTaken(name) => "Account with name '"@ + name@ + "' already exists"@,
            AccountError::NotFound(id) => "Account with ID "@ + id@ + " not found"@,
        }
    }

    /// The error in words.
    pub fn message(&self) -> (r: String)
        ensures
            r@ == self.text(),
    {
        match self {
            AccountError::NameTaken(name) => {
                let mut r = String::from_str("Account with name '");
                r.append(name.as_str());
                r.append("' already exists");
                r
            },
            AccountError::NotFound(id) => {
                let mut r = String::from_str("Account with ID ");
                r.append(id.as_str());
                r.append(" not found");
                r
            },
        }
    }
}

/// What a write of an account does.
#[derive(Clone, Debug, PartialEq, Eq)]
pub enum AccountWrite {
    /// The account with this identifier is changed; it keeps its place.
    Update(String),
    /// A new account is made, with this place in the order.
    Insert(i32),
}

/// The place of an account in the order.
#[derive(Clone, Debug, PartialEq, Eq)]
pub struct AccountOrder {
    pub id: String,
    pub sort_order: i32,
}

/// The name belongs to an account other than the one written.
pub open spec fn name_is_taken(id: Option<String>, same_name: Option<Account>) -> bool {
    match same_name {
        Some(existing) => match id {
            Some(uid) => uid@ != existing.id@,
            None => true,
        },
        None => false,
    }
}

/// What a write of an account does, where it is not refused.
pub open spec fn account_write(id: Option<String>, found: bool, max_sort_order: i32) -> AccountWrite {
    match id {
        Some(uid) => if found {
            AccountWrite::Update(uid)
        } else {
            AccountWrite::Insert((max_sort_order + 1) as i32)
        },
        None => AccountWrite::Insert((max_sort_order + 1) as i32),
    }
}

/// The rules for writing accounts.
pub struct AccountService;

impl AccountService {
    /// Decides what a write of an account does. `same_name` is the account
    /// that has the name now, `found` tells whether the account `id` is
    /// there, `max_sort_order` is the last place taken (0 where there is no
    /// account). A name that another account has is refused; the account
    /// `id` is changed where it is there; else a new account is made, after
    /// the last.
    pub fn upsert(
        id: Option<String>,
        name: &String,
        same_name: &Option<Account>,
        found: bool,
        max_sort_order: i32,
    ) -> (r: Result<AccountWrite, AccountError>)
        requires
            max_sort_order < i32::MAX,
        ensures
            name_is_taken(id, *same_name) ==> r == Err::<AccountWrite, AccountError>(
                AccountError::NameTaken(*name),
            ),
            !name_is_taken(id, *same_name) ==> r == Ok::<AccountWrite, AccountError>(
                account_write(id, found, max_sort_order),
            ),
    {
        match same_name {
            Some(existing) => {
                let same_account = match &id {
                    Some(uid) => *uid == existing.id,
                    None => false,
                };
                if !same_account {
                    return Err(AccountError::NameTaken(name.clone()));
                }
            },
            None => {},
        }
        match id {
            Some(uid) => if found {
                Ok(AccountWrite::Update(uid))
            } else {
                Ok(AccountWrite::Insert(max_sort_order + 1))
            },
            None => Ok(AccountWrite::Insert(max_sort_order + 1)),
        }
    }

    /// The places of the accounts listed: the first gets place 1, the next
    /// place 2, and so on.
    pub fn update_order(ids: Vec<String>) -> (r: Vec<AccountOrder>)
        requires
            ids.len() < i32::MAX,
        ensures
            r.len() == ids.len(),
            forall|i: int|
                0 <= i < r.len() ==> (#[trigger] r[i]).id == ids[i] && r[i].sort_order == i + 1,
    {
        let mut orders: Vec<AccountOrder> = Vec::new();
        let mut i: usize = 0;
        while i < ids.len()
            invariant
                0 <= i <= ids.len(),
                ids.len() < i32::MAX,
                orders.len() == i,
                forall|k: int|
                    0 <= k < i ==> (#[trigger] orders[k]).id == ids[k] && orders[k].sort_order == k
                        + 1,
            decreases ids.len() - i,
        {
            orders.push(AccountOrder { id: ids[i].clone(), sort_order: (i + 1) as i32 });
            i = i + 1;
        }
        orders
    }

    /// Whether the account is archived after its archive state is toggled;
    /// an error where the account was not found.
    pub fn toggle_archive(id: String, account: &Option<Account>) -> (r: Result<bool, AccountError>)
        ensures
            match *account {
                Some(found) => r == Ok::<bool, AccountError>(!found.is_archived),
                None => r == Err::<bool, AccountError>(AccountError::NotFound(id)),
            },
    {
        match account {
            Some(found) => Ok(!found.is_archived),
            None => Err(AccountError::NotFound(id)),
        }
    }
}

} // verus!
