//! What holds of accounts.

use vstd::prelude::*;

use crate::accounts;
use crate::accounts::{AccountState, AccountView};
use crate::config::AccountConfig;

verus! {

/// An account is known by its address, and by its number only where it has no address.
pub proof fn law_address_comes_first(email: Seq<char>, mobile: Seq<char>)
    ensures
        email.len() > 0 ==> accounts::known_as(email, mobile) == email,
        email.len() == 0 ==> accounts::known_as(email, mobile) == mobile,
{
}

/// Every state has a number and a name of its own; all other numbers stand for the last
/// state.
pub proof fn law_states_have_numbers_and_names(v: u8)
    ensures
        v == 0 ==> accounts::state_of(v) == AccountState::Idle,
        v == 1 ==> accounts::state_of(v) == AccountState::Busy,
        v == 2 ==> accounts::state_of(v) == AccountState::Error,
        v > 2 ==> accounts::state_of(v) == AccountState::Invalid,
        accounts::state_name(AccountState::Idle) == "idle"@,
        accounts::state_name(AccountState::Busy) == "busy"@,
        accounts::state_name(AccountState::Error) == "error"@,
        accounts::state_name(AccountState::Invalid) == "invalid"@,
{
}

/// Whether two accounts differ at most in their counts of requests.
pub open spec fn differ_in_count(a: AccountView, b: AccountView) -> bool {
    b == (AccountView { daily_count: b.daily_count, daily_day: b.daily_day, ..a })
}

/// Requests are counted by day. On the day of the count one request adds one, on another day
/// the count starts anew, at 0 when it is read and at 1 with the first request. Nothing else
/// of the account changes.
pub proof fn law_requests_are_counted_by_day(a: AccountView, today: u32)
    ensures
        accounts::rolled(a, today).daily_day == today,
        accounts::counted(a, today).daily_day == today,
        a.daily_day == today ==> accounts::rolled(a, today).daily_count == a.daily_count,
        a.daily_day == today && a.daily_count < u32::MAX ==> accounts::counted(
            a,
            today,
        ).daily_count == a.daily_count + 1,
        a.daily_day != today ==> accounts::rolled(a, today).daily_count == 0,
        a.daily_day != today ==> accounts::counted(a, today).daily_count == 1,
        differ_in_count(a, accounts::rolled(a, today)),
        differ_in_count(a, accounts::counted(a, today)),
{
}

/// An account is new: it has its credentials and its token, is ready, was never given back
/// and has served no request.
pub proof fn law_new_account_is_ready(
    token: Seq<char>,
    creds: AccountConfig,
    today: u32,
    serial: u64,
)
    ensures
        ({
            let a = accounts::fresh(token, creds, today, serial);
            &&& a.token == token
            &&& a.email == creds.email@
            &&& a.mobile == creds.mobile@
            &&& a.creds == creds
            &&& a.state == AccountState::Idle
            &&& a.last_released == 0
            &&& a.error_count == 0
            &&& a.daily_count == 0
            &&& a.daily_day == today
            &&& a.serial == serial
        }),
{
}

/// An account whose first login failed is shown with its credentials, and is invalid with as
/// many failures as make an account invalid.
pub proof fn law_failed_account_is_invalid(creds: AccountConfig, today: u32, serial: u64)
    ensures
        ({
            let a = accounts::failed(creds, today, serial);
            &&& a.token.len() == 0
            &&& a.email == creds.email@
            &&& a.mobile == creds.mobile@
            &&& a.creds == creds
            &&& a.state == AccountState::Invalid
            &&& a.last_released == 0
            &&& a.error_count == 3
            &&& a.daily_count == 0
            &&& a.daily_day == today
            &&& a.serial == serial
        }),
{
}

/// A login makes an account ready, with the new token and without failures, whatever state
/// it was in. Its counts, its last release and its credentials stay.
pub proof fn law_login_makes_ready(a: AccountView, token: Seq<char>)
    ensures
        ({
            let b = accounts::logged_in(a, token);
            &&& b.token == token
            &&& b.state == AccountState::Idle
            &&& b.error_count == 0
            &&& a == (AccountView {
                token: a.token,
                state: a.state,
                error_count: a.error_count,
                ..b
            })
        }),
{
}

/// A failed login counts one failure. The account is invalid from the third one on, and
/// keeps its state before; everything else stays.
pub proof fn law_failed_login_is_counted(a: AccountView)
    requires
        a.error_count < u8::MAX,
    ensures
        ({
            let b = accounts::login_failed(a);
            &&& b.error_count == a.error_count + 1
            &&& b.state == if a.error_count >= 2 {
                AccountState::Invalid
            } else {
                a.state
            }
            &&& a == (AccountView { state: a.state, error_count: a.error_count, ..b })
        }),
{
}

/// A login after any number of failures undoes them.
pub proof fn law_login_undoes_failures(a: AccountView, token: Seq<char>)
    ensures
        accounts::logged_in(accounts::login_failed(a), token) == accounts::logged_in(a, token),
{
}

} // verus!
