//! Accounts: their states, and how many requests they served on a day.

use std::sync::Arc;
use vstd::prelude::*;

use crate::clock;
use crate::clock::utc_day_index;
use crate::config::AccountConfig;

verus! {

/// The state of an account.
#[derive(Clone, Copy, Debug, PartialEq, Eq, Structural)]
pub enum AccountState {
    /// Ready to serve a request.
    Idle,
    /// Serving a request.
    Busy,
    /// A request failed; a new login may help.
    Error,
    /// The login failed too often.
    Invalid,
}

/// The state with a number.
pub open spec fn state_of(v: u8) -> AccountState {
    if v == 0 {
        AccountState::Idle
    } else if v == 1 {
        AccountState::Busy
    } else if v == 2 {
        AccountState::Error
    } else {
        AccountState::Invalid
    }
}

/// The name of a state.
pub open spec fn state_name(s: AccountState) -> Seq<char> {
    match s {
        AccountState::Idle => "idle"@,
        AccountState::Busy => "busy"@,
        AccountState::Error => "error"@,
        AccountState::Invalid => "invalid"@,
    }
}

impl AccountState {
    /// The state with a number.
    pub fn from_u8(v: u8) -> (r: Self)
        ensures
            r == state_of(v),
    {
        if v == 0 {
            AccountState::Idle
        } else if v == 1 {
            AccountState::Busy
        } else if v == 2 {
            AccountState::Error
        } else {
            AccountState::Invalid
        }
    }

    /// The number of a state.
    pub fn to_u8(self) -> (r: u8)
        ensures
            state_of(r) == self,
            r <= 3,
    {
        match self {
            AccountState::Idle => 0,
            AccountState::Busy => 1,
            AccountState::Error => 2,
            AccountState::Invalid => 3,
        }
    }

    /// The name of the state.
    pub fn as_str(self) -> (r: &'static str)
        ensures
            r@ == state_name(self),
    {
        match self {
            AccountState::Idle => "idle",
            AccountState::Busy => "busy",
            AccountState::Error => "error",
            AccountState::Invalid => "invalid",
        }
    }
}

/// What is shown of an account.
#[derive(Debug)]
pub struct AccountStatus {
    pub email: String,
    pub mobile: String,
    pub state: String,
    /// When the account was last released, in milliseconds; 0 if it never was.
    pub last_released_ms: i64,
    /// How many logins failed in a row.
    pub error_count: u8,
}

/// How many failed logins in a row make an account invalid.
pub const MAX_ERROR_COUNT: u8 = 3;

/// An account.
pub struct Account {
    token: Arc<str>,
    email: String,
    mobile: String,
    state: u8,
    last_released: i64,
    error_count: u8,
    creds: AccountConfig,
    daily_count: u32,
    daily_day: u32,
    serial: u64,
}

/// What an account is.
#[verifier::ext_equal]
pub struct AccountView {
    pub token: Seq<char>,
    pub email: Seq<char>,
    pub mobile: Seq<char>,
    pub state: AccountState,
    /// When the account was last released, in milliseconds.
    pub last_released: i64,
    /// How many logins failed in a row.
    pub error_count: u8,
    /// The credentials for the next login.
    pub creds: AccountConfig,
    /// How many requests were served on the day `daily_day`.
    pub daily_count: u32,
    /// The day to which the count belongs.
    pub daily_day: u32,
    /// Tells the account from others that had its place in a pool.
    pub serial: u64,
}

impl View for Account {
    type V = AccountView;

    closed spec fn view(&self) -> AccountView {
        AccountView {
            token: self.token@,
            email: self.email@,
            mobile: self.mobile@,
            state: state_of(self.state),
            last_released: self.last_released,
            error_count: self.error_count,
            creds: self.creds,
            daily_count: self.daily_count,
            daily_day: self.daily_day,
            serial: self.serial,
        }
    }
}

/// The name under which an account with an e-mail address and a telephone number is known.
pub open spec fn known_as(email: Seq<char>, mobile: Seq<char>) -> Seq<char> {
    if email.len() == 0 {
        mobile
    } else {
        email
    }
}

/// The account as it is counted on a day: on a new day its count starts at 0.
pub open spec fn rolled(a: AccountView, today: u32) -> AccountView {
    if a.daily_day != today {
        AccountView { daily_day: today, daily_count: 0, ..a }
    } else {
        a
    }
}

/// The account after one more request on a day.
pub open spec fn counted(a: AccountView, today: u32) -> AccountView {
    if a.daily_day != today {
        AccountView { daily_day: today, daily_count: 1, ..a }
    } else {
        AccountView {
            daily_count: if a.daily_count == u32::MAX {
                0
            } else {
                (a.daily_count + 1) as u32
            },
            ..a
        }
    }
}

/// Counting starts anew with the day, whether or not the count was looked at before.
pub proof fn law_counting_ignores_reading(a: AccountView, today: u32)
    ensures
        counted(rolled(a, today), today) == counted(a, today),
        rolled(rolled(a, today), today) == rolled(a, today),
        rolled(a, today).daily_count < u32::MAX ==> counted(a, today).daily_count == rolled(
            a,
            today,
        ).daily_count + 1,
{
}

/// An account that logged in on a day.
pub open spec fn fresh(
    token: Seq<char>,
    creds: AccountConfig,
    today: u32,
    serial: u64,
) -> AccountView {
    AccountView {
        token,
        email: creds.email@,
        mobile: creds.mobile@,
        state: AccountState::Idle,
        last_released: 0,
        error_count: 0,
        creds,
        daily_count: 0,
        daily_day: today,
        serial,
    }
}

/// An account that could not log in.
pub open spec fn failed(creds: AccountConfig, today: u32, serial: u64) -> AccountView {
    AccountView {
        state: AccountState::Invalid,
        error_count: MAX_ERROR_COUNT,
        ..fresh(Seq::empty(), creds, today, serial)
    }
}

/// The account after a login: with the new token, ready and without failures.
pub open spec fn logged_in(a: AccountView, token: Seq<char>) -> AccountView {
    AccountView { token, state: AccountState::Idle, error_count: 0, ..a }
}

/// The account after a failed login: with one more failure, and invalid if these are too
/// many.
pub open spec fn login_failed(a: AccountView) -> AccountView {
    let count: u8 = if a.error_count == u8::MAX {
        0
    } else {
        (a.error_count + 1) as u8
    };
    AccountView {
        error_count: count,
        state: if count >= MAX_ERROR_COUNT {
            AccountState::Invalid
        } else {
            a.state
        },
        ..a
    }
}

/// An account whose request failed becomes invalid with the third failed login in a row,
/// and not before.
pub proof fn law_third_failure_makes_invalid(a: AccountView)
    requires
        a.error_count == 0,
        a.state == AccountState::Error,
    ensures
        login_failed(a).state == AccountState::Error,
        login_failed(login_failed(a)).state == AccountState::Error,
        login_failed(login_failed(login_failed(a))).state == AccountState::Invalid,
{
}

/// The shared text of a string, by `Arc::from`.
#[verifier::external_body]
fn shared_text(s: String) -> (r: Arc<str>)
    ensures
        r@ == s@,
{
    Arc::from(s)
}

/// Another handle on a shared text, by `Arc::clone`.
#[verifier::external_body]
fn same_text(s: &Arc<str>) -> (r: Arc<str>)
    ensures
        r@ == s@,
{
    Arc::clone(s)
}

/// The name under which the account with some credentials is known.
pub fn display_id_of(creds: &AccountConfig) -> (r: String)
    ensures
        r@ == known_as(creds.email@, creds.mobile@),
{
    if creds.email.as_str().is_empty() {
        creds.mobile.clone()
    } else {
        creds.email.clone()
    }
}

impl Account {
    /// The token of the last login.
    pub fn token(&self) -> (r: Arc<str>)
        ensures
            r@ == self@.token,
    {
        same_text(&self.token)
    }

    /// The name under which the account is known: the e-mail address, or else the telephone
    /// number.
    pub fn display_id(&self) -> (r: &str)
        ensures
            r@ == known_as(self@.email, self@.mobile),
    {
        if self.email.as_str().is_empty() {
            self.mobile.as_str()
        } else {
            self.email.as_str()
        }
    }

    /// The state of the account.
    pub fn state(&self) -> (r: AccountState)
        ensures
            r == self@.state,
    {
        AccountState::from_u8(self.state)
    }

    /// Whether the account serves a request.
    pub fn is_busy(&self) -> (r: bool)
        ensures
            r == (self@.state == AccountState::Busy),
    {
        self.state() == AccountState::Busy
    }

    /// Whether the account can serve a request.
    pub fn is_available(&self) -> (r: bool)
        ensures
            r == (self@.state == AccountState::Idle),
    {
        self.state() == AccountState::Idle
    }

    /// When the account was last released, in milliseconds.
    pub fn last_released(&self) -> (r: i64)
        ensures
            r == self@.last_released,
    {
        self.last_released
    }

    /// What tells the account from others that had its place in a pool.
    pub fn serial(&self) -> (r: u64)
        ensures
            r == self@.serial,
    {
        self.serial
    }

    /// The credentials of the account.
    pub fn creds(&self) -> (r: &AccountConfig)
        ensures
            *r == self@.creds,
    {
        &self.creds
    }

    /// How many requests the account served on a day. On a new day the count is set to 0.
    pub fn daily_count_at(&mut self, today: u32) -> (r: u32)
        ensures
            final(self)@ == rolled(old(self)@, today),
            r == final(self)@.daily_count,
    {
        if self.daily_day != today {
            self.daily_day = today;
            self.daily_count = 0;
        }
        self.daily_count
    }

    /// How many requests the account served today.
    pub fn daily_count(&mut self) -> (r: u32)
        ensures
            exists|t: std::time::SystemTime|
                {
                    let today = clock::day_of(#[trigger] clock::clock_reading(t));
                    final(self)@ == rolled(old(self)@, today) && r == rolled(
                        old(self)@,
                        today,
                    ).daily_count
                },
    {
        let today: u32 = utc_day_index();
        self.daily_count_at(today)
    }

    /// Counts a request on a day.
    pub fn inc_daily_count_at(&mut self, today: u32)
        ensures
            final(self)@ == counted(old(self)@, today),
    {
        if self.daily_day != today {
            self.daily_day = today;
            self.daily_count = 1;
        } else {
            self.daily_count = self.daily_count.wrapping_add(1);
        }
    }

    /// Counts a request today.
    pub fn inc_daily_count(&mut self)
        ensures
            exists|t: std::time::SystemTime|
                final(self)@ == counted(
                    old(self)@,
                    clock::day_of(#[trigger] clock::clock_reading(t)),
                ),
    {
        let today: u32 = utc_day_index();
        self.inc_daily_count_at(today)
    }

    /// An account that logged in on a day.
    pub fn new_idle(token: String, creds: &AccountConfig, today: u32, serial: u64) -> (r: Self)
        ensures
            r@ == fresh(token@, *creds, today, serial),
    {
        Account {
            token: shared_text(token),
            email: creds.email.clone(),
            mobile: creds.mobile.clone(),
            state: AccountState::Idle.to_u8(),
            last_released: 0,
            error_count: 0,
            creds: creds.clone(),
            daily_count: 0,
            daily_day: today,
            serial,
        }
    }

    /// An account that could not log in. It is kept so that it can be shown.
    pub fn new_invalid(creds: &AccountConfig, today: u32, serial: u64) -> (r: Self)
        ensures
            r@ == failed(*creds, today, serial),
    {
        let token = String::new();
        assert(token@ =~= Seq::<char>::empty());
        Account {
            token: shared_text(token),
            email: creds.email.clone(),
            mobile: creds.mobile.clone(),
            state: AccountState::Invalid.to_u8(),
            last_released: 0,
            error_count: MAX_ERROR_COUNT,
            creds: creds.clone(),
            daily_count: 0,
            daily_day: today,
            serial,
        }
    }

    /// Sets the state.
    pub fn set_state(&mut self, state: AccountState)
        ensures
            final(self)@ == (AccountView { state, ..old(self)@ }),
    {
        self.state = state.to_u8();
    }

    /// Sets the time of the last release.
    pub fn set_last_released(&mut self, now_ms: i64)
        ensures
            final(self)@ == (AccountView { last_released: now_ms, ..old(self)@ }),
    {
        self.last_released = now_ms;
    }

    /// Takes the result of a login, with the token if it succeeded.
    pub fn apply_login(&mut self, token: Option<String>)
        ensures
            match token {
                Some(t) => final(self)@ == logged_in(old(self)@, t@),
                None => final(self)@ == login_failed(old(self)@),
            },
    {
        match token {
            Some(t) => {
                self.token = shared_text(t);
                self.state = AccountState::Idle.to_u8();
                self.error_count = 0;
            },
            None => {
                self.error_count = self.error_count.wrapping_add(1);
                if self.error_count >= MAX_ERROR_COUNT {
                    self.state = AccountState::Invalid.to_u8();
                }
            },
        }
    }

    /// What is shown of the account.
    pub fn status(&self) -> (r: AccountStatus)
        ensures
            r.email@ == self@.email,
            r.mobile@ == self@.mobile,
            r.state@ == state_name(self@.state),
            r.last_released_ms == self@.last_released,
            r.error_count == self@.error_count,
    {
        AccountStatus {
            email: self.email.clone(),
            mobile: self.mobile.clone(),
            state: self.state().as_str().to_owned(),
            last_released_ms: self.last_released,
            error_count: self.error_count,
        }
    }
}

impl Clone for Account {
    fn clone(&self) -> (r: Self)
        ensures
            r@ == self@,
    {
        Account {
            token: same_text(&self.token),
            email: self.email.clone(),
            mobile: self.mobile.clone(),
            state: self.state,
            last_released: self.last_released,
            error_count: self.error_count,
            creds: self.creds.clone(),
            daily_count: self.daily_count,
            daily_day: self.daily_day,
            serial: self.serial,
        }
    }
}

} // verus!
