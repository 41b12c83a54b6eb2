//! The pool of accounts. An account serves one request at a time.

use dashmap::DashMap;
use std::collections::HashMap;
use std::sync::Arc;
use std::time::SystemTime;
use vstd::multiset::Multiset;
use vstd::prelude::*;

use crate::accounts;
use crate::accounts::{
    display_id_of, Account, AccountState, AccountStatus, AccountView,
};
use crate::clock;
use crate::clock::{now_millis, utc_day_index};
use crate::config::AccountConfig;
use crate::pool_laws;
use crate::text;
use crate::text::{cat2, cat3};
use crate::types;

verus! {

// ---------------------------------------------------------------------------
// Errors
// ---------------------------------------------------------------------------

/// What went wrong at the service.
#[derive(Debug)]
pub struct ClientError {
    pub message: String,
}

/// What went wrong with a proof of work.
#[derive(Debug)]
pub struct PowError {
    pub message: String,
}

/// What goes wrong in a pool.
#[derive(Debug)]
pub enum PoolError {
    /// No account could be initialised.
    AllAccountsFailed,
    /// The service failed.
    Client(ClientError),
    /// The proof of work failed.
    Pow(PowError),
    /// The configuration of an account is wrong.
    Validation(String),
    /// The account is there already.
    AlreadyExists(String),
    /// There is no such account.
    NotFound(String),
    /// The account serves a request and cannot be removed.
    AccountBusy(String),
}

/// What goes wrong in a pool.
pub enum PoolErrorView {
    AllAccountsFailed,
    Client(Seq<char>),
    Pow(Seq<char>),
    Validation(Seq<char>),
    AlreadyExists(Seq<char>),
    NotFound(Seq<char>),
    AccountBusy(Seq<char>),
}

impl View for PoolError {
    type V = PoolErrorView;

    open spec fn view(&self) -> PoolErrorView {
        match self {
            PoolError::AllAccountsFailed => PoolErrorView::AllAccountsFailed,
            PoolError::Client(e) => PoolErrorView::Client(e.message@),
            PoolError::Pow(e) => PoolErrorView::Pow(e.message@),
            PoolError::Validation(t) => PoolErrorView::Validation(t@),
            PoolError::AlreadyExists(t) => PoolErrorView::AlreadyExists(t@),
            PoolError::NotFound(t) => PoolErrorView::NotFound(t@),
            PoolError::AccountBusy(t) => PoolErrorView::AccountBusy(t@),
        }
    }
}

/// An error in words.
pub open spec fn error_text(e: PoolErrorView) -> Seq<char> {
    match e {
        PoolErrorView::AllAccountsFailed => "所有账号初始化失败"@,
        PoolErrorView::Client(t) => "客户端错误: "@ + t,
        PoolErrorView::Pow(t) => "PoW 计算失败: "@ + t,
        PoolErrorView::Validation(t) => "账号配置错误: "@ + t,
        PoolErrorView::AlreadyExists(t) => "账号已存在: "@ + t,
        PoolErrorView::NotFound(t) => "账号不存在: "@ + t,
        PoolErrorView::AccountBusy(t) => "账号正在使用中: "@ + t,
    }
}

impl PoolError {
    /// The error in words.
    pub fn message(&self) -> (r: String)
        ensures
            r@ == error_text(self@),
    {
        match self {
            PoolError::AllAccountsFailed => "所有账号初始化失败".to_owned(),
            PoolError::Client(e) => cat2("客户端错误: ", e.message.as_str()),
            PoolError::Pow(e) => cat2("PoW 计算失败: ", e.message.as_str()),
            PoolError::Validation(t) => cat2("账号配置错误: ", t.as_str()),
            PoolError::AlreadyExists(t) => cat2("账号已存在: ", t.as_str()),
            PoolError::NotFound(t) => cat2("账号不存在: ", t.as_str()),
            PoolError::AccountBusy(t) => cat2("账号正在使用中: ", t.as_str()),
        }
    }
}

// ---------------------------------------------------------------------------
// The map of accounts
// ---------------------------------------------------------------------------

/// `dashmap::DashMap`: a hash map.
#[verifier::external_type_specification]
#[verifier::external_body]
#[verifier::reject_recursive_types(K)]
#[verifier::reject_recursive_types(V)]
#[verifier::reject_recursive_types(S)]
pub struct ExDashMap<K, V, S>(dashmap::DashMap<K, V, S>);

/// What a map of accounts holds.
pub uninterp spec fn accounts_map(m: DashMap<String, Arc<Account>>) -> Map<Seq<char>, Account>;

/// Whether a list holds every entry of a map, and each once.
pub open spec fn lists(
    entries: Seq<(String, Arc<Account>)>,
    m: Map<Seq<char>, Account>,
) -> bool {
    &&& forall|i: int|
        0 <= i < entries.len() ==> m.contains_key((#[trigger] entries[i]).0@) && m[entries[i].0@]
            == *entries[i].1
    &&& forall|i: int, j: int|
        0 <= i < j < entries.len() ==> (#[trigger] entries[i]).0@ != (#[trigger] entries[j]).0@
    &&& forall|k: Seq<char>| #[trigger]
        m.contains_key(k) ==> exists|i: int|
            0 <= i < entries.len() && (#[trigger] entries[i]).0@ == k
}

/// `DashMap::new` is an empty map.
#[verifier::external_body]
fn map_new() -> (r: DashMap<String, Arc<Account>>)
    ensures
        accounts_map(r).dom() == Set::<Seq<char>>::empty(),
{
    DashMap::new()
}

/// `DashMap::is_empty` tells whether there is no entry.
#[verifier::external_body]
fn map_is_empty(m: &DashMap<String, Arc<Account>>) -> (r: bool)
    ensures
        r == (accounts_map(*m).dom() == Set::<Seq<char>>::empty()),
{
    m.is_empty()
}

/// `DashMap::contains_key` tells whether there is an entry with a key.
#[verifier::external_body]
fn map_contains(m: &DashMap<String, Arc<Account>>, key: &str) -> (r: bool)
    ensures
        r == accounts_map(*m).contains_key(key@),
{
    m.contains_key(key)
}

/// `DashMap::get` gives the value of the entry with a key, here as another handle on it.
#[verifier::external_body]
fn map_get(m: &DashMap<String, Arc<Account>>, key: &str) -> (r: Option<Arc<Account>>)
    ensures
        r is Some == accounts_map(*m).contains_key(key@),
        r is Some ==> *r->0 == accounts_map(*m)[key@],
{
    m.get(key).map(|entry| Arc::clone(entry.value()))
}

/// `DashMap::insert` puts an entry into the map and gives the value that had its key.
#[verifier::external_body]
fn map_insert(m: &mut DashMap<String, Arc<Account>>, key: String, value: Arc<Account>) -> (r:
    Option<Arc<Account>>)
    ensures
        accounts_map(*final(m)) == accounts_map(*old(m)).insert(key@, *value),
        r is Some == accounts_map(*old(m)).contains_key(key@),
        r is Some ==> *r->0 == accounts_map(*old(m))[key@],
{
    m.insert(key, value)
}

/// `DashMap::remove` takes the entry with a key out of the map and gives its value.
#[verifier::external_body]
fn map_remove(m: &mut DashMap<String, Arc<Account>>, key: &str) -> (r: Option<Arc<Account>>)
    ensures
        accounts_map(*final(m)) == accounts_map(*old(m)).remove(key@),
        r is Some == accounts_map(*old(m)).contains_key(key@),
        r is Some ==> *r->0 == accounts_map(*old(m))[key@],
{
    m.remove(key).map(|entry| entry.1)
}

/// `DashMap::iter` goes through the entries, each once, in an order of which nothing is
/// said. They are given as keys and as handles on the values.
#[verifier::external_body]
fn map_entries(m: &DashMap<String, Arc<Account>>) -> (r: Vec<(String, Arc<Account>)>)
    ensures
        lists(r@, accounts_map(*m)),
{
    m.iter().map(|entry| (entry.key().clone(), Arc::clone(entry.value()))).collect()
}

/// Another handle on an account, by `Arc::clone`.
#[verifier::external_body]
fn same_account(a: &Arc<Account>) -> (r: Arc<Account>)
    ensures
        r == *a,
{
    Arc::clone(a)
}

// ---------------------------------------------------------------------------
// The pool
// ---------------------------------------------------------------------------

/// The right to use an account for a request.
pub struct AccountGuard {
    id: String,
    account: Arc<Account>,
}

impl AccountGuard {
    /// The name under which the account stands in its pool.
    pub closed spec fn key(&self) -> Seq<char> {
        self.id@
    }

    /// The account when it was taken.
    pub closed spec fn taken(&self) -> AccountView {
        self.account@
    }

    /// The account as it is now in the pool that it was taken from, also where it has left
    /// the pool since. A pool that knows nothing of the guard shows the account as it was
    /// taken.
    pub fn account(&self, pool: &AccountPool) -> (r: Arc<Account>)
        ensures
            r@ == match live(pool@, self.key(), self.taken().serial) {
                Some(a) => a,
                None => self.taken(),
            },
    {
        let serial: u64 = self.account.serial();
        if let Some(account) = pool.find(self.id.as_str()) {
            if account.serial() == serial {
                return account;
            }
        }
        match pool.departed.get(&serial) {
            Some(account) => same_account(account),
            None => same_account(&self.account),
        }
    }
}

/// A pool of accounts.
pub struct AccountPool {
    accounts: DashMap<String, Arc<Account>>,
    daily_request_limit: u32,
    client_ready: bool,
    next_serial: u64,
    guarded: Vec<u64>,
    departed: HashMap<u64, Arc<Account>>,
}

/// What a pool is.
#[verifier::ext_equal]
pub struct PoolView {
    /// The accounts by the names under which they are known.
    pub accounts: Map<Seq<char>, AccountView>,
    /// How many requests an account may serve on a day; 0 if there is no limit.
    pub daily_limit: u32,
    /// Whether the service can be reached for new logins.
    pub client_ready: bool,
    /// What tells the next account from others.
    pub next_serial: u64,
    /// The serial numbers of accounts that were taken and not given back, one for each time
    /// that they were taken.
    pub guarded: Multiset<u64>,
    /// The accounts that left the pool before they were given back, by serial number.
    pub departed: Map<u64, AccountView>,
}

impl View for AccountPool {
    type V = PoolView;

    closed spec fn view(&self) -> PoolView {
        PoolView {
            accounts: accounts_map(self.accounts).map_values(|a: Account| a@),
            daily_limit: self.daily_request_limit,
            client_ready: self.client_ready,
            next_serial: self.next_serial,
            guarded: self.guarded@.to_multiset(),
            departed: self.departed@.map_values(|a: Arc<Account>| a@),
        }
    }
}

impl PoolView {
    /// Every account stands in the pool under the name under which it is known, which is
    /// that of its credentials.
    pub open spec fn wf(&self) -> bool {
        forall|k: Seq<char>| #[trigger]
            self.accounts.contains_key(k) ==> {
                let a = self.accounts[k];
                &&& accounts::known_as(a.email, a.mobile) == k
                &&& a.email == a.creds.email@
                &&& a.mobile == a.creds.mobile@
            }
    }
}

/// The number behind a serial number.
pub open spec fn serial_after(n: u64) -> u64 {
    if n == u64::MAX {
        0
    } else {
        (n + 1) as u64
    }
}

/// The account of a guard as it is now, `None` where the pool knows nothing of it.
pub open spec fn live(p: PoolView, key: Seq<char>, serial: u64) -> Option<AccountView> {
    if p.accounts.contains_key(key) && p.accounts[key].serial == serial {
        Some(p.accounts[key])
    } else if p.departed.contains_key(serial) {
        Some(p.departed[serial])
    } else {
        None
    }
}

/// The pool with an account noted that leaves its place: it is kept for those who have
/// taken it.
pub open spec fn noted(p: PoolView, key: Seq<char>) -> PoolView {
    if p.accounts.contains_key(key) && p.guarded.count(p.accounts[key].serial) > 0 {
        let a = p.accounts[key];
        PoolView { departed: p.departed.insert(a.serial, a), ..p }
    } else {
        p
    }
}

/// The pool without an account.
pub open spec fn removed(p: PoolView, key: Seq<char>) -> PoolView {
    PoolView { accounts: p.accounts.remove(key), ..noted(p, key) }
}

/// The pool with an account.
pub open spec fn with_account(p: PoolView, key: Seq<char>, a: AccountView) -> PoolView {
    PoolView { accounts: p.accounts.insert(key, a), ..p }
}

/// For how many milliseconds an account has been idle, in 64 bits.
pub open spec fn idle_time(a: AccountView, now_ms: i64) -> i64 {
    let d = now_ms - a.last_released;
    if d > i64::MAX {
        (d - 0x1_0000_0000_0000_0000) as i64
    } else if d < i64::MIN {
        (d + 0x1_0000_0000_0000_0000) as i64
    } else {
        d as i64
    }
}

/// The account as the selection leaves it: with a daily limit, an idle account is counted
/// anew on a new day.
pub open spec fn looked_at(a: AccountView, limit: u32, today: u32) -> AccountView {
    if limit > 0 && a.state == AccountState::Idle {
        accounts::rolled(a, today)
    } else {
        a
    }
}

/// The accounts as the selection leaves them.
pub open spec fn all_looked_at(
    m: Map<Seq<char>, AccountView>,
    limit: u32,
    today: u32,
) -> Map<Seq<char>, AccountView> {
    m.map_values(|a: AccountView| looked_at(a, limit, today))
}

/// Whether an account can be selected: it is idle and below the daily limit.
pub open spec fn is_eligible(a: AccountView, limit: u32, now_ms: i64) -> bool {
    &&& a.state == AccountState::Idle
    &&& limit == 0 || a.daily_count < limit
    &&& idle_time(a, now_ms) > i64::MIN
}

/// The account once it was selected.
pub open spec fn in_use(a: AccountView, today: u32) -> AccountView {
    AccountView { state: AccountState::Busy, ..accounts::counted(a, today) }
}

/// Whether a selection at a point in time can choose an account, or none, and leave the
/// pool as `after`: an account that can be selected and has been idle for longest is chosen
/// and counted; nothing is chosen only where no account can be selected.
pub open spec fn is_selection(
    before: PoolView,
    now_ms: i64,
    today: u32,
    chosen: Option<Seq<char>>,
    after: PoolView,
) -> bool {
    let limit = before.daily_limit;
    let ready = all_looked_at(before.accounts, limit, today);
    match chosen {
        Some(k) => {
            &&& ready.contains_key(k)
            &&& is_eligible(ready[k], limit, now_ms)
            &&& forall|j: Seq<char>| #[trigger]
                ready.contains_key(j) && is_eligible(ready[j], limit, now_ms) ==> idle_time(
                    ready[j],
                    now_ms,
                ) <= idle_time(ready[k], now_ms)
            &&& after == (PoolView {
                accounts: ready.insert(k, in_use(ready[k], today)),
                guarded: before.guarded.insert(ready[k].serial),
                ..before
            })
        },
        None => {
            &&& forall|j: Seq<char>| #[trigger]
                ready.contains_key(j) ==> !is_eligible(ready[j], limit, now_ms)
            &&& after == (PoolView { accounts: ready, ..before })
        },
    }
}

/// An account that was given back: it is idle, unless its request failed.
pub open spec fn given_back(a: AccountView, now_ms: i64) -> AccountView {
    AccountView {
        state: if a.state == AccountState::Busy {
            AccountState::Idle
        } else {
            a.state
        },
        last_released: now_ms,
        ..a
    }
}

/// The pool with the account of a guard changed.
pub open spec fn with_live(p: PoolView, key: Seq<char>, serial: u64, a: AccountView) -> PoolView {
    if p.accounts.contains_key(key) && p.accounts[key].serial == serial {
        with_account(p, key, a)
    } else {
        PoolView { departed: p.departed.insert(serial, a), ..p }
    }
}

/// The pool once somebody holds an account no more. An account that has left the pool is
/// forgotten when nobody holds it.
pub open spec fn let_go(p: PoolView, serial: u64) -> PoolView {
    let guarded = p.guarded.remove(serial);
    PoolView {
        guarded,
        departed: if guarded.count(serial) == 0 {
            p.departed.remove(serial)
        } else {
            p.departed
        },
        ..p
    }
}

/// The pool after an account was given back.
pub open spec fn released(p: PoolView, key: Seq<char>, serial: u64, now_ms: i64) -> PoolView {
    match live(p, key, serial) {
        Some(a) => let_go(with_live(p, key, serial, given_back(a, now_ms)), serial),
        None => let_go(p, serial),
    }
}

/// The pool after the request of an account failed.
pub open spec fn marked(p: PoolView, key: Seq<char>) -> PoolView {
    if p.accounts.contains_key(key) && p.accounts[key].state == AccountState::Busy {
        with_account(p, key, AccountView { state: AccountState::Error, ..p.accounts[key] })
    } else {
        p
    }
}

/// The account after a login that gave a token, or failed.
pub open spec fn after_login(a: AccountView, token: Option<Seq<char>>) -> AccountView {
    match token {
        Some(t) => accounts::logged_in(a, t),
        None => accounts::login_failed(a),
    }
}

/// The pool after the login of an account that was to be initialised.
pub open spec fn with_initialised(
    p: PoolView,
    creds: AccountConfig,
    token: Option<Seq<char>>,
    today: u32,
) -> PoolView {
    let key = accounts::known_as(creds.email@, creds.mobile@);
    let a = match token {
        Some(t) => accounts::fresh(t, creds, today, p.next_serial),
        None => accounts::failed(creds, today, p.next_serial),
    };
    PoolView { next_serial: serial_after(p.next_serial), ..with_account(noted(p, key), key, a) }
}

/// An account to be initialised, and its token if the login succeeded.
pub struct InitResult {
    pub creds: AccountConfig,
    pub login: Result<String, PoolError>,
}

/// The token of a login, if it succeeded.
pub open spec fn token_of(login: Result<String, PoolError>) -> Option<Seq<char>> {
    match login {
        Ok(t) => Some(t@),
        Err(_) => None,
    }
}

/// The pool after a list of accounts was initialised, in order.
pub open spec fn with_all_initialised(
    p: PoolView,
    results: Seq<InitResult>,
    today: u32,
) -> PoolView
    decreases results.len(),
{
    if results.len() == 0 {
        p
    } else {
        with_initialised(
            with_all_initialised(p, results.drop_last(), today),
            results.last().creds,
            token_of(results.last().login),
            today,
        )
    }
}

/// What waiting for an account comes to.
pub enum WaitStep {
    /// An account was taken.
    Taken(AccountGuard),
    /// The time is up.
    TimedOut,
    /// Try again after so many milliseconds.
    Sleep(u64),
}

/// The name of the account that was taken.
pub open spec fn chosen_key(taken: Option<AccountGuard>) -> Option<Seq<char>> {
    match taken {
        Some(g) => Some(g.key()),
        None => None,
    }
}

/// The name of the account that was taken.
pub open spec fn key_in_step(step: WaitStep) -> Option<Seq<char>> {
    match step {
        WaitStep::Taken(g) => Some(g.key()),
        _ => None,
    }
}

/// How many milliseconds pass between two attempts to take an account.
pub const WAIT_INTERVAL_MS: u64 = 200;

/// How many seconds pass between two attempts to log failed accounts in again.
pub const RECOVERY_INTERVAL_SECS: u64 = 60;

/// Whether a status is that of an account.
pub open spec fn shows(s: AccountStatus, a: AccountView) -> bool {
    &&& s.email@ == a.email
    &&& s.mobile@ == a.mobile
    &&& s.state@ == accounts::state_name(a.state)
    &&& s.last_released_ms == a.last_released
    &&& s.error_count == a.error_count
}

/// Whether a list names every account of a pool, and each once.
pub open spec fn names_all(keys: Seq<Seq<char>>, m: Map<Seq<char>, AccountView>) -> bool {
    &&& keys.no_duplicates()
    &&& forall|k: Seq<char>| keys.contains(k) <==> #[trigger] m.contains_key(k)
}

/// What stands against logging an account in again.
pub open spec fn re_login_error(p: PoolView, key: Seq<char>) -> Option<Seq<char>> {
    if !p.client_ready {
        Some("client/solver 未初始化"@)
    } else if !p.accounts.contains_key(key) {
        Some("账号 "@ + key + " 不存在"@)
    } else {
        let state = p.accounts[key].state;
        if state == AccountState::Error || state == AccountState::Invalid {
            None
        } else {
            Some("账号状态为 "@ + accounts::state_name(state) + "，仅 Error/Invalid 可重登"@)
        }
    }
}

/// What adding an account comes to: its name and the pool with it, or an error.
pub open spec fn addition(
    p: PoolView,
    creds: AccountConfig,
    login: Result<Seq<char>, PoolErrorView>,
    today: u32,
) -> Result<(Seq<char>, PoolView), PoolErrorView> {
    let id = accounts::known_as(creds.email@, creds.mobile@);
    if p.accounts.contains_key(id) {
        Err(PoolErrorView::AlreadyExists(id))
    } else {
        match login {
            Ok(token) => Ok((id, with_initialised(p, creds, Some(token), today))),
            Err(e) => Err(e),
        }
    }
}

/// What a login gave, seen as text or error.
pub open spec fn login_view(login: Result<String, PoolError>) -> Result<Seq<char>, PoolErrorView> {
    match login {
        Ok(t) => Ok(t@),
        Err(e) => Err(e@),
    }
}

/// What removing an account comes to: its name and the pool without it, or an error.
pub open spec fn removal(p: PoolView, key: Seq<char>) -> Result<
    (Seq<char>, PoolView),
    PoolErrorView,
> {
    if !p.accounts.contains_key(key) {
        Err(PoolErrorView::NotFound(key))
    } else if p.accounts[key].state == AccountState::Busy {
        Err(PoolErrorView::AccountBusy(key))
    } else {
        let a = p.accounts[key];
        Ok((accounts::known_as(a.email, a.mobile), removed(p, key)))
    }
}

/// Whether a result and the pool after it are those of an operation that either succeeds or
/// leaves the pool as it was.
pub open spec fn is_outcome(
    outcome: Result<(Seq<char>, PoolView), PoolErrorView>,
    r: Result<String, PoolError>,
    before: PoolView,
    after: PoolView,
) -> bool {
    match outcome {
        Ok((id, changed)) => r is Ok && r->Ok_0@ == id && after == changed,
        Err(e) => r is Err && r->Err_0@ == e && after == before,
    }
}

/// The pool after an account was logged in again, with a token if the login succeeded.
pub open spec fn with_login(p: PoolView, key: Seq<char>, token: Option<Seq<char>>) -> PoolView {
    if p.accounts.contains_key(key) {
        with_account(p, key, after_login(p.accounts[key], token))
    } else {
        p
    }
}

/// Whether an account is to be logged in again without being asked for: its request failed,
/// and the service can be reached.
pub open spec fn needs_recovery(p: PoolView, key: Seq<char>) -> bool {
    &&& p.client_ready
    &&& p.accounts.contains_key(key)
    &&& p.accounts[key].state == AccountState::Error
}

/// What an attempt to take an account means for one who waits.
pub open spec fn step_for(taken: Option<AccountGuard>, deadline_passed: bool) -> WaitStep {
    match taken {
        Some(g) => WaitStep::Taken(g),
        None => if deadline_passed {
            WaitStep::TimedOut
        } else {
            WaitStep::Sleep(WAIT_INTERVAL_MS)
        },
    }
}

/// The handles on the accounts, seen as accounts.
proof fn lemma_insert_view(m: Map<Seq<char>, Account>, k: Seq<char>, a: Account)
    ensures
        m.insert(k, a).map_values(|a: Account| a@) == m.map_values(|a: Account| a@).insert(k, a@),
{
    assert(m.insert(k, a).map_values(|a: Account| a@) =~= m.map_values(|a: Account| a@).insert(
        k,
        a@,
    ));
}

/// The key at a place of a list of entries.
pub open spec fn key_at(entries: Seq<(String, Arc<Account>)>, i: int) -> Seq<char> {
    entries[i].0@
}

impl AccountPool {
    /// A pool without accounts and without a daily limit.
    pub fn new() -> (r: Self)
        ensures
            r@ == (PoolView {
                accounts: Map::empty(),
                daily_limit: 0,
                client_ready: false,
                next_serial: 0,
                guarded: Multiset::empty(),
                departed: Map::empty(),
            }),
            r@.wf(),
    {
        let r = AccountPool {
            accounts: map_new(),
            daily_request_limit: 0,
            client_ready: false,
            next_serial: 0,
            guarded: Vec::new(),
            departed: HashMap::new(),
        };
        assert(r@.accounts =~= Map::<Seq<char>, AccountView>::empty());
        assert(r@.departed =~= Map::<u64, AccountView>::empty());
        proof {
            r.guarded@.to_multiset_ensures();
            assert(r@.guarded =~= Multiset::<u64>::empty()) by {
                vstd::multiset::lemma_multiset_empty_len(r@.guarded);
            }
        }
        r
    }

    /// Sets how many requests an account may serve on a day; 0 stands for no limit.
    pub fn set_daily_request_limit(&mut self, limit: u32)
        ensures
            old(self)@.wf() ==> final(self)@.wf(),
            final(self)@ == (PoolView { daily_limit: limit, ..old(self)@ }),
    {
        self.daily_request_limit = limit;
    }

    /// Notes that the service can be reached for new logins.
    pub fn set_client_solver(&mut self)
        ensures
            old(self)@.wf() ==> final(self)@.wf(),
            final(self)@ == (PoolView { client_ready: true, ..old(self)@ }),
    {
        self.client_ready = true;
    }

    /// Puts an account in its place.
    fn put(&mut self, key: String, account: Account) -> (r: Arc<Account>)
        ensures
            final(self)@ == with_account(old(self)@, key@, account@),
            *r == account,
    {
        let shared = Arc::new(account);
        let kept = same_account(&shared);
        proof {
            lemma_insert_view(accounts_map(self.accounts), key@, account);
        }
        let _ = map_insert(&mut self.accounts, key, shared);
        kept
    }

    /// The account with a name.
    fn find(&self, key: &str) -> (r: Option<Arc<Account>>)
        ensures
            r is Some == self@.accounts.contains_key(key@),
            r is Some ==> (*r->0)@ == self@.accounts[key@],
    {
        map_get(&self.accounts, key)
    }

    /// Keeps an account that leaves its place for those who have taken it.
    fn note(&mut self, key: &str)
        ensures
            final(self)@ == noted(old(self)@, key@),
    {
        if let Some(account) = self.find(key) {
            let serial: u64 = account.serial();
            if self.guards(serial) {
                let ghost view = account@;
                self.departed.insert(serial, account);
                assert(self@.departed =~= old(self)@.departed.insert(serial, view));
            }
        }
    }

    /// Whether an account is held by somebody.
    fn guards(&self, serial: u64) -> (r: bool)
        ensures
            r == (self@.guarded.count(serial) > 0),
    {
        proof {
            self.guarded@.to_multiset_ensures();
        }
        let mut i: usize = 0;
        while i < self.guarded.len()
            invariant
                self.guarded@.contains(serial) == (self@.guarded.count(serial) > 0),
                i <= self.guarded@.len(),
                forall|j: int| 0 <= j < i ==> self.guarded@[j] != serial,
            decreases self.guarded@.len() - i,
        {
            if self.guarded[i] == serial {
                assert(self.guarded@.contains(serial));
                return true;
            }
            i += 1;
        }
        assert(!self.guarded@.contains(serial));
        false
    }

    /// Notes that somebody holds an account no more.
    fn forget(&mut self, serial: u64)
        ensures
            final(self)@ == let_go(old(self)@, serial),
    {
        let ghost before = self.guarded@;
        proof {
            before.to_multiset_ensures();
        }
        let mut i: usize = 0;
        while i < self.guarded.len() && self.guarded[i] != serial
            invariant
                i <= self.guarded@.len(),
                self@ == old(self)@,
                self.guarded@ == before,
                forall|j: int| 0 <= j < i ==> self.guarded@[j] != serial,
            decreases self.guarded@.len() - i,
        {
            i += 1;
        }
        if i < self.guarded.len() {
            let _ = self.guarded.remove(i);
            assert(self.guarded@ == before.remove(i as int));
        } else {
            assert(!before.contains(serial));
            assert(before.to_multiset().count(serial) == 0);
        }
        assert(self@.guarded =~= old(self)@.guarded.remove(serial));
        if !self.guards(serial) {
            self.departed.remove(&serial);
            assert(self@.departed =~= old(self)@.departed.remove(serial));
        }
    }

    /// Takes the results of the first logins of some accounts. An account whose login failed
    /// is kept as invalid, so that it can be shown.
    pub fn init(&mut self, results: &Vec<InitResult>, today: u32) -> (r: Result<(), PoolError>)
        ensures
            old(self)@.wf() ==> final(self)@.wf(),
            r is Ok,
            final(self)@ == with_all_initialised(old(self)@, results@, today),
    {
        let ghost start = self@;
        let mut i: usize = 0;
        assert(results@.take(0) =~= Seq::<InitResult>::empty());
        while i < results.len()
            invariant
                i <= results@.len(),
                self@ == with_all_initialised(start, results@.take(i as int), today),
                start.wf() ==> self@.wf(),
            decreases results@.len() - i,
        {
            assert(results@.take(i + 1).drop_last() =~= results@.take(i as int));
            let creds = &results[i].creds;
            proof {
                pool_laws::law_initialised_account_has_its_name(
                    self@,
                    *creds,
                    token_of(results@[i as int].login),
                    today,
                );
            }
            let serial: u64 = self.next_serial;
            let account = match &results[i].login {
                Ok(token) => Account::new_idle(token.clone(), creds, today, serial),
                Err(_) => Account::new_invalid(creds, today, serial),
            };
            let id = display_id_of(creds);
            self.note(id.as_str());
            let _ = self.put(id, account);
            self.next_serial = serial.wrapping_add(1);
            i += 1;
        }
        assert(results@.take(i as int) =~= results@);
        Ok(())
    }

    /// Whether an account with some credentials can be added: there must be none yet.
    pub fn check_new(&self, creds: &AccountConfig) -> (r: Result<String, PoolError>)
        ensures
            match r {
                Ok(id) => id@ == accounts::known_as(creds.email@, creds.mobile@)
                    && !self@.accounts.contains_key(id@),
                Err(e) => self@.accounts.contains_key(
                    accounts::known_as(creds.email@, creds.mobile@),
                ) && e@ == PoolErrorView::AlreadyExists(
                    accounts::known_as(creds.email@, creds.mobile@),
                ),
            },
    {
        let id = display_id_of(creds);
        if map_contains(&self.accounts, id.as_str()) {
            Err(PoolError::AlreadyExists(id))
        } else {
            Ok(id)
        }
    }

    /// Adds an account whose login gave a token or an error.
    pub fn add_account(
        &mut self,
        creds: &AccountConfig,
        login: Result<String, PoolError>,
        today: u32,
    ) -> (r: Result<String, PoolError>)
        ensures
            old(self)@.wf() ==> final(self)@.wf(),
            ({
                let id = accounts::known_as(creds.email@, creds.mobile@);
                if old(self)@.accounts.contains_key(id) {
                    &&& r is Err
                    &&& r->Err_0@ == PoolErrorView::AlreadyExists(id)
                    &&& final(self)@ == old(self)@
                } else {
                    match login {
                        Ok(token) => {
                            &&& r is Ok
                            &&& r->Ok_0@ == id
                            &&& final(self)@ == with_initialised(
                                old(self)@,
                                *creds,
                                Some(token@),
                                today,
                            )
                        },
                        Err(e) => {
                            &&& r is Err
                            &&& r->Err_0 == e
                            &&& final(self)@ == old(self)@
                        },
                    }
                }
            }),
            is_outcome(
                addition(old(self)@, *creds, login_view(login), today),
                r,
                old(self)@,
                final(self)@,
            ),
    {
        let id = match self.check_new(creds) {
            Ok(id) => id,
            Err(e) => {
                return Err(e);
            },
        };
        match login {
            Ok(token) => {
                proof {
                    pool_laws::law_initialised_account_has_its_name(
                        self@,
                        *creds,
                        Some(token@),
                        today,
                    );
                }
                let serial: u64 = self.next_serial;
                let account = Account::new_idle(token, creds, today, serial);
                let _ = self.put(id.clone(), account);
                self.next_serial = serial.wrapping_add(1);
                Ok(id)
            },
            Err(e) => Err(e),
        }
    }

    /// Removes an account, unless it serves a request.
    pub fn remove_account(&mut self, email_or_mobile: &str) -> (r: Result<String, PoolError>)
        ensures
            old(self)@.wf() ==> final(self)@.wf(),
            ({
                let key = email_or_mobile@;
                let accounts = old(self)@.accounts;
                if !accounts.contains_key(key) {
                    &&& r is Err
                    &&& r->Err_0@ == PoolErrorView::NotFound(key)
                    &&& final(self)@ == old(self)@
                } else if accounts[key].state == AccountState::Busy {
                    &&& r is Err
                    &&& r->Err_0@ == PoolErrorView::AccountBusy(key)
                    &&& final(self)@ == old(self)@
                } else {
                    &&& r is Ok
                    &&& r->Ok_0@ == accounts::known_as(accounts[key].email, accounts[key].mobile)
                    &&& final(self)@ == removed(old(self)@, key)
                }
            }),
            is_outcome(removal(old(self)@, email_or_mobile@), r, old(self)@, final(self)@),
    {
        let account = match self.find(email_or_mobile) {
            Some(a) => a,
            None => {
                return Err(PoolError::NotFound(email_or_mobile.to_owned()));
            },
        };
        if account.is_busy() {
            return Err(PoolError::AccountBusy(email_or_mobile.to_owned()));
        }
        let ghost before = self@;
        proof {
            pool_laws::law_removal_keeps_names(before, email_or_mobile@);
        }
        self.note(email_or_mobile);
        match map_remove(&mut self.accounts, email_or_mobile) {
            Some(gone) => {
                assert(self@.accounts =~= before.accounts.remove(email_or_mobile@));
                Ok(gone.display_id().to_owned())
            },
            None => Err(PoolError::NotFound(email_or_mobile.to_owned())),
        }
    }

    /// Takes the account that has been idle for longest at a point in time, among those that
    /// can be selected.
    #[verifier::rlimit(40)]
    pub fn get_account_at(&mut self, now_ms: i64, today: u32) -> (r: Option<AccountGuard>)
        ensures
            old(self)@.wf() ==> final(self)@.wf(),
            is_selection(
                old(self)@,
                now_ms,
                today,
                chosen_key(r),
                final(self)@,
            ),
            r is Some ==> r->0.taken() == final(self)@.accounts[r->0.key()],
    {
        let ghost before = self@;
        let ghost limit = before.daily_limit;
        let ghost ready = all_looked_at(before.accounts, limit, today);
        if map_is_empty(&self.accounts) {
            assert(before.accounts.dom() =~= accounts_map(self.accounts).dom());
            assert(ready =~= before.accounts);
            return None;
        }
        let daily_limit: u32 = self.daily_request_limit;
        let entries = map_entries(&self.accounts);
        let ghost all = accounts_map(self.accounts);
        let mut best: Option<usize> = None;
        let mut best_idle: i64 = i64::MIN;
        let mut i: usize = 0;
        while i < entries.len()
            invariant
                i <= entries@.len(),
                limit == before.daily_limit,
                daily_limit == limit,
                lists(entries@, all),
                before.accounts == all.map_values(|a: Account| a@),
                ready == all_looked_at(before.accounts, limit, today),
                self@ == (PoolView { accounts: self@.accounts, ..before }),
                self@.accounts.dom() == before.accounts.dom(),
                forall|j: int|
                    0 <= j < i ==> self@.accounts[#[trigger] key_at(entries@, j)]
                        == ready[key_at(entries@, j)],
                forall|j: int|
                    i <= j < entries@.len() ==> self@.accounts[#[trigger] key_at(entries@, j)]
                        == before.accounts[key_at(entries@, j)],
                match best {
                    Some(b) => b < i && is_eligible(
                        ready[key_at(entries@, b as int)],
                        limit,
                        now_ms,
                    ) && best_idle == idle_time(ready[key_at(entries@, b as int)], now_ms),
                    None => best_idle == i64::MIN,
                },
                forall|j: int|
                    0 <= j < i && is_eligible(ready[#[trigger] key_at(entries@, j)], limit, now_ms)
                        ==> best is Some && idle_time(ready[key_at(entries@, j)], now_ms)
                        <= best_idle,
            decreases entries@.len() - i,
        {
            let ghost k = key_at(entries@, i as int);
            assert(all.contains_key(entries@[i as int].0@));
            assert(before.accounts[k] == entries@[i as int].1@);
            assert(ready[k] == looked_at(before.accounts[k], limit, today));
            assert forall|j: int| 0 <= j < entries@.len() && j != i implies #[trigger] key_at(
                entries@,
                j,
            ) != k by {
                if j < i {
                    assert(entries@[j].0@ != entries@[i as int].0@);
                } else {
                    assert(entries@[i as int].0@ != entries@[j].0@);
                }
            }
            if !entries[i].1.is_available() {
                i += 1;
                continue;
            }
            if daily_limit > 0 {
                let mut account = (*entries[i].1).clone();
                let count: u32 = account.daily_count_at(today);
                let _ = self.put(entries[i].0.clone(), account);
                assert(self@.accounts.dom() =~= before.accounts.dom());
                if count >= daily_limit {
                    i += 1;
                    continue;
                }
            }
            let idle: i64 = now_ms.wrapping_sub(entries[i].1.last_released());
            assert(idle == idle_time(ready[k], now_ms));
            if idle > best_idle {
                best_idle = idle;
                best = Some(i);
            }
            i += 1;
        }
        proof {
            assert forall|j: Seq<char>| #[trigger] ready.contains_key(j) implies exists|i: int|
                0 <= i < entries@.len() && #[trigger] key_at(entries@, i) == j by {
                assert(all.contains_key(j));
                let n = choose|n: int| 0 <= n < entries@.len() && (#[trigger] entries@[n]).0@ == j;
                assert(key_at(entries@, n) == j);
            }
            assert forall|j: Seq<char>| #[trigger] ready.contains_key(j) implies self@.accounts[j]
                == ready[j] by {
                let n = choose|n: int|
                    0 <= n < entries@.len() && #[trigger] key_at(entries@, n) == j;
                assert(self@.accounts[key_at(entries@, n)] == ready[key_at(entries@, n)]);
            }
            assert(self@.accounts =~= ready);
        }
        match best {
            Some(b) => {
                let ghost k = key_at(entries@, b as int);
                assert(all.contains_key(entries@[b as int].0@));
                match self.find(entries[b].0.as_str()) {
                    Some(current) => {
                        let mut account = (*current).clone();
                        account.set_state(AccountState::Busy);
                        account.inc_daily_count_at(today);
                        assert(account@ == in_use(ready[k], today));
                        let ghost view = account@;
                        let shared = self.put(entries[b].0.clone(), account);
                        let serial: u64 = shared.serial();
                        proof {
                            self.guarded@.to_multiset_ensures();
                            assert(self.guarded@.push(serial).to_multiset()
                                =~= before.guarded.insert(serial));
                        }
                        self.guarded.push(serial);
                        assert(self@ == (PoolView {
                            accounts: ready.insert(k, view),
                            guarded: before.guarded.insert(serial),
                            ..before
                        }));
                        Some(AccountGuard { id: entries[b].0.clone(), account: shared })
                    },
                    None => None,
                }
            },
            None => None,
        }
    }

    /// Takes the account that has been idle for longest, among those that can be selected.
    /// Accounts that have reached the daily limit are passed over.
    pub fn get_account(&mut self) -> (r: Option<AccountGuard>)
        ensures
            old(self)@.wf() ==> final(self)@.wf(),
            exists|t1: SystemTime, t2: SystemTime|
                is_selection(
                    old(self)@,
                    clock::millis_of(#[trigger] clock::clock_reading(t1)),
                    clock::day_of(#[trigger] clock::clock_reading(t2)),
                    chosen_key(r),
                    final(self)@,
                ),
            r is Some ==> r->0.taken() == final(self)@.accounts[r->0.key()],
    {
        let now_ms: i64 = now_millis();
        let today: u32 = utc_day_index();
        self.get_account_at(now_ms, today)
    }

    /// Gives an account back at a point in time. It is ready again, unless its request
    /// failed. An account that has left the pool meanwhile is forgotten when nobody holds it
    /// any more.
    pub fn release_at(&mut self, guard: AccountGuard, now_ms: i64)
        ensures
            old(self)@.wf() ==> final(self)@.wf(),
            final(self)@ == released(old(self)@, guard.key(), guard.taken().serial, now_ms),
    {
        let serial: u64 = guard.account.serial();
        let here = match self.find(guard.id.as_str()) {
            Some(current) => current.serial() == serial,
            None => false,
        };
        let known = self.departed.contains_key(&serial);
        if here || known {
            let mut account = (*guard.account(self)).clone();
            if account.is_busy() {
                account.set_state(AccountState::Idle);
            }
            account.set_last_released(now_ms);
            if here {
                let _ = self.put(guard.id, account);
            } else {
                let ghost view = account@;
                self.departed.insert(serial, Arc::new(account));
                assert(self@.departed =~= old(self)@.departed.insert(serial, view));
            }
        }
        self.forget(serial);
    }

    /// Gives an account back now.
    pub fn release(&mut self, guard: AccountGuard)
        ensures
            old(self)@.wf() ==> final(self)@.wf(),
            exists|t: SystemTime|
                final(self)@ == released(
                    old(self)@,
                    guard.key(),
                    guard.taken().serial,
                    clock::millis_of(#[trigger] clock::clock_reading(t)),
                ),
    {
        let now_ms: i64 = now_millis();
        self.release_at(guard, now_ms)
    }

    /// What an attempt to take an account means for one who waits.
    pub fn wait_step(taken: Option<AccountGuard>, deadline_passed: bool) -> (r: WaitStep)
        ensures
            match taken {
                Some(g) => r == WaitStep::Taken(g),
                None => if deadline_passed {
                    r is TimedOut
                } else {
                    r == WaitStep::Sleep(WAIT_INTERVAL_MS)
                },
            },
            r == step_for(taken, deadline_passed),
    {
        match taken {
            Some(g) => WaitStep::Taken(g),
            None => if deadline_passed {
                WaitStep::TimedOut
            } else {
                WaitStep::Sleep(WAIT_INTERVAL_MS)
            },
        }
    }

    /// One attempt to take an account for one who waits: the account, the end of the wait
    /// once the deadline has passed, or a pause.
    pub fn get_account_with_wait(&mut self, deadline_passed: bool) -> (r: WaitStep)
        ensures
            old(self)@.wf() ==> final(self)@.wf(),
            exists|t1: SystemTime, t2: SystemTime|
                is_selection(
                    old(self)@,
                    clock::millis_of(#[trigger] clock::clock_reading(t1)),
                    clock::day_of(#[trigger] clock::clock_reading(t2)),
                    key_in_step(r),
                    final(self)@,
                ),
            match r {
                WaitStep::Taken(g) => g.taken() == final(self)@.accounts[g.key()],
                WaitStep::TimedOut => deadline_passed,
                WaitStep::Sleep(ms) => !deadline_passed && ms == WAIT_INTERVAL_MS,
            },
    {
        let taken = self.get_account();
        Self::wait_step(taken, deadline_passed)
    }

    /// What is shown of all accounts.
    pub fn account_statuses(&self) -> (r: Vec<AccountStatus>)
        ensures
            exists|keys: Seq<Seq<char>>|
                {
                    &&& #[trigger] names_all(keys, self@.accounts)
                    &&& keys.len() == r@.len()
                    &&& forall|i: int|
                        0 <= i < r@.len() ==> shows(#[trigger] r@[i], self@.accounts[keys[i]])
                },
    {
        let entries = map_entries(&self.accounts);
        let ghost all = accounts_map(self.accounts);
        let ghost keys = Seq::new(entries@.len(), |i: int| key_at(entries@, i));
        let mut out: Vec<AccountStatus> = Vec::new();
        let mut i: usize = 0;
        while i < entries.len()
            invariant
                i <= entries@.len(),
                lists(entries@, all),
                all == accounts_map(self.accounts),
                keys == Seq::new(entries@.len(), |i: int| key_at(entries@, i)),
                out@.len() == i,
                forall|j: int|
                    0 <= j < i ==> shows(#[trigger] out@[j], self@.accounts[keys[j]]),
            decreases entries@.len() - i,
        {
            assert(all.contains_key(entries@[i as int].0@));
            assert(self@.accounts[keys[i as int]] == entries@[i as int].1@);
            out.push(entries[i].1.status());
            i += 1;
        }
        proof {
            lemma_keys_name_all(entries@, all, keys);
            assert(names_all(keys, self@.accounts));
        }
        out
    }

    /// Nothing needs to be done when the pool is given up: no session is kept.
    pub fn shutdown(&self) {
    }

    /// Notes that the request of an account failed. Only an account that serves a request
    /// is marked.
    /// It is told whether there is such an account.
    pub fn mark_error(&mut self, email_or_mobile: &str) -> (r: bool)
        ensures
            old(self)@.wf() ==> final(self)@.wf(),
            final(self)@ == marked(old(self)@, email_or_mobile@),
            r == old(self)@.accounts.contains_key(email_or_mobile@),
    {
        match self.find(email_or_mobile) {
            Some(current) => {
                if current.is_busy() {
                    let mut account = (*current).clone();
                    account.set_state(AccountState::Error);
                    let _ = self.put(email_or_mobile.to_owned(), account);
                }
                true
            },
            None => false,
        }
    }

    /// The credentials for a new login of an account, or what stands against it.
    pub fn check_re_login(&self, email_or_mobile: &str) -> (r: Result<AccountConfig, String>)
        ensures
            match r {
                Ok(creds) => re_login_error(self@, email_or_mobile@) is None && creds
                    == self@.accounts[email_or_mobile@].creds,
                Err(e) => re_login_error(self@, email_or_mobile@) == Some(e@),
            },
    {
        if !self.client_ready {
            return Err("client/solver 未初始化".to_owned());
        }
        match self.find(email_or_mobile) {
            Some(account) => {
                let state = account.state();
                if state != AccountState::Error && state != AccountState::Invalid {
                    return Err(
                        cat3("账号状态为 ", state.as_str(), "，仅 Error/Invalid 可重登"),
                    );
                }
                Ok(account.creds().clone())
            },
            None => Err(cat3("账号 ", email_or_mobile, " 不存在")),
        }
    }

    /// Takes the result of a new login of an account, with the token if it succeeded.
    pub fn re_login_account(&mut self, email_or_mobile: &str, token: Option<String>) -> (r: Option<
        AccountState,
    >)
        ensures
            old(self)@.wf() ==> final(self)@.wf(),
            ({
                let key = email_or_mobile@;
                let accounts = old(self)@.accounts;
                if accounts.contains_key(key) {
                    let after = after_login(
                        accounts[key],
                        match token {
                            Some(t) => Some(t@),
                            None => None,
                        },
                    );
                    &&& final(self)@ == with_account(old(self)@, key, after)
                    &&& r == Some(after.state)
                } else {
                    &&& final(self)@ == old(self)@
                    &&& r is None
                }
            }),
            final(self)@ == with_login(old(self)@, email_or_mobile@, types::opt_text(token)),
    {
        match self.find(email_or_mobile) {
            Some(current) => {
                let mut account = (*current).clone();
                account.apply_login(token);
                let state = account.state();
                let _ = self.put(email_or_mobile.to_owned(), account);
                Some(state)
            },
            None => None,
        }
    }

    /// Logs an account in again whose request or whose login failed, given the result of
    /// the login. If it succeeds, the account is ready; if not, one more failure is counted.
    pub fn re_login_single(&mut self, email_or_mobile: &str, token: Option<String>) -> (r: Result<
        (),
        String,
    >)
        ensures
            old(self)@.wf() ==> final(self)@.wf(),
            ({
                let key = email_or_mobile@;
                let accounts = old(self)@.accounts;
                match re_login_error(old(self)@, key) {
                    Some(e) => {
                        &&& r is Err
                        &&& r->Err_0@ == e
                        &&& final(self)@ == old(self)@
                    },
                    None => {
                        let after = after_login(
                            accounts[key],
                            match token {
                                Some(t) => Some(t@),
                                None => None,
                            },
                        );
                        &&& final(self)@ == with_account(old(self)@, key, after)
                        &&& match r {
                            Ok(_) => token is Some,
                            Err(e) => token is None && e@ == "重登失败，当前状态: "@
                                + accounts::state_name(after.state),
                        }
                    },
                }
            }),
            re_login_error(old(self)@, email_or_mobile@) is None ==> final(self)@ == with_login(
                old(self)@,
                email_or_mobile@,
                types::opt_text(token),
            ),
    {
        if let Err(e) = self.check_re_login(email_or_mobile) {
            return Err(e);
        }
        match self.re_login_account(email_or_mobile, token) {
            Some(state) => {
                if state == AccountState::Idle {
                    Ok(())
                } else {
                    Err(cat2("重登失败，当前状态: ", state.as_str()))
                }
            },
            None => Err(cat3("账号 ", email_or_mobile, " 不存在")),
        }
    }

    /// The accounts that are to be logged in again: those whose request failed, once the
    /// service can be reached.
    pub fn accounts_to_recover(&self) -> (r: Vec<String>)
        ensures
            text::texts(r@).no_duplicates(),
            forall|k: Seq<char>| #[trigger]
                text::texts(r@).contains(k) <==> self@.client_ready && self@.accounts.contains_key(k)
                    && self@.accounts[k].state == AccountState::Error,
            forall|k: Seq<char>| #[trigger]
                text::texts(r@).contains(k) <==> needs_recovery(self@, k),
    {
        let mut out: Vec<String> = Vec::new();
        if !self.client_ready {
            assert(text::texts(out@) =~= Seq::<Seq<char>>::empty());
            return out;
        }
        let entries = map_entries(&self.accounts);
        let ghost all = accounts_map(self.accounts);
        let mut i: usize = 0;
        assert(text::texts(out@) =~= Seq::<Seq<char>>::empty());
        while i < entries.len()
            invariant
                i <= entries@.len(),
                lists(entries@, all),
                all == accounts_map(self.accounts),
                text::texts(out@).no_duplicates(),
                forall|k: Seq<char>| #[trigger]
                    text::texts(out@).contains(k) <==> exists|j: int|
                        0 <= j < i && #[trigger] key_at(entries@, j) == k
                            && self@.accounts[k].state == AccountState::Error,
            decreases entries@.len() - i,
        {
            let ghost before = text::texts(out@);
            let ghost key = key_at(entries@, i as int);
            assert(all.contains_key(entries@[i as int].0@));
            assert(self@.accounts[key] == entries@[i as int].1@);
            assert(!before.contains(key)) by {
                if before.contains(key) {
                    let j = choose|j: int|
                        0 <= j < i && #[trigger] key_at(entries@, j) == key
                            && self@.accounts[key].state == AccountState::Error;
                    assert(entries@[j].0@ != entries@[i as int].0@);
                }
            }
            if entries[i].1.state() == AccountState::Error {
                out.push(entries[i].0.clone());
                let ghost after = text::texts(out@);
                assert(after =~= before.push(key));
                assert forall|k: Seq<char>| #[trigger] after.contains(k) <==> exists|j: int|
                    0 <= j < i + 1 && #[trigger] key_at(entries@, j) == k
                        && self@.accounts[k].state == AccountState::Error by {
                    if after.contains(k) {
                        if k != key {
                            assert(before.contains(k));
                        } else {
                            assert(key_at(entries@, i as int) == k);
                        }
                    }
                    if exists|j: int|
                        0 <= j < i + 1 && #[trigger] key_at(entries@, j) == k
                            && self@.accounts[k].state == AccountState::Error {
                        if k == key {
                            assert(after[before.len() as int] == k);
                        } else {
                            assert(before.contains(k));
                            let n = choose|n: int| 0 <= n < before.len() && before[n] == k;
                            assert(after[n] == k);
                        }
                    }
                }
            } else {
                assert forall|k: Seq<char>| #[trigger] before.contains(k) <==> exists|j: int|
                    0 <= j < i + 1 && #[trigger] key_at(entries@, j) == k
                        && self@.accounts[k].state == AccountState::Error by {}
            }
            i += 1;
        }
        proof {
            assert forall|k: Seq<char>| #[trigger]
                text::texts(out@).contains(k) <==> self@.client_ready && self@.accounts.contains_key(k)
                    && self@.accounts[k].state == AccountState::Error by {
                if self@.accounts.contains_key(k) {
                    assert(all.contains_key(k));
                    let n = choose|n: int|
                        0 <= n < entries@.len() && (#[trigger] entries@[n]).0@ == k;
                    assert(key_at(entries@, n) == k);
                }
                if text::texts(out@).contains(k) {
                    let j = choose|j: int|
                        0 <= j < i && #[trigger] key_at(entries@, j) == k
                            && self@.accounts[k].state == AccountState::Error;
                    assert(all.contains_key(entries@[j].0@));
                }
            }
        }
        out
    }
}

/// The keys of a list of all entries name all accounts.
proof fn lemma_keys_name_all(
    entries: Seq<(String, Arc<Account>)>,
    all: Map<Seq<char>, Account>,
    keys: Seq<Seq<char>>,
)
    requires
        lists(entries, all),
        keys == Seq::new(entries.len(), |i: int| key_at(entries, i)),
    ensures
        names_all(keys, all.map_values(|a: Account| a@)),
{
    let m = all.map_values(|a: Account| a@);
    assert forall|i: int, j: int| 0 <= i < keys.len() && 0 <= j < keys.len() && i
        != j implies keys[i] != keys[j] by {
        if i < j {
            assert(entries[i].0@ != entries[j].0@);
        } else {
            assert(entries[j].0@ != entries[i].0@);
        }
    }
    assert forall|k: Seq<char>| keys.contains(k) <==> #[trigger] m.contains_key(k) by {
        if keys.contains(k) {
            let i = choose|i: int| 0 <= i < keys.len() && keys[i] == k;
            assert(all.contains_key(entries[i].0@));
        }
        if m.contains_key(k) {
            assert(all.contains_key(k));
            let i = choose|i: int| 0 <= i < entries.len() && (#[trigger] entries[i]).0@ == k;
            assert(keys[i] == k);
        }
    }
}

} // verus!
