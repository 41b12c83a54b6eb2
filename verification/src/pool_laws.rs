//! What holds of a pool over several operations.

use vstd::prelude::*;

use crate::accounts;
use crate::accounts::{AccountState, AccountStatus, AccountView};
use crate::config::AccountConfig;
use crate::pool;
use crate::pool::{AccountGuard, InitResult, PoolErrorView, PoolView, WaitStep};

verus! {

/// A change of an account that keeps its address, its number and its credentials leaves
/// every account under the name under which it is known.
pub proof fn law_changed_account_keeps_its_name(p: PoolView, key: Seq<char>, a: AccountView)
    requires
        p.wf(),
        p.accounts.contains_key(key),
        a.email == p.accounts[key].email,
        a.mobile == p.accounts[key].mobile,
        a.creds == p.accounts[key].creds,
    ensures
        pool::with_account(p, key, a).wf(),
{
    let q = pool::with_account(p, key, a);
    assert forall|k: Seq<char>| #[trigger] q.accounts.contains_key(k) implies ({
        let a = q.accounts[k];
        &&& accounts::known_as(a.email, a.mobile) == k
        &&& a.email == a.creds.email@
        &&& a.mobile == a.creds.mobile@
    }) by {
        assert(p.accounts.contains_key(k));
    }
}

/// An account that is initialised stands under the name under which it is known.
pub proof fn law_initialised_account_has_its_name(
    p: PoolView,
    creds: AccountConfig,
    token: Option<Seq<char>>,
    today: u32,
)
    ensures
        p.wf() ==> pool::with_initialised(p, creds, token, today).wf(),
{
    let q = pool::with_initialised(p, creds, token, today);
    if p.wf() {
        assert forall|k: Seq<char>| #[trigger] q.accounts.contains_key(k) implies ({
            let a = q.accounts[k];
            &&& accounts::known_as(a.email, a.mobile) == k
            &&& a.email == a.creds.email@
            &&& a.mobile == a.creds.mobile@
        }) by {
            if k != accounts::known_as(creds.email@, creds.mobile@) {
                assert(p.accounts.contains_key(k));
            }
        }
    }
}

/// Removing an account leaves the others under their names.
pub proof fn law_removal_keeps_names(p: PoolView, key: Seq<char>)
    ensures
        p.wf() ==> pool::removed(p, key).wf(),
{
    let q = pool::removed(p, key);
    if p.wf() {
        assert forall|k: Seq<char>| #[trigger] q.accounts.contains_key(k) implies ({
            let a = q.accounts[k];
            &&& accounts::known_as(a.email, a.mobile) == k
            &&& a.email == a.creds.email@
            &&& a.mobile == a.creds.mobile@
        }) by {
            assert(p.accounts.contains_key(k));
        }
    }
}

/// A selection leaves every account under its name, and neither adds nor removes one.
pub proof fn law_selection_keeps_names(
    before: PoolView,
    now_ms: i64,
    today: u32,
    chosen: Option<Seq<char>>,
    after: PoolView,
)
    requires
        pool::is_selection(before, now_ms, today, chosen, after),
    ensures
        after.accounts.dom() == before.accounts.dom(),
        before.wf() ==> after.wf(),
{
    assert(after.accounts.dom() =~= before.accounts.dom());
    if before.wf() {
        assert forall|k: Seq<char>| #[trigger] after.accounts.contains_key(k) implies ({
            let a = after.accounts[k];
            &&& accounts::known_as(a.email, a.mobile) == k
            &&& a.email == a.creds.email@
            &&& a.mobile == a.creds.mobile@
        }) by {
            assert(before.accounts.contains_key(k));
        }
    }
}

/// An account serves one request at a time: what is selected was idle, is busy afterwards,
/// and is not selected again while it is busy.
pub proof fn law_taken_account_is_exclusive(
    before: PoolView,
    now_ms: i64,
    today: u32,
    key: Seq<char>,
    after: PoolView,
    later_ms: i64,
    later_day: u32,
    later: Option<Seq<char>>,
    last: PoolView,
)
    requires
        pool::is_selection(before, now_ms, today, Some(key), after),
        pool::is_selection(after, later_ms, later_day, later, last),
    ensures
        before.accounts[key].state == AccountState::Idle,
        after.accounts[key].state == AccountState::Busy,
        later != Some(key),
        last.accounts[key] == after.accounts[key],
{
    assert(before.accounts.contains_key(key));
    assert(after.accounts.contains_key(key));
    assert(pool::looked_at(after.accounts[key], after.daily_limit, later_day)
        == after.accounts[key]);
}

/// A busy account stays busy when other accounts are given back, and when its own place is
/// given back by one who held an earlier account of that name.
pub proof fn law_only_its_guard_releases(
    p: PoolView,
    key: Seq<char>,
    other: Seq<char>,
    serial: u64,
    now_ms: i64,
)
    requires
        p.accounts.contains_key(key),
        other != key || serial != p.accounts[key].serial,
    ensures
        pool::released(p, other, serial, now_ms).accounts[key] == p.accounts[key],
{
}

/// The daily limit holds: an account that is selected has then served no more requests on
/// that day than the limit allows.
pub proof fn law_daily_limit_holds(
    before: PoolView,
    now_ms: i64,
    today: u32,
    key: Seq<char>,
    after: PoolView,
)
    requires
        pool::is_selection(before, now_ms, today, Some(key), after),
        before.daily_limit > 0,
    ensures
        after.accounts[key].daily_day == today,
        1 <= after.accounts[key].daily_count <= before.daily_limit,
        after.accounts[key].daily_count == accounts::rolled(
            before.accounts[key],
            today,
        ).daily_count + 1,
{
    assert(before.accounts.contains_key(key));
}

/// A selection touches no account but the one that it chooses, but for starting the count
/// of a new day.
pub proof fn law_selection_leaves_others(
    before: PoolView,
    now_ms: i64,
    today: u32,
    chosen: Option<Seq<char>>,
    after: PoolView,
    key: Seq<char>,
)
    requires
        pool::is_selection(before, now_ms, today, chosen, after),
        before.accounts.contains_key(key),
        chosen != Some(key),
    ensures
        after.accounts[key] == before.accounts[key] || after.accounts[key] == accounts::rolled(
            before.accounts[key],
            today,
        ),
{
    assert(after.accounts.contains_key(key));
}

/// An account that is given back can be selected again, and its idle time starts anew.
pub proof fn law_release_makes_ready(
    before: PoolView,
    now_ms: i64,
    today: u32,
    key: Seq<char>,
    after: PoolView,
    later_ms: i64,
)
    requires
        pool::is_selection(before, now_ms, today, Some(key), after),
    ensures
        ({
            let back = pool::released(after, key, after.accounts[key].serial, later_ms);
            &&& back.accounts[key].state == AccountState::Idle
            &&& back.accounts[key].last_released == later_ms
            &&& back.accounts[key].daily_count == after.accounts[key].daily_count
        }),
{
    assert(after.accounts.contains_key(key));
}

/// An account whose request failed does not become ready by being given back: only a login
/// makes it ready.
pub proof fn law_failed_request_needs_a_login(
    p: PoolView,
    key: Seq<char>,
    now_ms: i64,
    token: Seq<char>,
)
    requires
        p.accounts.contains_key(key),
        p.accounts[key].state == AccountState::Busy,
    ensures
        ({
            let failed = pool::marked(p, key);
            let back = pool::released(failed, key, p.accounts[key].serial, now_ms);
            &&& failed.accounts[key].state == AccountState::Error
            &&& back.accounts[key].state == AccountState::Error
            &&& pool::after_login(back.accounts[key], Some(token)).state == AccountState::Idle
            &&& pool::after_login(back.accounts[key], None).state != AccountState::Idle
        }),
{
}

/// Only an account that serves a request is marked as failed.
pub proof fn law_only_busy_accounts_fail(p: PoolView, key: Seq<char>)
    requires
        p.accounts.contains_key(key),
        p.accounts[key].state != AccountState::Busy,
    ensures
        pool::marked(p, key) == p,
{
}

/// Removing an account that was just added leaves the accounts as they were.
pub proof fn law_removal_undoes_addition(
    p: PoolView,
    creds: AccountConfig,
    token: Option<Seq<char>>,
    today: u32,
)
    requires
        !p.accounts.contains_key(accounts::known_as(creds.email@, creds.mobile@)),
    ensures
        pool::with_initialised(p, creds, token, today).accounts.remove(
            accounts::known_as(creds.email@, creds.mobile@),
        ) == p.accounts,
{
    let key = accounts::known_as(creds.email@, creds.mobile@);
    assert(pool::with_initialised(p, creds, token, today).accounts.remove(key) =~= p.accounts);
}

// ---------------------------------------------------------------------------
// Accounts that are held
// ---------------------------------------------------------------------------

/// Whether somebody holds an account, and the pool can tell it from all others.
pub open spec fn is_held(p: PoolView, key: Seq<char>, serial: u64) -> bool {
    &&& p.guarded.count(serial) > 0
    &&& pool::live(p, key, serial) is Some
    &&& forall|k: Seq<char>| #[trigger]
        p.accounts.contains_key(k) && p.accounts[k].serial == serial ==> k == key
}

/// One who takes an account holds it, and sees it as it stands in the pool.
pub proof fn law_taken_account_is_held(
    before: PoolView,
    now_ms: i64,
    today: u32,
    key: Seq<char>,
    after: PoolView,
)
    requires
        pool::is_selection(before, now_ms, today, Some(key), after),
        forall|k: Seq<char>| #[trigger]
            before.accounts.contains_key(k) && before.accounts[k].serial
                == before.accounts[key].serial ==> k == key,
    ensures
        is_held(after, key, after.accounts[key].serial),
        pool::live(after, key, after.accounts[key].serial) == Some(after.accounts[key]),
{
    assert(before.accounts.contains_key(key));
    assert forall|k: Seq<char>| #[trigger]
        after.accounts.contains_key(k) && after.accounts[k].serial
            == after.accounts[key].serial implies k == key by {
        assert(before.accounts.contains_key(k));
    }
}

/// One who holds an account sees it unchanged when it is removed, and when others are.
pub proof fn law_held_account_outlives_removal(
    p: PoolView,
    key: Seq<char>,
    serial: u64,
    gone: Seq<char>,
)
    requires
        is_held(p, key, serial),
    ensures
        is_held(pool::removed(p, gone), key, serial),
        pool::live(pool::removed(p, gone), key, serial) == pool::live(p, key, serial),
{
    let q = pool::removed(p, gone);
    assert forall|k: Seq<char>| #[trigger]
        q.accounts.contains_key(k) && q.accounts[k].serial == serial implies k == key by {
        assert(p.accounts.contains_key(k));
    }
    if gone != key && p.accounts.contains_key(gone) {
        assert(p.accounts[gone].serial != serial);
    }
}

/// One who holds an account sees it unchanged when an account is initialised, also under
/// the same name. The new account must have a number of its own.
pub proof fn law_held_account_outlives_initialisation(
    p: PoolView,
    key: Seq<char>,
    serial: u64,
    creds: AccountConfig,
    token: Option<Seq<char>>,
    today: u32,
)
    requires
        is_held(p, key, serial),
        p.next_serial != serial,
    ensures
        ({
            let q = pool::with_initialised(p, creds, token, today);
            &&& is_held(q, key, serial)
            &&& pool::live(q, key, serial) == pool::live(p, key, serial)
        }),
{
    let q = pool::with_initialised(p, creds, token, today);
    let k = accounts::known_as(creds.email@, creds.mobile@);
    assert forall|j: Seq<char>| #[trigger]
        q.accounts.contains_key(j) && q.accounts[j].serial == serial implies j == key by {
        if j != k {
            assert(p.accounts.contains_key(j));
        }
    }
    if k != key && p.accounts.contains_key(k) {
        assert(p.accounts[k].serial != serial);
    }
}

/// One who holds an account sees every change of it in the pool, such as that its request
/// failed or that it was logged in again, and nothing of changes of other accounts.
pub proof fn law_held_account_is_seen_live(
    p: PoolView,
    key: Seq<char>,
    serial: u64,
    changed: Seq<char>,
    a: AccountView,
)
    requires
        is_held(p, key, serial),
        p.accounts.contains_key(changed),
        a.serial == p.accounts[changed].serial,
    ensures
        ({
            let q = pool::with_account(p, changed, a);
            &&& is_held(q, key, serial)
            &&& pool::live(q, key, serial) == if changed == key && a.serial == serial {
                Some(a)
            } else {
                pool::live(p, key, serial)
            }
        }),
{
    let q = pool::with_account(p, changed, a);
    assert forall|k: Seq<char>| #[trigger]
        q.accounts.contains_key(k) && q.accounts[k].serial == serial implies k == key by {
        assert(p.accounts.contains_key(k));
    }
}

/// One who holds an account goes on to see it when another takes an account.
pub proof fn law_held_account_outlives_selection(
    before: PoolView,
    key: Seq<char>,
    serial: u64,
    now_ms: i64,
    today: u32,
    chosen: Option<Seq<char>>,
    after: PoolView,
)
    requires
        is_held(before, key, serial),
        pool::is_selection(before, now_ms, today, chosen, after),
    ensures
        is_held(after, key, serial),
        pool::live(before, key, serial)->0.state == AccountState::Busy ==> pool::live(
            after,
            key,
            serial,
        ) == pool::live(before, key, serial),
{
    assert forall|k: Seq<char>| #[trigger]
        after.accounts.contains_key(k) && after.accounts[k].serial == serial implies k == key by {
        assert(before.accounts.contains_key(k));
    }
    if before.accounts.contains_key(key) {
        assert(after.accounts.contains_key(key));
    }
}

/// One who holds an account sees it unchanged when others are given back, and sees it given
/// back when another gives back the same account.
pub proof fn law_held_account_outlives_release(
    p: PoolView,
    key: Seq<char>,
    serial: u64,
    other: Seq<char>,
    other_serial: u64,
    now_ms: i64,
)
    requires
        is_held(p, key, serial),
        other_serial == serial ==> other == key && p.guarded.count(serial) > 1,
    ensures
        ({
            let q = pool::released(p, other, other_serial, now_ms);
            &&& is_held(q, key, serial)
            &&& pool::live(q, key, serial) == if other_serial == serial {
                Some(pool::given_back(pool::live(p, key, serial)->0, now_ms))
            } else {
                pool::live(p, key, serial)
            }
        }),
{
    let q = pool::released(p, other, other_serial, now_ms);
    assert forall|k: Seq<char>| #[trigger]
        q.accounts.contains_key(k) && q.accounts[k].serial == serial implies k == key by {
        assert(p.accounts.contains_key(k));
    }
}

// ---------------------------------------------------------------------------
// Which account is taken
// ---------------------------------------------------------------------------

/// Whether an account can serve a request on a day: it is idle and has served fewer requests
/// on that day than the limit allows, if there is one.
pub open spec fn can_serve(a: AccountView, limit: u32, today: u32) -> bool {
    &&& a.state == AccountState::Idle
    &&& limit == 0 || a.daily_day != today || a.daily_count < limit
}

/// The account that is taken can serve a request, and none that can was given back earlier:
/// an account that was never used counts as given back at 0. It is taken at a time that does
/// not lie before any release.
pub proof fn law_longest_unused_is_taken(
    before: PoolView,
    now_ms: i64,
    today: u32,
    key: Seq<char>,
    after: PoolView,
)
    requires
        pool::is_selection(before, now_ms, today, Some(key), after),
        forall|k: Seq<char>| #[trigger]
            before.accounts.contains_key(k) ==> 0 <= before.accounts[k].last_released <= now_ms,
    ensures
        before.accounts.contains_key(key),
        can_serve(before.accounts[key], before.daily_limit, today),
        forall|k: Seq<char>| #[trigger]
            before.accounts.contains_key(k) && can_serve(
                before.accounts[k],
                before.daily_limit,
                today,
            ) ==> before.accounts[key].last_released <= before.accounts[k].last_released,
{
    let limit = before.daily_limit;
    let ready = pool::all_looked_at(before.accounts, limit, today);
    assert(before.accounts.contains_key(key));
    assert(ready[key].last_released == before.accounts[key].last_released);
    assert forall|k: Seq<char>| #[trigger]
        before.accounts.contains_key(k) && can_serve(
            before.accounts[k],
            limit,
            today,
        ) implies before.accounts[key].last_released <= before.accounts[k].last_released by {
        assert(ready.contains_key(k));
        assert(ready[k] == pool::looked_at(before.accounts[k], limit, today));
        assert(pool::is_eligible(ready[k], limit, now_ms));
    }
}

/// An account is taken exactly if one can serve a request, at a time that does not lie before
/// any release.
pub proof fn law_an_account_is_taken_if_one_can_serve(
    before: PoolView,
    now_ms: i64,
    today: u32,
    chosen: Option<Seq<char>>,
    after: PoolView,
)
    requires
        pool::is_selection(before, now_ms, today, chosen, after),
        forall|k: Seq<char>| #[trigger]
            before.accounts.contains_key(k) ==> 0 <= before.accounts[k].last_released <= now_ms,
    ensures
        chosen is Some == exists|k: Seq<char>| #[trigger]
            before.accounts.contains_key(k) && can_serve(
                before.accounts[k],
                before.daily_limit,
                today,
            ),
{
    let limit = before.daily_limit;
    let ready = pool::all_looked_at(before.accounts, limit, today);
    match chosen {
        Some(key) => {
            law_longest_unused_is_taken(before, now_ms, today, key, after);
            assert(before.accounts.contains_key(key));
        },
        None => {
            assert forall|k: Seq<char>| #[trigger]
                before.accounts.contains_key(k) implies !can_serve(
                before.accounts[k],
                limit,
                today,
            ) by {
                assert(ready.contains_key(k));
                assert(ready[k] == pool::looked_at(before.accounts[k], limit, today));
            }
        },
    }
}

/// What is taken is the account as it was, busy and counted for the day. The pool is the
/// same but for its accounts and for who holds them.
pub proof fn law_taken_account_is_counted(
    before: PoolView,
    now_ms: i64,
    today: u32,
    key: Seq<char>,
    after: PoolView,
)
    requires
        pool::is_selection(before, now_ms, today, Some(key), after),
        before.accounts[key].daily_count < u32::MAX,
    ensures
        ({
            let a = before.accounts[key];
            let b = after.accounts[key];
            &&& b.state == AccountState::Busy
            &&& b.daily_day == today
            &&& b.daily_count == if a.daily_day == today {
                a.daily_count + 1
            } else {
                1
            }
            &&& a == (AccountView {
                state: a.state,
                daily_count: a.daily_count,
                daily_day: a.daily_day,
                ..b
            })
            &&& after.guarded.count(a.serial) == before.guarded.count(a.serial) + 1
            &&& after.daily_limit == before.daily_limit
            &&& after.client_ready == before.client_ready
            &&& after.next_serial == before.next_serial
            &&& after.departed == before.departed
        }),
{
    assert(before.accounts.contains_key(key));
}

/// Two accounts that can serve are taken in turn: the one that was given back last is taken
/// last.
pub proof fn law_accounts_take_turns(
    before: PoolView,
    now_ms: i64,
    today: u32,
    key: Seq<char>,
    after: PoolView,
    back_ms: i64,
    later_ms: i64,
    other: Seq<char>,
    later: Option<Seq<char>>,
    last: PoolView,
)
    requires
        pool::is_selection(before, now_ms, today, Some(key), after),
        forall|k: Seq<char>| #[trigger]
            before.accounts.contains_key(k) ==> 0 <= before.accounts[k].last_released <= now_ms,
        now_ms < back_ms <= later_ms,
        other != key,
        before.accounts.contains_key(other),
        can_serve(before.accounts[other], before.daily_limit, today),
        pool::is_selection(
            pool::released(after, key, after.accounts[key].serial, back_ms),
            later_ms,
            today,
            later,
            last,
        ),
    ensures
        later is Some,
        later != Some(key),
{
    let back = pool::released(after, key, after.accounts[key].serial, back_ms);
    assert(before.accounts.contains_key(key));
    assert(after.accounts.contains_key(key));
    assert(after.accounts.contains_key(other));
    assert forall|k: Seq<char>| #[trigger]
        back.accounts.contains_key(k) implies 0 <= back.accounts[k].last_released <= later_ms by {
        assert(before.accounts.contains_key(k));
    }
    assert(back.accounts.contains_key(other));
    law_selection_leaves_others(before, now_ms, today, Some(key), after, other);
    assert(can_serve(back.accounts[other], back.daily_limit, today));
    law_an_account_is_taken_if_one_can_serve(back, later_ms, today, later, last);
    if later == Some(key) {
        law_longest_unused_is_taken(back, later_ms, today, key, last);
    }
}

// ---------------------------------------------------------------------------
// What the other operations do
// ---------------------------------------------------------------------------

/// An account that is given back by one who holds it is idle, unless it is not busy any
/// more, and was given back now. Everything else of it stays, and so do all other accounts.
pub proof fn law_giving_back(
    p: PoolView,
    key: Seq<char>,
    now_ms: i64,
)
    requires
        p.accounts.contains_key(key),
    ensures
        ({
            let a = p.accounts[key];
            let q = pool::released(p, key, a.serial, now_ms);
            let b = q.accounts[key];
            &&& b.state == if a.state == AccountState::Busy {
                AccountState::Idle
            } else {
                a.state
            }
            &&& b.last_released == now_ms
            &&& a == (AccountView { state: a.state, last_released: a.last_released, ..b })
            &&& q.accounts.dom() == p.accounts.dom()
            &&& forall|k: Seq<char>| k != key ==> #[trigger] q.accounts[k] == p.accounts[k]
            &&& p.guarded.count(a.serial) > 0 ==> q.guarded.count(a.serial) + 1
                == p.guarded.count(a.serial)
        }),
{
    let a = p.accounts[key];
    let q = pool::released(p, key, a.serial, now_ms);
    assert(q.accounts.dom() =~= p.accounts.dom());
}

/// Giving back an account that is not in the pool any more changes no account of the pool.
pub proof fn law_giving_back_what_is_gone(
    p: PoolView,
    key: Seq<char>,
    serial: u64,
    now_ms: i64,
)
    requires
        !p.accounts.contains_key(key) || p.accounts[key].serial != serial,
    ensures
        pool::released(p, key, serial, now_ms).accounts == p.accounts,
{
}

/// A failed request makes a busy account one that needs a login. Nothing else of it changes,
/// and nothing of the other accounts.
pub proof fn law_failing(p: PoolView, key: Seq<char>)
    requires
        p.accounts.contains_key(key),
    ensures
        ({
            let a = p.accounts[key];
            let q = pool::marked(p, key);
            let b = q.accounts[key];
            &&& b.state == if a.state == AccountState::Busy {
                AccountState::Error
            } else {
                a.state
            }
            &&& a == (AccountView { state: a.state, ..b })
            &&& forall|k: Seq<char>| k != key ==> #[trigger] q.accounts[k] == p.accounts[k]
            &&& q == (PoolView { accounts: q.accounts, ..p })
        }),
{
}

/// A login with a token makes an account ready with that token; a failed one counts as a
/// failure, the third of which makes the account invalid.
pub proof fn law_logging_in(a: AccountView, token: Seq<char>)
    requires
        a.error_count < u8::MAX,
    ensures
        pool::after_login(a, Some(token)).token == token,
        pool::after_login(a, Some(token)).state == AccountState::Idle,
        pool::after_login(a, Some(token)).error_count == 0,
        pool::after_login(a, None).token == a.token,
        pool::after_login(a, None).error_count == a.error_count + 1,
        pool::after_login(a, None).state == if a.error_count >= 2 {
            AccountState::Invalid
        } else {
            a.state
        },
        pool::after_login(a, Some(token)).last_released == a.last_released,
        pool::after_login(a, None).last_released == a.last_released,
        pool::after_login(a, Some(token)).daily_count == a.daily_count,
        pool::after_login(a, None).daily_count == a.daily_count,
{
}

/// A new login is let in exactly for an account of the pool that needs one, once the service
/// can be reached. What stands against it is told in this order: the service cannot be
/// reached, there is no such account, the account needs no login.
pub proof fn law_who_may_log_in_again(p: PoolView, key: Seq<char>)
    ensures
        pool::re_login_error(p, key) is None == (p.client_ready && p.accounts.contains_key(key) && (
        p.accounts[key].state == AccountState::Error || p.accounts[key].state
            == AccountState::Invalid)),
        !p.client_ready ==> pool::re_login_error(p, key) == Some("client/solver 未初始化"@),
        p.client_ready && !p.accounts.contains_key(key) ==> pool::re_login_error(p, key) == Some(
            "账号 "@ + key + " 不存在"@,
        ),
        p.client_ready && p.accounts.contains_key(key) && p.accounts[key].state
            == AccountState::Idle ==> pool::re_login_error(p, key) == Some(
            "账号状态为 "@ + "idle"@ + "，仅 Error/Invalid 可重登"@,
        ),
        p.client_ready && p.accounts.contains_key(key) && p.accounts[key].state
            == AccountState::Busy ==> pool::re_login_error(p, key) == Some(
            "账号状态为 "@ + "busy"@ + "，仅 Error/Invalid 可重登"@,
        ),
{
}

/// An account that is initialised stands under its address, or else its number: ready with
/// its token, or invalid where its login failed. No other account changes.
pub proof fn law_initialising(
    p: PoolView,
    creds: AccountConfig,
    token: Option<Seq<char>>,
    today: u32,
)
    ensures
        ({
            let key = if creds.email@.len() > 0 {
                creds.email@
            } else {
                creds.mobile@
            };
            let q = pool::with_initialised(p, creds, token, today);
            let a = q.accounts[key];
            &&& q.accounts.dom() == p.accounts.dom().insert(key)
            &&& forall|k: Seq<char>| k != key ==> #[trigger] q.accounts[k] == p.accounts[k]
            &&& a.creds == creds
            &&& a.email == creds.email@
            &&& a.mobile == creds.mobile@
            &&& a.serial == p.next_serial
            &&& a.last_released == 0
            &&& a.daily_count == 0
            &&& token is Some ==> a.state == AccountState::Idle && a.token == token->0
                && a.error_count == 0
            &&& token is None ==> a.state == AccountState::Invalid && a.error_count == 3
            &&& p.next_serial < u64::MAX ==> q.next_serial == p.next_serial + 1
            &&& q.daily_limit == p.daily_limit
            &&& q.client_ready == p.client_ready
            &&& q.guarded == p.guarded
        }),
{
    let key = accounts::known_as(creds.email@, creds.mobile@);
    let q = pool::with_initialised(p, creds, token, today);
    assert(q.accounts.dom() =~= p.accounts.dom().insert(key));
}

/// Initialising a list of accounts is initialising them one after the other.
pub proof fn law_initialising_one_more(
    p: PoolView,
    results: Seq<InitResult>,
    one: InitResult,
    today: u32,
)
    ensures
        pool::with_all_initialised(p, Seq::empty(), today) == p,
        pool::with_all_initialised(p, results.push(one), today) == pool::with_initialised(
            pool::with_all_initialised(p, results, today),
            one.creds,
            match one.login {
                Ok(t) => Some(t@),
                Err(_) => None,
            },
            today,
        ),
{
    assert(results.push(one).drop_last() =~= results);
}

/// Every account of a list is in the pool once the list was initialised, also one whose login
/// failed, and no account leaves the pool.
pub proof fn law_every_account_is_initialised(
    p: PoolView,
    results: Seq<InitResult>,
    today: u32,
    i: int,
    key: Seq<char>,
)
    requires
        0 <= i < results.len(),
    ensures
        pool::with_all_initialised(p, results, today).accounts.contains_key(
            if results[i].creds.email@.len() > 0 {
                results[i].creds.email@
            } else {
                results[i].creds.mobile@
            },
        ),
        p.accounts.contains_key(key) ==> pool::with_all_initialised(
            p,
            results,
            today,
        ).accounts.contains_key(key),
    decreases results.len(),
{
    let less = results.drop_last();
    let last = results.last();
    let q = pool::with_all_initialised(p, less, today);
    law_initialising(q, last.creds, pool::token_of(last.login), today);
    if i < less.len() {
        assert(less[i] == results[i]);
        law_every_account_is_initialised(p, less, today, i, key);
    } else if less.len() > 0 {
        law_every_account_is_initialised(p, less, today, 0, key);
    }
}

/// A removed account is gone, and no other account is touched.
pub proof fn law_removing(p: PoolView, key: Seq<char>)
    ensures
        !pool::removed(p, key).accounts.contains_key(key),
        forall|k: Seq<char>|
            k != key ==> (#[trigger] pool::removed(p, key).accounts.contains_key(k)
                == p.accounts.contains_key(k)) && (p.accounts.contains_key(k) ==> pool::removed(
                p,
                key,
            ).accounts[k] == p.accounts[k]),
        pool::removed(p, key).daily_limit == p.daily_limit,
        pool::removed(p, key).client_ready == p.client_ready,
        pool::removed(p, key).next_serial == p.next_serial,
        pool::removed(p, key).guarded == p.guarded,
{
}

/// What is shown of an account are its address, its number, the name of its state, its last
/// release and its failures.
pub proof fn law_status_shows_the_account(s: AccountStatus, a: AccountView)
    requires
        pool::shows(s, a),
    ensures
        s.email@ == a.email,
        s.mobile@ == a.mobile,
        a.state == AccountState::Idle ==> s.state@ == "idle"@,
        a.state == AccountState::Busy ==> s.state@ == "busy"@,
        a.state == AccountState::Error ==> s.state@ == "error"@,
        a.state == AccountState::Invalid ==> s.state@ == "invalid"@,
        s.last_released_ms == a.last_released,
        s.error_count == a.error_count,
{
}

/// A list that names all accounts names each of them once, and nothing else.
pub proof fn law_all_accounts_are_named(
    keys: Seq<Seq<char>>,
    m: Map<Seq<char>, AccountView>,
    key: Seq<char>,
    i: int,
    j: int,
)
    requires
        pool::names_all(keys, m),
    ensures
        m.contains_key(key) == exists|n: int| 0 <= n < keys.len() && #[trigger] keys[n] == key,
        0 <= i < j < keys.len() ==> keys[i] != keys[j],
{
    if m.contains_key(key) {
        assert(keys.contains(key));
    }
    if exists|n: int| 0 <= n < keys.len() && #[trigger] keys[n] == key {
        assert(keys.contains(key));
    }
}

/// Every error is told in words of its own, with what it is about.
pub proof fn law_errors_are_told(t: Seq<char>)
    ensures
        pool::error_text(PoolErrorView::AllAccountsFailed) == "所有账号初始化失败"@,
        pool::error_text(PoolErrorView::Client(t)) == "客户端错误: "@ + t,
        pool::error_text(PoolErrorView::Pow(t)) == "PoW 计算失败: "@ + t,
        pool::error_text(PoolErrorView::Validation(t)) == "账号配置错误: "@ + t,
        pool::error_text(PoolErrorView::AlreadyExists(t)) == "账号已存在: "@ + t,
        pool::error_text(PoolErrorView::NotFound(t)) == "账号不存在: "@ + t,
        pool::error_text(PoolErrorView::AccountBusy(t)) == "账号正在使用中: "@ + t,
{
}

/// One who waits looks for an account five times a second, and failed accounts are logged in
/// again once a minute.
pub proof fn law_intervals()
    ensures
        5 * pool::WAIT_INTERVAL_MS == 1000,
        pool::RECOVERY_INTERVAL_SECS == 60,
{
}

/// An account that was added is there under its name, ready, and cannot be added again. An
/// account that is there, or whose login fails, is not added.
pub proof fn law_adding(
    p: PoolView,
    creds: AccountConfig,
    login: Result<Seq<char>, PoolErrorView>,
    today: u32,
    again: Result<Seq<char>, PoolErrorView>,
    later: u32,
)
    ensures
        ({
            let id = accounts::known_as(creds.email@, creds.mobile@);
            match pool::addition(p, creds, login, today) {
                Ok((name, q)) => {
                    &&& name == id
                    &&& login is Ok
                    &&& !p.accounts.contains_key(id)
                    &&& q.accounts.contains_key(id)
                    &&& q.accounts[id].state == AccountState::Idle
                    &&& q.accounts[id].token == login->Ok_0
                    &&& q.accounts[id].creds == creds
                    &&& q.accounts[id].serial == p.next_serial
                    &&& q.accounts.remove(id) == p.accounts
                    &&& pool::addition(q, creds, again, later) == Err::<
                        (Seq<char>, PoolView),
                        PoolErrorView,
                    >(PoolErrorView::AlreadyExists(id))
                },
                Err(e) => {
                    &&& p.accounts.contains_key(id) ==> e == PoolErrorView::AlreadyExists(id)
                    &&& !p.accounts.contains_key(id) ==> login == Err::<Seq<char>, PoolErrorView>(e)
                },
            }
        }),
{
    let id = accounts::known_as(creds.email@, creds.mobile@);
    if let Ok((name, q)) = pool::addition(p, creds, login, today) {
        assert(q.accounts.remove(id) =~= p.accounts);
    }
}

/// An account is removed once and not while it serves a request. Once it is removed it can
/// be added again.
pub proof fn law_removing_once(p: PoolView, key: Seq<char>, creds: AccountConfig, today: u32)
    requires
        p.wf(),
        accounts::known_as(creds.email@, creds.mobile@) == key,
    ensures
        match pool::removal(p, key) {
            Ok((name, q)) => {
                &&& name == key
                &&& p.accounts.contains_key(key)
                &&& p.accounts[key].state != AccountState::Busy
                &&& q.accounts == p.accounts.remove(key)
                &&& pool::removal(q, key) == Err::<(Seq<char>, PoolView), PoolErrorView>(
                    PoolErrorView::NotFound(key),
                )
                &&& forall|t: Seq<char>| (#[trigger] pool::addition(q, creds, Ok(t), today)) is Ok
            },
            Err(PoolErrorView::AccountBusy(k)) => k == key && p.accounts.contains_key(key)
                && p.accounts[key].state == AccountState::Busy,
            Err(PoolErrorView::NotFound(k)) => k == key && !p.accounts.contains_key(key),
            Err(_) => false,
        },
{
}

/// An account that was just taken cannot be removed.
pub proof fn law_taken_account_is_not_removed(
    before: PoolView,
    now_ms: i64,
    today: u32,
    key: Seq<char>,
    after: PoolView,
)
    requires
        pool::is_selection(before, now_ms, today, Some(key), after),
    ensures
        pool::removal(after, key) == Err::<(Seq<char>, PoolView), PoolErrorView>(
            PoolErrorView::AccountBusy(key),
        ),
{
}

/// A new login changes the account that it is for and no other, and the pool not at all
/// where it has no such account.
pub proof fn law_login_is_for_one_account(p: PoolView, key: Seq<char>, token: Option<Seq<char>>)
    ensures
        !p.accounts.contains_key(key) ==> pool::with_login(p, key, token) == p,
        p.accounts.contains_key(key) ==> {
            let q = pool::with_login(p, key, token);
            &&& q.accounts.dom() == p.accounts.dom()
            &&& q == (PoolView { accounts: q.accounts, ..p })
            &&& forall|k: Seq<char>| k != key ==> #[trigger] q.accounts[k] == p.accounts[k]
            &&& token is Some ==> q.accounts[key].token == token->0 && q.accounts[key].state
                == AccountState::Idle && q.accounts[key].error_count == 0
            &&& token is None ==> q.accounts[key].token == p.accounts[key].token
                && (q.accounts[key].state == p.accounts[key].state || q.accounts[key].state
                == AccountState::Invalid)
            &&& q.accounts[key].serial == p.accounts[key].serial
            &&& q.accounts[key].creds == p.accounts[key].creds
        },
{
    if p.accounts.contains_key(key) {
        assert(pool::with_login(p, key, token).accounts.dom() =~= p.accounts.dom());
    }
}

/// An account that is to be recovered may log in again. A login that succeeds ends the
/// recovery. An account that failed too often is left alone, and so is one that serves.
pub proof fn law_recovery(p: PoolView, key: Seq<char>, token: Seq<char>)
    ensures
        pool::needs_recovery(p, key) ==> pool::re_login_error(p, key) is None,
        !pool::needs_recovery(pool::with_login(p, key, Some(token)), key),
        pool::needs_recovery(p, key) ==> p.client_ready && p.accounts.contains_key(key)
            && p.accounts[key].state != AccountState::Invalid && p.accounts[key].state
            != AccountState::Busy && p.accounts[key].state != AccountState::Idle,
        p.client_ready && p.accounts.contains_key(key) && p.accounts[key].state
            == AccountState::Busy ==> pool::needs_recovery(pool::marked(p, key), key),
{
}

/// One who waits gets the account that was taken. Without one the wait ends at the deadline,
/// and before it goes on after two tenths of a second.
pub proof fn law_waiting(taken: Option<AccountGuard>, deadline_passed: bool)
    ensures
        pool::key_in_step(pool::step_for(taken, deadline_passed)) == pool::chosen_key(taken),
        pool::step_for(taken, deadline_passed) is Taken == taken is Some,
        pool::step_for(taken, deadline_passed) is TimedOut == (taken is None && deadline_passed),
        taken is None && !deadline_passed ==> pool::step_for(taken, deadline_passed)
            == WaitStep::Sleep(200),
{
}

} // verus!
