//! Accounts, their pool and their logins.

use ds_free_api::accounts::{display_id_of, Account, AccountState};
use ds_free_api::clock::{day_index, now_millis, unix_millis, utc_day_index};
use ds_free_api::config::{AccountConfig, BehaviorConfig};
use ds_free_api::login::{
    health_verdict, login_payload, trial_payload, InitAction, InitEvent, InitFlow,
};
use ds_free_api::pool::{
    AccountGuard, AccountPool, ClientError, InitResult, PoolError, PowError, WaitStep,
    WAIT_INTERVAL_MS,
};

fn creds(email: &str, mobile: &str) -> AccountConfig {
    AccountConfig {
        email: email.to_string(),
        mobile: mobile.to_string(),
        area_code: String::new(),
        password: "p".to_string(),
    }
}

fn ok(token: &str) -> Result<String, PoolError> {
    Ok(token.to_string())
}

fn client_error() -> ClientError {
    ClientError { message: "down".to_string() }
}

fn pool_of(emails: &[&str]) -> AccountPool {
    let mut pool = AccountPool::new();
    for e in emails {
        assert_eq!(pool.add_account(&creds(e, ""), ok("t"), 10).unwrap(), *e);
    }
    pool
}

fn state_of(pool: &AccountPool, email: &str) -> String {
    let all = pool.account_statuses();
    all.iter().find(|s| s.email == email).unwrap().state.clone()
}

fn id(pool: &AccountPool, guard: &AccountGuard) -> String {
    guard.account(pool).display_id().to_string()
}

fn take(pool: &mut AccountPool, now_ms: i64) -> String {
    let g = pool.get_account_at(now_ms, 10).unwrap();
    id(pool, &g)
}

#[test]
fn states_have_numbers_and_names() {
    for (n, s, name) in [
        (0, AccountState::Idle, "idle"),
        (1, AccountState::Busy, "busy"),
        (2, AccountState::Error, "error"),
        (3, AccountState::Invalid, "invalid"),
    ] {
        assert_eq!(AccountState::from_u8(n), s);
        assert_eq!(s.to_u8(), n);
        assert_eq!(s.as_str(), name);
    }
    assert_eq!(AccountState::from_u8(200), AccountState::Invalid);
}

#[test]
fn accounts_are_known_by_address_or_number() {
    assert_eq!(display_id_of(&creds("e", "m")), "e");
    assert_eq!(display_id_of(&creds("", "m")), "m");
    let a = Account::new_idle("tok".to_string(), &creds("", "m"), 3, 0);
    assert_eq!(a.display_id(), "m");
    assert_eq!(&*a.token(), "tok");
    assert_eq!(a.state(), AccountState::Idle);
    assert!(a.is_available() && !a.is_busy());
    let bad = Account::new_invalid(&creds("e", "m"), 3, 0);
    assert_eq!(&*bad.token(), "");
    assert_eq!(bad.state(), AccountState::Invalid);
    assert_eq!(bad.status().error_count, 3);
}

#[test]
fn requests_are_counted_by_day() {
    let mut a = Account::new_idle("t".to_string(), &creds("e", ""), 3, 0);
    a.inc_daily_count_at(3);
    a.inc_daily_count_at(3);
    assert_eq!(a.daily_count_at(3), 2);
    let mut b = a.clone();
    assert_eq!(a.daily_count_at(4), 0);
    assert_eq!(a.daily_count_at(3), 0);
    b.inc_daily_count_at(4);
    assert_eq!(b.daily_count_at(4), 1);
    let mut c = Account::new_idle("t".to_string(), &creds("e", ""), utc_day_index(), 0);
    c.inc_daily_count();
    assert!(c.daily_count() <= 1);
}

#[test]
fn logins_and_failures() {
    let mut a = Account::new_idle("old".to_string(), &creds("e", ""), 3, 0);
    a.set_state(AccountState::Error);
    a.apply_login(None);
    a.apply_login(None);
    assert_eq!(a.state(), AccountState::Error);
    a.apply_login(None);
    assert_eq!(a.state(), AccountState::Invalid);
    a.apply_login(Some("new".to_string()));
    assert_eq!(a.state(), AccountState::Idle);
    assert_eq!(&*a.token(), "new");
    assert_eq!(a.status().error_count, 0);
}

#[test]
fn days_and_milliseconds() {
    assert_eq!(day_index(Some((86_399, 0))), 0);
    assert_eq!(day_index(Some((86_400, 5))), 1);
    assert_eq!(day_index(None), 0);
    assert_eq!(unix_millis(Some((12, 345_678_901))), 12_345);
    assert_eq!(unix_millis(None), 0);
    assert!(now_millis() > 1_600_000_000_000);
    assert!(utc_day_index() > 18_000);
}

#[test]
fn the_longest_idle_account_is_taken() {
    let mut pool = pool_of(&["a", "b", "c"]);
    let mut guards = vec![];
    for _ in 0..3 {
        guards.push(pool.get_account_at(1000, 10).unwrap());
    }
    assert!(pool.get_account_at(1000, 10).is_none());
    guards.sort_by_key(|g| id(&pool, g));
    let c = guards.pop().unwrap();
    let b = guards.pop().unwrap();
    let a = guards.pop().unwrap();
    pool.release_at(b, 2000);
    pool.release_at(a, 3000);
    pool.release_at(c, 2500);
    assert_eq!(take(&mut pool, 4000), "b");
    assert_eq!(take(&mut pool, 4000), "c");
    assert_eq!(take(&mut pool, 4000), "a");
}

#[test]
fn the_daily_limit_holds() {
    let mut pool = pool_of(&["a"]);
    pool.set_daily_request_limit(2);
    for t in 0..2 {
        let g = pool.get_account_at(t, 10).unwrap();
        pool.release_at(g, t);
    }
    assert!(pool.get_account_at(9, 10).is_none());
    let mut g = pool.get_account_at(9, 11).unwrap();
    pool.release_at(g, 9);
    pool.set_daily_request_limit(1);
    assert!(pool.get_account_at(9, 11).is_none());
    pool.set_daily_request_limit(0);
    g = pool.get_account_at(9, 11).unwrap();
    assert_eq!(state_of(&pool, "a"), "busy");
    pool.release_at(g, 9);
}

#[test]
fn an_empty_pool_gives_nothing() {
    let mut pool = AccountPool::new();
    assert!(pool.get_account().is_none());
    assert!(matches!(pool.get_account_with_wait(false), WaitStep::Sleep(WAIT_INTERVAL_MS)));
    assert!(matches!(pool.get_account_with_wait(true), WaitStep::TimedOut));
    assert!(pool.account_statuses().is_empty());
    pool.shutdown();
}

#[test]
fn waiting_ends_with_an_account() {
    let mut pool = pool_of(&["a"]);
    match pool.get_account_with_wait(false) {
        WaitStep::Taken(g) => {
            assert_eq!(id(&pool, &g), "a");
            assert!(pool.get_account().is_none());
            pool.release(g);
        }
        _ => panic!(),
    }
    let status = pool.account_statuses().pop().unwrap();
    assert_eq!(status.state, "idle");
    assert!(status.last_released_ms > 1_600_000_000_000);
}

#[test]
fn accounts_are_added_once() {
    let mut pool = pool_of(&["a"]);
    match pool.add_account(&creds("a", "1"), ok("other"), 10) {
        Err(PoolError::AlreadyExists(t)) => assert_eq!(t, "a"),
        _ => panic!(),
    }
    assert!(pool.check_new(&creds("a", "")).is_err());
    assert_eq!(pool.check_new(&creds("", "5")).unwrap(), "5");
    match pool.add_account(&creds("b", ""), Err(PoolError::Client(client_error())), 10) {
        Err(e) => assert_eq!(e.message(), "客户端错误: down"),
        _ => panic!(),
    }
    assert_eq!(pool.account_statuses().len(), 1);
}

#[test]
fn accounts_are_removed_unless_busy() {
    let mut pool = pool_of(&["a"]);
    assert_eq!(pool.remove_account("x").unwrap_err().message(), "账号不存在: x");
    let g = pool.get_account_at(1, 10).unwrap();
    assert_eq!(pool.remove_account("a").unwrap_err().message(), "账号正在使用中: a");
    pool.mark_error("a");
    assert_eq!(pool.remove_account("a").unwrap(), "a");
    assert!(pool.account_statuses().is_empty());
    pool.add_account(&creds("a", ""), ok("t"), 10).unwrap();
    let later = pool.get_account_at(2, 10).unwrap();
    pool.release_at(g, 3);
    assert_eq!(state_of(&pool, "a"), "busy");
    pool.release_at(later, 4);
    assert_eq!(state_of(&pool, "a"), "idle");
}

#[test]
fn failed_requests_need_a_login() {
    let mut pool = pool_of(&["a", "b"]);
    assert!(pool.mark_error("a"));
    assert_eq!(state_of(&pool, "a"), "idle");
    assert!(!pool.mark_error("nobody"));
    let g = pool.get_account_at(1, 10).unwrap();
    let taken = id(&pool, &g);
    pool.mark_error(&taken);
    pool.release_at(g, 2);
    assert_eq!(state_of(&pool, &taken), "error");
    assert_eq!(pool.re_login_single(&taken, None).unwrap_err(), "client/solver 未初始化");
    assert!(pool.accounts_to_recover().is_empty());
    pool.set_client_solver();
    assert_eq!(pool.accounts_to_recover(), [taken.clone()]);
    assert_eq!(pool.check_re_login(&taken).unwrap().email, taken);
    assert_eq!(pool.re_login_single("x", None).unwrap_err(), "账号 x 不存在");
    for state in ["error", "error", "invalid"] {
        assert_eq!(
            pool.re_login_single(&taken, None).unwrap_err(),
            format!("重登失败，当前状态: {state}")
        );
    }
    assert!(pool.accounts_to_recover().is_empty());
    pool.re_login_single(&taken, Some("new".to_string())).unwrap();
    assert_eq!(
        pool.re_login_single(&taken, None).unwrap_err(),
        "账号状态为 idle，仅 Error/Invalid 可重登"
    );
    assert_eq!(pool.re_login_account("x", None), None);
}

#[test]
fn failed_accounts_are_kept_as_invalid() {
    let mut pool = AccountPool::new();
    let results = vec![
        InitResult { creds: creds("a", ""), login: ok("t") },
        InitResult {
            creds: creds("", "5"),
            login: Err(PoolError::Pow(PowError { message: "w".to_string() })),
        },
        InitResult { creds: creds("a", "9"), login: ok("u") },
    ];
    pool.init(&results, 10).unwrap();
    let mut all = pool.account_statuses();
    all.sort_by(|x, y| x.mobile.cmp(&y.mobile));
    assert_eq!(all.len(), 2);
    assert_eq!((all[0].mobile.as_str(), all[0].state.as_str()), ("5", "invalid"));
    assert_eq!(all[0].error_count, 3);
    assert_eq!((all[1].mobile.as_str(), all[1].state.as_str()), ("9", "idle"));
    let g = pool.get_account_at(1, 10).unwrap();
    assert_eq!(&*g.account(&pool).token(), "u");
}

#[test]
fn errors_in_words() {
    let s = || "x".to_string();
    assert_eq!(PoolError::AllAccountsFailed.message(), "所有账号初始化失败");
    assert_eq!(PoolError::Pow(PowError { message: s() }).message(), "PoW 计算失败: x");
    assert_eq!(PoolError::Validation(s()).message(), "账号配置错误: x");
    assert_eq!(PoolError::AlreadyExists(s()).message(), "账号已存在: x");
}

#[test]
fn logins_need_an_address_or_a_number() {
    assert_eq!(
        login_payload(&creds("", "")).unwrap_err().message(),
        "账号配置错误: email 和 mobile 不能同时为空"
    );
    let p = login_payload(&creds("", "5")).unwrap();
    assert_eq!((p.email, p.mobile.as_deref(), p.area_code), (None, Some("5"), None));
    assert_eq!((p.password.as_str(), p.device_id.as_str(), p.os.as_str()), ("p", "", "web"));
}

#[test]
fn answers_tell_of_health() {
    assert!(health_verdict(b"data: {\"v\":\"FINISHED\"}").is_none());
    assert!(health_verdict(b"\xff\"INCOMPLETE\"\xfe").is_none());
    assert_eq!(
        health_verdict(b"\"FINISHED\" \"biz_code\":5").unwrap().message(),
        "账号配置错误: 账号异常(muted/limited)"
    );
    assert_eq!(health_verdict(b"FINISHED").unwrap().message(), "账号配置错误: SSE 流未正常结束");
}

fn text(s: &str) -> String {
    s.to_string()
}

#[test]
fn a_login_alone() {
    let (mut flow, _) = InitFlow::start(&creds("a", ""), false).unwrap();
    match flow.advance(InitEvent::LoggedIn(Ok(text("tok")))) {
        InitAction::Finish(Ok(t)) => assert_eq!(t, "tok"),
        _ => panic!(),
    }
    let (mut flow, _) = InitFlow::start(&creds("a", ""), false).unwrap();
    match flow.advance(InitEvent::LoggedIn(Err(client_error()))) {
        InitAction::Finish(Err(e)) => assert_eq!(e.message(), "客户端错误: down"),
        _ => panic!(),
    }
    assert!(InitFlow::start(&creds("", ""), true).is_err());
}

#[test]
fn a_login_with_a_trial() {
    let (mut flow, _) = InitFlow::start(&creds("a", ""), true).unwrap();
    match flow.advance(InitEvent::LoggedIn(Ok(text("tok")))) {
        InitAction::CreateSession { token } => assert_eq!(token, "tok"),
        _ => panic!(),
    }
    assert!(matches!(flow.advance(InitEvent::SessionDeleted), InitAction::Ignore));
    match flow.advance(InitEvent::SessionCreated(Ok(text("ses")))) {
        InitAction::CreateChallenge { token, target_path } => {
            assert_eq!((token.as_str(), target_path.as_str()), ("tok", "/api/v0/chat/completion"))
        }
        _ => panic!(),
    }
    assert!(matches!(flow.advance(InitEvent::ChallengeCreated(Ok(()))), InitAction::Solve));
    match flow.advance(InitEvent::Solved(Ok(text("head")))) {
        InitAction::Complete { token, pow_header, payload } => {
            assert_eq!((token.as_str(), pow_header.as_str()), ("tok", "head"));
            assert_eq!(payload.chat_session_id, "ses");
            assert_eq!(payload.prompt, trial_payload("ses").prompt);
            assert_eq!(payload.prompt, "只回复`Hello, world!`");
        }
        _ => panic!(),
    }
    match flow.advance(InitEvent::Answered(Ok(b"\"FINISHED\"".to_vec()))) {
        InitAction::DeleteSession { token, session } => {
            assert_eq!((token.as_str(), session.as_str()), ("tok", "ses"))
        }
        _ => panic!(),
    }
    match flow.advance(InitEvent::SessionDeleted) {
        InitAction::Finish(Ok(t)) => assert_eq!(t, "tok"),
        _ => panic!(),
    }
    assert!(matches!(flow.advance(InitEvent::SessionDeleted), InitAction::Ignore));
}

#[test]
fn sessions_are_closed_whatever_fails() {
    for failing in 0..4 {
        let (mut flow, _) = InitFlow::start(&creds("a", ""), true).unwrap();
        flow.advance(InitEvent::LoggedIn(Ok(text("tok"))));
        flow.advance(InitEvent::SessionCreated(Ok(text("ses"))));
        let mut action = if failing == 0 {
            flow.advance(InitEvent::ChallengeCreated(Err(client_error())))
        } else {
            flow.advance(InitEvent::ChallengeCreated(Ok(())))
        };
        if failing == 1 {
            action = flow.advance(InitEvent::Solved(Err(PowError { message: text("w") })));
        } else if failing > 1 {
            flow.advance(InitEvent::Solved(Ok(text("h"))));
            action = if failing == 2 {
                flow.advance(InitEvent::Answered(Err(client_error())))
            } else {
                flow.advance(InitEvent::Answered(Ok(vec![])))
            };
        }
        assert!(matches!(action, InitAction::DeleteSession { .. }));
        let want = [
            "客户端错误: down",
            "PoW 计算失败: w",
            "客户端错误: down",
            "账号配置错误: SSE 流未正常结束",
        ][failing];
        match flow.advance(InitEvent::SessionDeleted) {
            InitAction::Finish(Err(e)) => assert_eq!(e.message(), want),
            _ => panic!(),
        }
    }
    let (mut flow, _) = InitFlow::start(&creds("a", ""), true).unwrap();
    flow.advance(InitEvent::LoggedIn(Ok(text("tok"))));
    let action = flow.advance(InitEvent::SessionCreated(Err(client_error())));
    assert!(matches!(action, InitAction::Finish(Err(PoolError::Client(_)))));
}

#[test]
fn behaviour_by_default() {
    let b = BehaviorConfig::default();
    assert_eq!(b.request_jitter_ms, (2000, 8000));
    assert_eq!(b.daily_request_limit, 20);
    assert_eq!(b.pow_delay_ms, (200, 800));
    assert!(b.persist_sessions && b.skip_startup_health_check);
    assert_eq!(b.clone().daily_request_limit, 20);
}

#[test]
fn a_guard_shows_the_account_as_it_is() {
    let mut pool = pool_of(&["a"]);
    let g = pool.get_account_at(1, 10).unwrap();
    assert!(g.account(&pool).is_busy());
    pool.mark_error("a");
    assert!(!g.account(&pool).is_busy());
    assert_eq!(g.account(&pool).state(), AccountState::Error);
    pool.set_client_solver();
    pool.re_login_account("a", Some("new".to_string()));
    assert_eq!(&*g.account(&pool).token(), "new");
    let second = pool.get_account_at(2, 10).unwrap();
    assert!(g.account(&pool).is_busy() && second.account(&pool).is_busy());
    pool.release_at(second, 3);
    assert_eq!(g.account(&pool).state(), AccountState::Idle);
    assert_eq!(g.account(&pool).last_released(), 3);
}

#[test]
fn a_guard_shows_an_account_that_left_the_pool() {
    let mut pool = pool_of(&["a"]);
    let g = pool.get_account_at(1, 10).unwrap();
    pool.mark_error("a");
    pool.set_client_solver();
    pool.re_login_account("a", Some("new".to_string()));
    let second = pool.get_account_at(2, 10).unwrap();
    pool.mark_error("a");
    assert_eq!(pool.remove_account("a").unwrap(), "a");
    assert_eq!(g.account(&pool).state(), AccountState::Error);
    assert_eq!(&*g.account(&pool).token(), "new");
    pool.add_account(&creds("a", ""), ok("other"), 10).unwrap();
    assert_eq!(&*g.account(&pool).token(), "new");
    pool.release_at(second, 5);
    assert_eq!(g.account(&pool).last_released(), 5);
    assert_eq!(state_of(&pool, "a"), "idle");
    pool.release_at(g, 6);
    assert_eq!(pool.account_statuses()[0].last_released_ms, 0);
}

#[test]
fn a_guard_shows_an_account_that_was_replaced() {
    let mut pool = pool_of(&["a"]);
    let g = pool.get_account_at(1, 10).unwrap();
    let results = vec![InitResult { creds: creds("a", ""), login: ok("other") }];
    pool.init(&results, 10).unwrap();
    assert!(g.account(&pool).is_busy());
    assert_eq!(&*g.account(&pool).token(), "t");
    pool.release_at(g, 5);
    assert_eq!(state_of(&pool, "a"), "idle");
    assert_eq!(pool.account_statuses()[0].last_released_ms, 0);
}
