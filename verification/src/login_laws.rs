//! What holds of logins and of the calls that initialise an account.

use vstd::prelude::*;
use vstd::utf8::*;

use crate::config::AccountConfig;
use crate::login;
use crate::login::{CompletionPayload, InitAction, InitEvent, StageView};
use crate::pool::PoolErrorView;
use crate::text;

verus! {

/// A login sends the credentials as they are: the address, the number and the area code
/// where they are given, and the password. A login needs an address or a number.
pub proof fn law_login_sends_the_credentials(creds: AccountConfig)
    ensures
        match login::login_of(creds) {
            Ok(p) => {
                &&& creds.email@.len() > 0 || creds.mobile@.len() > 0
                &&& p.email is Some == (creds.email@.len() > 0)
                &&& p.email is Some ==> p.email->0 == creds.email@
                &&& p.mobile is Some == (creds.mobile@.len() > 0)
                &&& p.mobile is Some ==> p.mobile->0 == creds.mobile@
                &&& p.area_code is Some == (creds.area_code@.len() > 0)
                &&& p.area_code is Some ==> p.area_code->0 == creds.area_code@
                &&& p.password == creds.password@
                &&& p.device_id.len() == 0
                &&& p.os == "web"@
            },
            Err(e) => {
                &&& creds.email@.len() == 0 && creds.mobile@.len() == 0
                &&& e == PoolErrorView::Validation("email 和 mobile 不能同时为空"@)
            },
        },
{
}

/// Different credentials are told apart by what a login sends.
pub proof fn law_login_tells_credentials_apart(a: AccountConfig, b: AccountConfig)
    requires
        login::login_of(a) is Ok,
        login::login_of(a) == login::login_of(b),
    ensures
        a.email@ == b.email@,
        a.mobile@ == b.mobile@,
        a.area_code@ == b.area_code@,
        a.password@ == b.password@,
{
    assert(a.email@ =~= b.email@);
    assert(a.mobile@ =~= b.mobile@);
    assert(a.area_code@ =~= b.area_code@);
}

/// A trial request is a short question in its own session, with nothing switched on.
pub proof fn law_trial_is_small(p: CompletionPayload, session: Seq<char>)
    requires
        login::is_trial(p, session),
    ensures
        p.chat_session_id@ == session,
        p.parent_message_id is None,
        p.model_type@ == "default"@,
        p.prompt@ == "只回复`Hello, world!`"@,
        p.ref_file_ids@.len() == 0,
        !p.thinking_enabled,
        !p.search_enabled,
        !p.preempt,
{
}

/// Whether an answer holds a text.
pub open spec fn answers(data: Seq<u8>, s: Seq<char>) -> bool {
    exists|i: int|
        0 <= i && i + encode_utf8(s).len() <= data.len() && #[trigger] data.subrange(
            i,
            i + encode_utf8(s).len(),
        ) == encode_utf8(s)
}

/// A part that stands in an answer is seen.
proof fn lemma_answers(data: Seq<u8>, s: Seq<char>)
    ensures
        text::contains_bytes(data, encode_utf8(s)) == answers(data, s),
{
    let p = encode_utf8(s);
    if answers(data, s) {
        let i = choose|i: int|
            0 <= i && i + p.len() <= data.len() && #[trigger] data.subrange(i, i + p.len()) == p;
        assert(text::occurs_at(data, p, i));
    }
    if text::contains_bytes(data, p) {
        let i = choose|i: int| text::occurs_at(data, p, i);
        assert(data.subrange(i, i + p.len()) == p);
    }
}

/// An account is healthy exactly if the answer to its trial request came to an end, whole or
/// cut off by its length, and holds no error of the service. An error of the service is told
/// first.
pub proof fn law_health_is_told(data: Seq<u8>)
    ensures
        login::health_error(data) is None == (!answers(data, "\"biz_code\":"@) && (answers(
            data,
            "\"FINISHED\""@,
        ) || answers(data, "\"INCOMPLETE\""@))),
        answers(data, "\"biz_code\":"@) ==> login::health_error(data) == Some(
            PoolErrorView::Validation("账号异常(muted/limited)"@),
        ),
        !answers(data, "\"biz_code\":"@) && login::health_error(data) is Some
            ==> login::health_error(data) == Some(
            PoolErrorView::Validation("SSE 流未正常结束"@),
        ),
{
    lemma_answers(data, "\"biz_code\":"@);
    lemma_answers(data, "\"FINISHED\""@);
    lemma_answers(data, "\"INCOMPLETE\""@);
}

/// Whether a mark of the service makes an answer one of a barred account, whatever stands
/// around it.
pub proof fn law_barred_accounts_are_told(before: Seq<u8>, after: Seq<u8>)
    ensures
        login::health_error(before + encode_utf8("\"biz_code\":"@) + after) is Some,
{
    let p = encode_utf8("\"biz_code\":"@);
    let data = before + p + after;
    let i = before.len() as int;
    assert(data.subrange(i, i + p.len()) =~= p);
    law_health_is_told(data);
}

/// Whether the action is the end, with a token.
pub open spec fn ends_with_token(action: InitAction, token: Seq<char>) -> bool {
    match action {
        InitAction::Finish(Ok(t)) => t@ == token,
        _ => false,
    }
}

/// Whether the action is the end, with an error.
pub open spec fn ends_with_error(action: InitAction, error: PoolErrorView) -> bool {
    match action {
        InitAction::Finish(Err(e)) => e@ == error,
        _ => false,
    }
}

/// Whether the action closes a session.
pub open spec fn closes(action: InitAction, token: Seq<char>, session: Seq<char>) -> bool {
    match action {
        InitAction::DeleteSession { token: t, session: s } => t@ == token && s@ == session,
        _ => false,
    }
}

/// Without a trial request, an account is accepted with the token of its login.
pub proof fn law_login_alone_is_enough(token: String, next: StageView, action: InitAction)
    requires
        login::is_step(StageView::Login, false, InitEvent::LoggedIn(Ok(token)), next, action),
    ensures
        ends_with_token(action, token@),
        next is Closed,
{
}

/// With a trial request, the calls follow one another: a session is opened, a challenge is
/// asked for and solved, the trial request is made in the session with the proof, and the
/// session is closed. Every call has the token of the login. The account is accepted with
/// that token if it is healthy, and else refused with what was found.
pub proof fn law_trial_takes_its_course(
    token: String,
    session: String,
    header: String,
    data: Vec<u8>,
    stages: Seq<StageView>,
    actions: Seq<InitAction>,
)
    requires
        stages.len() == 7,
        actions.len() == 6,
        stages[0] == StageView::Login,
        login::is_step(stages[0], true, InitEvent::LoggedIn(Ok(token)), stages[1], actions[0]),
        login::is_step(
            stages[1],
            true,
            InitEvent::SessionCreated(Ok(session)),
            stages[2],
            actions[1],
        ),
        login::is_step(stages[2], true, InitEvent::ChallengeCreated(Ok(())), stages[3], actions[2]),
        login::is_step(stages[3], true, InitEvent::Solved(Ok(header)), stages[4], actions[3]),
        login::is_step(stages[4], true, InitEvent::Answered(Ok(data)), stages[5], actions[4]),
        login::is_step(stages[5], true, InitEvent::SessionDeleted, stages[6], actions[5]),
    ensures
        match actions[0] {
            InitAction::CreateSession { token: t } => t@ == token@,
            _ => false,
        },
        match actions[1] {
            InitAction::CreateChallenge { token: t, target_path: p } => t@ == token@ && p@
                == "/api/v0/chat/completion"@,
            _ => false,
        },
        actions[2] is Solve,
        match actions[3] {
            InitAction::Complete { token: t, pow_header: h, payload: p } => t@ == token@ && h@
                == header@ && p.chat_session_id@ == session@,
            _ => false,
        },
        closes(actions[4], token@, session@),
        match login::health_error(data@) {
            None => ends_with_token(actions[5], token@),
            Some(e) => ends_with_error(actions[5], e),
        },
        stages[6] is Closed,
{
}

/// A login or a session that fails ends the flow with that error.
pub proof fn law_early_failure_is_told(
    stage: StageView,
    health_check: bool,
    event: InitEvent,
    next: StageView,
    action: InitAction,
)
    requires
        login::is_step(stage, health_check, event, next, action),
    ensures
        match (stage, event) {
            (StageView::Login, InitEvent::LoggedIn(Err(e))) => ends_with_error(
                action,
                PoolErrorView::Client(e.message@),
            ) && next is Closed,
            (StageView::Session { token: _ }, InitEvent::SessionCreated(Err(e))) => ends_with_error(
                action,
                PoolErrorView::Client(e.message@),
            ) && next is Closed,
            _ => true,
        },
{
}

/// A failure behind the opening of a session closes the session first, and then ends the
/// flow with that error.
pub proof fn law_late_failure_is_told(
    stage: StageView,
    health_check: bool,
    event: InitEvent,
    next: StageView,
    action: InitAction,
    last: StageView,
    end: InitAction,
    token: Seq<char>,
    session: Seq<char>,
    error: PoolErrorView,
)
    requires
        login::is_step(stage, health_check, event, next, action),
        login::is_step(next, health_check, InitEvent::SessionDeleted, last, end),
        match (stage, event) {
            (
                StageView::Challenge { token: t, session: s },
                InitEvent::ChallengeCreated(Err(e)),
            ) => t == token && s == session && error == PoolErrorView::Client(e.message@),
            (StageView::Solve { token: t, session: s }, InitEvent::Solved(Err(e))) => t == token
                && s == session && error == PoolErrorView::Pow(e.message@),
            (StageView::Completion { token: t, session: s }, InitEvent::Answered(Err(e))) => t
                == token && s == session && error == PoolErrorView::Client(e.message@),
            _ => false,
        },
    ensures
        closes(action, token, session),
        ends_with_error(end, error),
        last is Closed,
{
}

/// Whether a stage awaits a result.
pub open spec fn awaits(stage: StageView, event: InitEvent) -> bool {
    match (stage, event) {
        (StageView::Login, InitEvent::LoggedIn(_)) => true,
        (StageView::Session { token: _ }, InitEvent::SessionCreated(_)) => true,
        (StageView::Challenge { token: _, session: _ }, InitEvent::ChallengeCreated(_)) => true,
        (StageView::Solve { token: _, session: _ }, InitEvent::Solved(_)) => true,
        (StageView::Completion { token: _, session: _ }, InitEvent::Answered(_)) => true,
        (StageView::Cleanup { token: _, session: _, error: _ }, InitEvent::SessionDeleted) => true,
        _ => false,
    }
}

/// A result that is not awaited changes nothing, and one that is awaited is never ignored.
pub proof fn law_only_awaited_results_count(
    stage: StageView,
    health_check: bool,
    event: InitEvent,
    next: StageView,
    action: InitAction,
)
    requires
        login::is_step(stage, health_check, event, next, action),
    ensures
        awaits(stage, event) == !(action is Ignore),
        action is Ignore ==> next == stage,
{
}

} // verus!
