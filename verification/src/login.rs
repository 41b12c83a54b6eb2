//! Logging an account in, with or without a trial request.
//!
//! The calls to the service are made elsewhere. [`InitFlow`] says which call comes next,
//! given the result of the last one.

use vstd::prelude::*;
use vstd::utf8::*;

use crate::config::AccountConfig;
use crate::pool::{ClientError, PoolError, PoolErrorView, PowError};
use crate::text;
use crate::text::has_bytes;
use crate::types;

verus! {

// ---------------------------------------------------------------------------
// What is sent
// ---------------------------------------------------------------------------

/// The data of a login.
#[derive(Debug)]
pub struct LoginPayload {
    pub email: Option<String>,
    pub mobile: Option<String>,
    pub password: String,
    pub area_code: Option<String>,
    pub device_id: String,
    pub os: String,
}

/// The data of a login.
pub struct LoginView {
    pub email: Option<Seq<char>>,
    pub mobile: Option<Seq<char>>,
    pub password: Seq<char>,
    pub area_code: Option<Seq<char>>,
    pub device_id: Seq<char>,
    pub os: Seq<char>,
}

impl View for LoginPayload {
    type V = LoginView;

    open spec fn view(&self) -> LoginView {
        LoginView {
            email: types::opt_text(self.email),
            mobile: types::opt_text(self.mobile),
            password: self.password@,
            area_code: types::opt_text(self.area_code),
            device_id: self.device_id@,
            os: self.os@,
        }
    }
}

/// A text, unless it is empty.
pub open spec fn if_any(s: Seq<char>) -> Option<Seq<char>> {
    if s.len() == 0 {
        None
    } else {
        Some(s)
    }
}

/// The data of the login with some credentials, which must give an e-mail address or a
/// telephone number.
pub open spec fn login_of(creds: AccountConfig) -> Result<LoginView, PoolErrorView> {
    if creds.email@.len() == 0 && creds.mobile@.len() == 0 {
        Err(PoolErrorView::Validation("email 和 mobile 不能同时为空"@))
    } else {
        Ok(
            LoginView {
                email: if_any(creds.email@),
                mobile: if_any(creds.mobile@),
                password: creds.password@,
                area_code: if_any(creds.area_code@),
                device_id: Seq::empty(),
                os: "web"@,
            },
        )
    }
}

/// A text, unless it is empty.
fn unless_empty(s: &String) -> (r: Option<String>)
    ensures
        types::opt_text(r) == if_any(s@),
{
    if s.as_str().is_empty() {
        None
    } else {
        Some(s.clone())
    }
}

/// The data of the login with some credentials.
pub fn login_payload(creds: &AccountConfig) -> (r: Result<LoginPayload, PoolError>)
    ensures
        match r {
            Ok(p) => login_of(*creds) == Ok::<LoginView, PoolErrorView>(p@),
            Err(e) => login_of(*creds) == Err::<LoginView, PoolErrorView>(e@),
        },
{
    if creds.email.as_str().is_empty() && creds.mobile.as_str().is_empty() {
        return Err(PoolError::Validation("email 和 mobile 不能同时为空".to_owned()));
    }
    let device_id = String::new();
    assert(device_id@ =~= Seq::<char>::empty());
    Ok(
        LoginPayload {
            email: unless_empty(&creds.email),
            mobile: unless_empty(&creds.mobile),
            password: creds.password.clone(),
            area_code: unless_empty(&creds.area_code),
            device_id,
            os: "web".to_owned(),
        },
    )
}

/// The data of a trial request.
#[derive(Debug)]
pub struct CompletionPayload {
    pub chat_session_id: String,
    pub parent_message_id: Option<i64>,
    pub model_type: String,
    pub prompt: String,
    pub ref_file_ids: Vec<String>,
    pub thinking_enabled: bool,
    pub search_enabled: bool,
    pub preempt: bool,
}

/// Whether data are those of the trial request in a session.
pub open spec fn is_trial(p: CompletionPayload, session: Seq<char>) -> bool {
    &&& p.chat_session_id@ == session
    &&& p.parent_message_id is None
    &&& p.model_type@ == "default"@
    &&& p.prompt@ == "只回复`Hello, world!`"@
    &&& p.ref_file_ids@.len() == 0
    &&& !p.thinking_enabled
    &&& !p.search_enabled
    &&& !p.preempt
}

/// The data of the trial request in a session.
pub fn trial_payload(session_id: &str) -> (r: CompletionPayload)
    ensures
        is_trial(r, session_id@),
{
    CompletionPayload {
        chat_session_id: session_id.to_owned(),
        parent_message_id: None,
        model_type: "default".to_owned(),
        prompt: "只回复`Hello, world!`".to_owned(),
        ref_file_ids: Vec::new(),
        thinking_enabled: false,
        search_enabled: false,
        preempt: false,
    }
}

// ---------------------------------------------------------------------------
// What the answer says
// ---------------------------------------------------------------------------

/// What the answer to a trial request says against an account. The account may be barred,
/// or the answer may have broken off.
pub open spec fn health_error(data: Seq<u8>) -> Option<PoolErrorView> {
    if text::contains_bytes(data, encode_utf8("\"biz_code\":"@)) {
        Some(PoolErrorView::Validation("账号异常(muted/limited)"@))
    } else if !text::contains_bytes(data, encode_utf8("\"FINISHED\""@)) && !text::contains_bytes(
        data,
        encode_utf8("\"INCOMPLETE\""@),
    ) {
        Some(PoolErrorView::Validation("SSE 流未正常结束"@))
    } else {
        None
    }
}

/// What the answer to a trial request says against an account. The marks that are looked
/// for are ASCII, so bytes that are no text do not matter.
pub fn health_verdict(data: &[u8]) -> (r: Option<PoolError>)
    ensures
        match r {
            Some(e) => health_error(data@) == Some(e@),
            None => health_error(data@) is None,
        },
{
    if has_bytes(data, "\"biz_code\":".as_bytes()) {
        return Some(PoolError::Validation("账号异常(muted/limited)".to_owned()));
    }
    if !has_bytes(data, "\"FINISHED\"".as_bytes()) && !has_bytes(
        data,
        "\"INCOMPLETE\"".as_bytes(),
    ) {
        return Some(PoolError::Validation("SSE 流未正常结束".to_owned()));
    }
    None
}

// ---------------------------------------------------------------------------
// The order of the calls
// ---------------------------------------------------------------------------

/// The path for which a proof of work is asked.
pub open spec fn trial_path() -> Seq<char> {
    "/api/v0/chat/completion"@
}

/// Which result is awaited.
#[derive(Debug)]
pub enum InitStage {
    /// That of the login.
    Login,
    /// That of opening a session.
    Session { token: String },
    /// That of asking for a challenge.
    Challenge { token: String, session: String },
    /// That of solving the challenge.
    Solve { token: String, session: String },
    /// That of the trial request.
    Completion { token: String, session: String },
    /// That of closing the session; what was found against the account is kept.
    Cleanup { token: String, session: String, error: Option<PoolError> },
    /// None: the account is initialised, or is not.
    Closed,
}

/// Which result is awaited.
pub enum StageView {
    Login,
    Session { token: Seq<char> },
    Challenge { token: Seq<char>, session: Seq<char> },
    Solve { token: Seq<char>, session: Seq<char> },
    Completion { token: Seq<char>, session: Seq<char> },
    Cleanup { token: Seq<char>, session: Seq<char>, error: Option<PoolErrorView> },
    Closed,
}

impl View for InitStage {
    type V = StageView;

    open spec fn view(&self) -> StageView {
        match self {
            InitStage::Login => StageView::Login,
            InitStage::Session { token } => StageView::Session { token: token@ },
            InitStage::Challenge { token, session } => StageView::Challenge {
                token: token@,
                session: session@,
            },
            InitStage::Solve { token, session } => StageView::Solve {
                token: token@,
                session: session@,
            },
            InitStage::Completion { token, session } => StageView::Completion {
                token: token@,
                session: session@,
            },
            InitStage::Cleanup { token, session, error } => StageView::Cleanup {
                token: token@,
                session: session@,
                error: match error {
                    Some(e) => Some(e@),
                    None => None,
                },
            },
            InitStage::Closed => StageView::Closed,
        }
    }
}

/// The result of a call.
pub enum InitEvent {
    /// The token of a login.
    LoggedIn(Result<String, ClientError>),
    /// The identifier of a session.
    SessionCreated(Result<String, ClientError>),
    /// A challenge, which is kept by the caller.
    ChallengeCreated(Result<(), ClientError>),
    /// The header that proves the work.
    Solved(Result<String, PowError>),
    /// The whole answer to the trial request.
    Answered(Result<Vec<u8>, ClientError>),
    /// The session was closed, or could not be.
    SessionDeleted,
}

/// The call to be made next.
pub enum InitAction {
    /// Open a session.
    CreateSession { token: String },
    /// Ask for a challenge.
    CreateChallenge { token: String, target_path: String },
    /// Solve the challenge.
    Solve,
    /// Make the trial request.
    Complete { token: String, pow_header: String, payload: CompletionPayload },
    /// Close the session.
    DeleteSession { token: String, session: String },
    /// None: the token of the account, or what stands against it.
    Finish(Result<String, PoolError>),
    /// None: the result was not awaited.
    Ignore,
}

/// What a result leads to: the next stage, and the action.
pub open spec fn is_step(
    stage: StageView,
    health_check: bool,
    event: InitEvent,
    next: StageView,
    action: InitAction,
) -> bool {
    match (stage, event) {
        (StageView::Login, InitEvent::LoggedIn(Ok(token))) => if health_check {
            &&& next == (StageView::Session { token: token@ })
            &&& action is CreateSession
            &&& action->CreateSession_token@ == token@
        } else {
            &&& next is Closed
            &&& finishes_with(action, Ok(token@))
        },
        (StageView::Login, InitEvent::LoggedIn(Err(e))) => {
            &&& next is Closed
            &&& finishes_with(action, Err(PoolErrorView::Client(e.message@)))
        },
        (StageView::Session { token }, InitEvent::SessionCreated(Ok(session))) => {
            &&& next == (StageView::Challenge { token, session: session@ })
            &&& action is CreateChallenge
            &&& action->CreateChallenge_token@ == token
            &&& action->target_path@ == trial_path()
        },
        (StageView::Session { token: _ }, InitEvent::SessionCreated(Err(e))) => {
            &&& next is Closed
            &&& finishes_with(action, Err(PoolErrorView::Client(e.message@)))
        },
        (StageView::Challenge { token, session }, InitEvent::ChallengeCreated(Ok(_))) => {
            &&& next == (StageView::Solve { token, session })
            &&& action is Solve
        },
        (StageView::Challenge { token, session }, InitEvent::ChallengeCreated(Err(e))) => cleans_up(
            token,
            session,
            Some(PoolErrorView::Client(e.message@)),
            next,
            action,
        ),
        (StageView::Solve { token, session }, InitEvent::Solved(Ok(header))) => {
            &&& next == (StageView::Completion { token, session })
            &&& action is Complete
            &&& action->Complete_token@ == token
            &&& action->pow_header@ == header@
            &&& is_trial(action->payload, session)
        },
        (StageView::Solve { token, session }, InitEvent::Solved(Err(e))) => cleans_up(
            token,
            session,
            Some(PoolErrorView::Pow(e.message@)),
            next,
            action,
        ),
        (StageView::Completion { token, session }, InitEvent::Answered(Ok(data))) => cleans_up(
            token,
            session,
            health_error(data@),
            next,
            action,
        ),
        (StageView::Completion { token, session }, InitEvent::Answered(Err(e))) => cleans_up(
            token,
            session,
            Some(PoolErrorView::Client(e.message@)),
            next,
            action,
        ),
        (StageView::Cleanup { token, session: _, error }, InitEvent::SessionDeleted) => {
            &&& next is Closed
            &&& finishes_with(
                action,
                match error {
                    Some(e) => Err(e),
                    None => Ok(token),
                },
            )
        },
        _ => {
            &&& next == stage
            &&& action is Ignore
        },
    }
}

/// Whether an action ends the flow with a result.
pub open spec fn finishes_with(
    action: InitAction,
    result: Result<Seq<char>, PoolErrorView>,
) -> bool {
    match action {
        InitAction::Finish(Ok(token)) => result == Ok::<Seq<char>, PoolErrorView>(token@),
        InitAction::Finish(Err(e)) => result == Err::<Seq<char>, PoolErrorView>(e@),
        _ => false,
    }
}

/// Whether a session is now closed, with what was found against the account.
pub open spec fn cleans_up(
    token: Seq<char>,
    session: Seq<char>,
    error: Option<PoolErrorView>,
    next: StageView,
    action: InitAction,
) -> bool {
    &&& next == (StageView::Cleanup { token, session, error })
    &&& action is DeleteSession
    &&& action->DeleteSession_token@ == token
    &&& action->DeleteSession_session@ == session
}

/// The token and the identifier of the session that is open at a stage.
pub open spec fn open_session(stage: StageView) -> Option<(Seq<char>, Seq<char>)> {
    match stage {
        StageView::Challenge { token, session } => Some((token, session)),
        StageView::Solve { token, session } => Some((token, session)),
        StageView::Completion { token, session } => Some((token, session)),
        StageView::Cleanup { token, session, error: _ } => Some((token, session)),
        _ => None,
    }
}

/// A session that was opened is closed, whatever goes wrong: until the call that closes it
/// has come back the flow does not end, and a step to the stage that awaits this call asks
/// for it.
pub proof fn law_session_is_closed(
    stage: StageView,
    health_check: bool,
    event: InitEvent,
    next: StageView,
    action: InitAction,
)
    requires
        is_step(stage, health_check, event, next, action),
        open_session(stage) is Some,
    ensures
        !(stage is Cleanup && event is SessionDeleted) ==> open_session(next) == open_session(stage)
            && !(action is Finish),
        next is Cleanup && !(stage is Cleanup) ==> action is DeleteSession && Some(
            (action->DeleteSession_token@, action->DeleteSession_session@),
        ) == open_session(stage),
{
}

/// With a trial request, an account is accepted only once its session was closed with
/// nothing found against it, and nothing is found only where the answer came to its end
/// without an error of the service.
pub proof fn law_only_healthy_accounts_pass(
    stage: StageView,
    event: InitEvent,
    next: StageView,
    action: InitAction,
    token: Seq<char>,
)
    requires
        is_step(stage, true, event, next, action),
    ensures
        finishes_with(action, Ok(token)) ==> stage is Cleanup && stage->Cleanup_error is None
            && stage->Cleanup_token == token,
        next is Cleanup && next->Cleanup_error is None && !(stage is Cleanup) ==> event is Answered
            && event->Answered_0 is Ok && health_error(event->Answered_0->Ok_0@) is None,
{
}

/// The initialisation of an account.
#[derive(Debug)]
pub struct InitFlow {
    pub stage: InitStage,
    pub health_check: bool,
}

impl InitFlow {
    /// The flow with some credentials, and the data of the login with which it starts.
    pub fn start(creds: &AccountConfig, health_check: bool) -> (r: Result<
        (InitFlow, LoginPayload),
        PoolError,
    >)
        ensures
            match r {
                Ok(p) => login_of(*creds) == Ok::<LoginView, PoolErrorView>(p.1@) && p.0.stage@
                    == StageView::Login && p.0.health_check == health_check,
                Err(e) => login_of(*creds) == Err::<LoginView, PoolErrorView>(e@),
            },
    {
        match login_payload(creds) {
            Ok(p) => Ok((InitFlow { stage: InitStage::Login, health_check }, p)),
            Err(e) => Err(e),
        }
    }

    /// Goes to the stage in which a session is closed.
    fn clean_up(&mut self, token: String, session: String, error: Option<PoolError>) -> (r:
        InitAction)
        ensures
            cleans_up(
                token@,
                session@,
                match error {
                    Some(e) => Some(e@),
                    None => None,
                },
                final(self).stage@,
                r,
            ),
            final(self).health_check == old(self).health_check,
    {
        let action = InitAction::DeleteSession { token: token.clone(), session: session.clone() };
        self.stage = InitStage::Cleanup { token, session, error };
        action
    }

    /// Takes the result of a call and gives the next one.
    pub fn advance(&mut self, event: InitEvent) -> (r: InitAction)
        ensures
            is_step(old(self).stage@, old(self).health_check, event, final(self).stage@, r),
            final(self).health_check == old(self).health_check,
    {
        let mut stage = InitStage::Closed;
        std::mem::swap(&mut stage, &mut self.stage);
        match (stage, event) {
            (InitStage::Login, InitEvent::LoggedIn(Ok(token))) => {
                if self.health_check {
                    self.stage = InitStage::Session { token: token.clone() };
                    InitAction::CreateSession { token }
                } else {
                    InitAction::Finish(Ok(token))
                }
            },
            (InitStage::Login, InitEvent::LoggedIn(Err(e))) => InitAction::Finish(
                Err(PoolError::Client(e)),
            ),
            (InitStage::Session { token }, InitEvent::SessionCreated(Ok(session))) => {
                self.stage = InitStage::Challenge { token: token.clone(), session };
                InitAction::CreateChallenge {
                    token,
                    target_path: "/api/v0/chat/completion".to_owned(),
                }
            },
            (
                InitStage::Session { token: _ },
                InitEvent::SessionCreated(Err(e)),
            ) => InitAction::Finish(Err(PoolError::Client(e))),
            (InitStage::Challenge { token, session }, InitEvent::ChallengeCreated(Ok(_))) => {
                self.stage = InitStage::Solve { token, session };
                InitAction::Solve
            },
            (
                InitStage::Challenge { token, session },
                InitEvent::ChallengeCreated(Err(e)),
            ) => self.clean_up(token, session, Some(PoolError::Client(e))),
            (InitStage::Solve { token, session }, InitEvent::Solved(Ok(header))) => {
                let payload = trial_payload(session.as_str());
                self.stage = InitStage::Completion { token: token.clone(), session };
                InitAction::Complete { token, pow_header: header, payload }
            },
            (InitStage::Solve { token, session }, InitEvent::Solved(Err(e))) => self.clean_up(
                token,
                session,
                Some(PoolError::Pow(e)),
            ),
            (InitStage::Completion { token, session }, InitEvent::Answered(Ok(data))) => {
                let error = health_verdict(data.as_slice());
                self.clean_up(token, session, error)
            },
            (
                InitStage::Completion { token, session },
                InitEvent::Answered(Err(e)),
            ) => self.clean_up(token, session, Some(PoolError::Client(e))),
            (
                InitStage::Cleanup { token, session: _, error },
                InitEvent::SessionDeleted,
            ) => match error {
                Some(e) => InitAction::Finish(Err(e)),
                None => InitAction::Finish(Ok(token)),
            },
            (stage, _) => {
                self.stage = stage;
                InitAction::Ignore
            },
        }
    }
}

} // verus!
