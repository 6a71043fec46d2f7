//! Session tokens.
//!
//! A token is a random key that stands for a user who has logged in. Issuing
//! one replaces whatever token the user had; presenting one resolves to the
//! user. Every one of these operations needs the credential store, which this
//! crate does not own, so each is a [`Flow`]: it names the store operation it
//! waits for ([`Flow::request`]) and, handed the reply, either moves on to the
//! next operation or finishes ([`Flow::advance`]).
use vstd::prelude::*;
use crate::auth::random::{is_alphanumeric_text, os_random_alphanumeric};
use crate::auth::store::{StoreReply, StoreReplyView, StoreRequest, StoreRequestView};
use crate::models::{User, UserView};

verus! {

/// Number of characters in a token key.
pub const KEY_LENGTH: usize = 64;

/// How many candidate keys are tried before issuing gives up.
pub const MAX_ATTEMPTS: u8 = 10;

/// What is wrong with the `Authorization` header of a request.
#[derive(Clone, Copy, Debug, PartialEq, Eq, Structural)]
pub enum Malformation {
    /// The header is absent, or present more than once.
    HeaderCount,
    /// The header's value does not begin with `Token `.
    MissingPrefix,
}

/// Which store operation let the core down.
#[derive(Clone, Copy, Debug, PartialEq, Eq, Structural)]
pub enum StoreFault {
    /// No connection to the store could be had.
    Connection,
    /// Asking whether a key is in use failed.
    KeyCheck,
    /// Deleting a user's tokens failed.
    DeleteTokens,
    /// Inserting the new token failed.
    InsertToken,
    /// Fetching a token by its key failed.
    TokenLookup,
    /// Fetching a token's user failed.
    UserLookup,
    /// A token names a user that the store does not have.
    OrphanedToken,
}

/// Why an operation on tokens did not succeed.
#[derive(Clone, Copy, Debug, PartialEq, Eq, Structural)]
pub enum AuthError {
    /// The request is structurally invalid. A client error.
    MalformedRequest(Malformation),
    /// The key is well-formed and belongs to no live token. A client error.
    InvalidCredential,
    /// The store failed, or what it holds is inconsistent. A server error.
    StoreUnavailable(StoreFault),
    /// Every candidate key was already in use. A server error.
    TokenGenerationExhausted,
    /// The operating system's random source could not be opened. A server error.
    EntropyUnavailable,
}

impl AuthError {
    /// The HTTP status that reports this error.
    pub open spec fn status_of(self) -> u16 {
        match self {
            AuthError::MalformedRequest(_) => 401,
            AuthError::InvalidCredential => 403,
            _ => 500,
        }
    }

    /// The text that reports this error.
    pub open spec fn message_of(self) -> Seq<char> {
        match self {
            AuthError::MalformedRequest(Malformation::HeaderCount) => {
                "`Authorization` header must appear exactly once"@
            },
            AuthError::MalformedRequest(Malformation::MissingPrefix) => {
                "`Authorization` header must begin with the string 'Token '"@
            },
            AuthError::InvalidCredential => "Token presented was not valid"@,
            AuthError::StoreUnavailable(StoreFault::Connection) => {
                "Couldn't get connection from pool"@
            },
            AuthError::StoreUnavailable(StoreFault::KeyCheck) => {
                "Failed to check for key existence"@
            },
            AuthError::StoreUnavailable(StoreFault::DeleteTokens) => {
                "Couldn't delete existing keys"@
            },
            AuthError::StoreUnavailable(StoreFault::InsertToken) => {
                "Failed to insert key into auth_tokens"@
            },
            AuthError::StoreUnavailable(StoreFault::TokenLookup) => {
                "Failed to look up the token presented"@
            },
            AuthError::StoreUnavailable(StoreFault::UserLookup) => {
                "Failed to look up the token's user"@
            },
            AuthError::StoreUnavailable(StoreFault::OrphanedToken) => {
                "Token belongs to a user that does not exist"@
            },
            AuthError::TokenGenerationExhausted => "Couldn't find unused key after 10 tries"@,
            AuthError::EntropyUnavailable => "Couldn't connect to OS RNG"@,
        }
    }

    /// The HTTP status that reports this error: 401 for a malformed request,
    /// 403 for a key that is not valid, 500 for everything that is the
    /// server's fault.
    pub fn status(&self) -> (code: u16)
        ensures
            code == self.status_of(),
    {
        match self {
            AuthError::MalformedRequest(_) => 401,
            AuthError::InvalidCredential => 403,
            _ => 500,
        }
    }

    /// The text that reports this error.
    pub fn message(&self) -> (text: &'static str)
        ensures
            text@ == self.message_of(),
    {
        match self {
            AuthError::MalformedRequest(Malformation::HeaderCount) => {
                "`Authorization` header must appear exactly once"
            },
            AuthError::MalformedRequest(Malformation::MissingPrefix) => {
                "`Authorization` header must begin with the string 'Token '"
            },
            AuthError::InvalidCredential => "Token presented was not valid",
            AuthError::StoreUnavailable(StoreFault::Connection) => {
                "Couldn't get connection from pool"
            },
            AuthError::StoreUnavailable(StoreFault::KeyCheck) => {
                "Failed to check for key existence"
            },
            AuthError::StoreUnavailable(StoreFault::DeleteTokens) => {
                "Couldn't delete existing keys"
            },
            AuthError::StoreUnavailable(StoreFault::InsertToken) => {
                "Failed to insert key into auth_tokens"
            },
            AuthError::StoreUnavailable(StoreFault::TokenLookup) => {
                "Failed to look up the token presented"
            },
            AuthError::StoreUnavailable(StoreFault::UserLookup) => {
                "Failed to look up the token's user"
            },
            AuthError::StoreUnavailable(StoreFault::OrphanedToken) => {
                "Token belongs to a user that does not exist"
            },
            AuthError::TokenGenerationExhausted => "Couldn't find unused key after 10 tries",
            AuthError::EntropyUnavailable => "Couldn't connect to OS RNG",
        }
    }
}

/// Token Authentication: the user that a presented token resolved to.
#[derive(Clone, Debug, PartialEq, Eq)]
pub struct TokenAuth {
    pub user: User,
}

/// What a finished [`Flow`] achieved.
#[derive(Clone, Debug, PartialEq, Eq)]
pub enum Granted {
    /// A token with this key was stored for the user, and is now their only one.
    Issued(String),
    /// The user has no token any more.
    Invalidated,
    /// The presented token belongs to this user.
    Authenticated(TokenAuth),
}

/// Mathematical value of a [`Granted`].
pub enum GrantedView {
    Issued(Seq<char>),
    Invalidated,
    Authenticated(UserView),
}

impl View for Granted {
    type V = GrantedView;

    open spec fn view(&self) -> GrantedView {
        match self {
            Granted::Issued(key) => GrantedView::Issued(key@),
            Granted::Invalidated => GrantedView::Invalidated,
            Granted::Authenticated(auth) => GrantedView::Authenticated(auth.user@),
        }
    }
}

/// Where an operation stands: the store operation it waits for, and what it
/// has to remember meanwhile.
pub enum FlowView {
    /// Issuing: waits to hear whether candidate number `attempt` is in use.
    CheckingKey { user_id: i32, issued_at: i64, key: Seq<char>, attempt: u8 },
    /// Issuing: `key` is free; waits for the user's old tokens to be deleted.
    ReplacingTokens { user_id: i32, issued_at: i64, key: Seq<char> },
    /// Issuing: waits for the new token to be inserted.
    InsertingToken { user_id: i32, issued_at: i64, key: Seq<char> },
    /// Invalidating: waits for the user's tokens to be deleted.
    Invalidating { user_id: i32 },
    /// Authenticating: waits for the token with the presented key.
    FindingToken { key: Seq<char> },
    /// Authenticating: waits for the user that owns the token.
    FindingUser { user_id: i32 },
}

/// Mathematical value of a [`Step`].
pub enum StepView {
    Continue(FlowView),
    Done(Result<GrantedView, AuthError>),
}

impl FlowView {
    /// A key search has drawn at least one candidate and at most
    /// [`MAX_ATTEMPTS`].
    pub open spec fn well_formed(self) -> bool {
        match self {
            FlowView::CheckingKey { attempt, .. } => 1 <= attempt <= MAX_ATTEMPTS,
            _ => true,
        }
    }

    /// The store operation that the flow waits for.
    pub open spec fn request(self) -> StoreRequestView {
        match self {
            FlowView::CheckingKey { key, .. } => StoreRequestView::KeyExists { key },
            FlowView::ReplacingTokens { user_id, .. } => StoreRequestView::DeleteTokens { user_id },
            FlowView::InsertingToken { user_id, issued_at, key } => StoreRequestView::InsertToken {
                user_id,
                key,
                issued_at,
            },
            FlowView::Invalidating { user_id } => StoreRequestView::DeleteTokens { user_id },
            FlowView::FindingToken { key } => StoreRequestView::FindToken { key },
            FlowView::FindingUser { user_id } => StoreRequestView::FindUser { id: user_id },
        }
    }

    /// The fault to report when the operation that the flow waits for fails.
    pub open spec fn fault(self) -> StoreFault {
        match self {
            FlowView::CheckingKey { .. } => StoreFault::KeyCheck,
            FlowView::ReplacingTokens { .. } => StoreFault::DeleteTokens,
            FlowView::InsertingToken { .. } => StoreFault::InsertToken,
            FlowView::Invalidating { .. } => StoreFault::DeleteTokens,
            FlowView::FindingToken { .. } => StoreFault::TokenLookup,
            FlowView::FindingUser { .. } => StoreFault::UserLookup,
        }
    }

    /// The candidate key of a key search; empty in every other state.
    pub open spec fn candidate(self) -> Seq<char> {
        match self {
            FlowView::CheckingKey { key, .. } => key,
            _ => Seq::empty(),
        }
    }

    /// The reply says that the candidate is in use, and another may be tried.
    pub open spec fn retries(self, reply: StoreReplyView) -> bool {
        &&& self matches FlowView::CheckingKey { attempt, .. }
        &&& attempt < MAX_ATTEMPTS
        &&& reply == StoreReplyView::KeyExists(true)
    }

    /// The decision taken on `reply`. `fresh_key` is the candidate to try next,
    /// and matters only where [`Self::retries`] holds.
    ///
    /// A reply of another kind than the one waited for counts as a failure of
    /// the pending operation.
    pub open spec fn next(self, reply: StoreReplyView, fresh_key: Seq<char>) -> StepView {
        if reply == StoreReplyView::Unreachable {
            StepView::Done(Err(AuthError::StoreUnavailable(StoreFault::Connection)))
        } else {
            match (self, reply) {
                (
                    FlowView::CheckingKey { user_id, issued_at, key, .. },
                    StoreReplyView::KeyExists(false),
                ) => StepView::Continue(FlowView::ReplacingTokens { user_id, issued_at, key }),
                (
                    FlowView::CheckingKey { user_id, issued_at, attempt, .. },
                    StoreReplyView::KeyExists(true),
                ) => if attempt < MAX_ATTEMPTS {
                    StepView::Continue(
                        FlowView::CheckingKey {
                            user_id,
                            issued_at,
                            key: fresh_key,
                            attempt: (attempt + 1) as u8,
                        },
                    )
                } else {
                    StepView::Done(Err(AuthError::TokenGenerationExhausted))
                },
                (
                    FlowView::ReplacingTokens { user_id, issued_at, key },
                    StoreReplyView::TokensDeleted,
                ) => StepView::Continue(FlowView::InsertingToken { user_id, issued_at, key }),
                (FlowView::InsertingToken { key, .. }, StoreReplyView::TokenInserted) => {
                    StepView::Done(Ok(GrantedView::Issued(key)))
                },
                (FlowView::Invalidating { .. }, StoreReplyView::TokensDeleted) => {
                    StepView::Done(Ok(GrantedView::Invalidated))
                },
                (FlowView::FindingToken { .. }, StoreReplyView::Token(Some(token))) => {
                    StepView::Continue(FlowView::FindingUser { user_id: token.user_id })
                },
                (FlowView::FindingToken { .. }, StoreReplyView::Token(None)) => {
                    StepView::Done(Err(AuthError::InvalidCredential))
                },
                (FlowView::FindingUser { .. }, StoreReplyView::User(Some(user))) => {
                    StepView::Done(Ok(GrantedView::Authenticated(user)))
                },
                (FlowView::FindingUser { .. }, StoreReplyView::User(None)) => {
                    StepView::Done(Err(AuthError::StoreUnavailable(StoreFault::OrphanedToken)))
                },
                _ => StepView::Done(Err(AuthError::StoreUnavailable(self.fault()))),
            }
        }
    }

    /// An upper bound on the number of store operations that can follow the
    /// one the flow waits for.
    pub open spec fn budget(self) -> nat {
        match self {
            FlowView::CheckingKey { attempt, .. } => if attempt <= MAX_ATTEMPTS {
                (MAX_ATTEMPTS - attempt + 2) as nat
            } else {
                2
            },
            FlowView::ReplacingTokens { .. } => 1,
            FlowView::FindingToken { .. } => 1,
            _ => 0,
        }
    }
}

#[derive(Debug)]
enum Phase {
    CheckingKey { user_id: i32, issued_at: i64, key: String, attempt: u8 },
    ReplacingTokens { user_id: i32, issued_at: i64, key: String },
    InsertingToken { user_id: i32, issued_at: i64, key: String },
    Invalidating { user_id: i32 },
    FindingToken { key: String },
    FindingUser { user_id: i32 },
}

/// An operation on tokens that is under way.
///
/// A flow always waits for the reply to exactly one store operation. The one
/// who drives it performs [`Flow::request`], hands the reply to
/// [`Flow::advance`], and goes on with the flow that comes back until the step
/// is [`Step::Done`]. A flow can only be started by [`TokenAuth`], so the key
/// that reaches the store is always one that was checked first.
///
/// A flow decides on what the store answered when it was asked. Between the
/// check of a key and the insertion of the token, and between the deletion of
/// the old tokens and that insertion, the store must not change under it:
/// whoever drives a flow performs all its operations in one transaction.
#[derive(Debug)]
pub struct Flow {
    phase: Phase,
}

impl View for Flow {
    type V = FlowView;

    closed spec fn view(&self) -> FlowView {
        match self.phase {
            Phase::CheckingKey { user_id, issued_at, key, attempt } => FlowView::CheckingKey {
                user_id,
                issued_at,
                key: key@,
                attempt,
            },
            Phase::ReplacingTokens { user_id, issued_at, key } => FlowView::ReplacingTokens {
                user_id,
                issued_at,
                key: key@,
            },
            Phase::InsertingToken { user_id, issued_at, key } => FlowView::InsertingToken {
                user_id,
                issued_at,
                key: key@,
            },
            Phase::Invalidating { user_id } => FlowView::Invalidating { user_id },
            Phase::FindingToken { key } => FlowView::FindingToken { key: key@ },
            Phase::FindingUser { user_id } => FlowView::FindingUser { user_id },
        }
    }
}

/// What became of a flow once a reply was taken in.
#[derive(Debug)]
pub enum Step {
    /// Another store operation is needed: that of the flow inside.
    Continue(Flow),
    /// The operation is over.
    Done(Result<Granted, AuthError>),
}

impl View for Step {
    type V = StepView;

    open spec fn view(&self) -> StepView {
        match self {
            Step::Continue(flow) => StepView::Continue(flow@),
            Step::Done(Ok(granted)) => StepView::Done(Ok(granted@)),
            Step::Done(Err(error)) => StepView::Done(Err(*error)),
        }
    }
}

impl Flow {
    /// Every flow is well formed: none has drawn more than [`MAX_ATTEMPTS`]
    /// candidate keys.
    #[verifier::type_invariant]
    closed spec fn within_attempts(self) -> bool {
        self@.well_formed()
    }

    /// The store operation that this flow waits for.
    ///
    /// Every flow is well formed; this is where a caller learns it.
    pub fn request(&self) -> (request: StoreRequest)
        ensures
            request@ == self@.request(),
            self@.well_formed(),
    {
        proof {
            use_type_invariant(self);
        }
        match &self.phase {
            Phase::CheckingKey { key, .. } => StoreRequest::KeyExists { key: key.clone() },
            Phase::ReplacingTokens { user_id, .. } => StoreRequest::DeleteTokens {
                user_id: *user_id,
            },
            Phase::InsertingToken { user_id, issued_at, key } => StoreRequest::InsertToken {
                user_id: *user_id,
                key: key.clone(),
                issued_at: *issued_at,
            },
            Phase::Invalidating { user_id } => StoreRequest::DeleteTokens { user_id: *user_id },
            Phase::FindingToken { key } => StoreRequest::FindToken { key: key.clone() },
            Phase::FindingUser { user_id } => StoreRequest::FindUser { id: *user_id },
        }
    }

    /// Whether `reply` makes this flow draw another candidate key.
    pub fn retries(&self, reply: &StoreReply) -> (again: bool)
        ensures
            again == self@.retries(reply@),
    {
        match (&self.phase, reply) {
            (Phase::CheckingKey { attempt, .. }, StoreReply::KeyExists(true)) => {
                *attempt < MAX_ATTEMPTS
            },
            _ => false,
        }
    }

    /// Takes in the store's reply to [`Self::request`], with `fresh_key` as the
    /// candidate to try should the reply call for another one.
    ///
    /// This is the whole decision table of token handling, see
    /// [`FlowView::next`]. Each step uses up some of the flow's budget, so no
    /// sequence of replies keeps a flow going for ever.
    pub fn advance_with(self, reply: StoreReply, fresh_key: String) -> (step: Step)
        ensures
            step@ == self@.next(reply@, fresh_key@),
            step@ matches StepView::Continue(after) ==> after.budget() < self@.budget(),
    {
        if let StoreReply::Unreachable = reply {
            return Step::Done(Err(AuthError::StoreUnavailable(StoreFault::Connection)));
        }
        match self.phase {
            Phase::CheckingKey { user_id, issued_at, key, attempt } => match reply {
                StoreReply::KeyExists(false) => Step::Continue(
                    Flow { phase: Phase::ReplacingTokens { user_id, issued_at, key } },
                ),
                StoreReply::KeyExists(true) => if attempt < MAX_ATTEMPTS {
                    Step::Continue(
                        Flow {
                            phase: Phase::CheckingKey {
                                user_id,
                                issued_at,
                                key: fresh_key,
                                attempt: attempt + 1,
                            },
                        },
                    )
                } else {
                    Step::Done(Err(AuthError::TokenGenerationExhausted))
                },
                _ => Step::Done(Err(AuthError::StoreUnavailable(StoreFault::KeyCheck))),
            },
            Phase::ReplacingTokens { user_id, issued_at, key } => match reply {
                StoreReply::TokensDeleted => Step::Continue(
                    Flow { phase: Phase::InsertingToken { user_id, issued_at, key } },
                ),
                _ => Step::Done(Err(AuthError::StoreUnavailable(StoreFault::DeleteTokens))),
            },
            Phase::InsertingToken { key, .. } => match reply {
                StoreReply::TokenInserted => Step::Done(Ok(Granted::Issued(key))),
                _ => Step::Done(Err(AuthError::StoreUnavailable(StoreFault::InsertToken))),
            },
            Phase::Invalidating { .. } => match reply {
                StoreReply::TokensDeleted => Step::Done(Ok(Granted::Invalidated)),
                _ => Step::Done(Err(AuthError::StoreUnavailable(StoreFault::DeleteTokens))),
            },
            Phase::FindingToken { .. } => match reply {
                StoreReply::Token(Some(token)) => Step::Continue(
                    Flow { phase: Phase::FindingUser { user_id: token.user_id } },
                ),
                StoreReply::Token(None) => Step::Done(Err(AuthError::InvalidCredential)),
                _ => Step::Done(Err(AuthError::StoreUnavailable(StoreFault::TokenLookup))),
            },
            Phase::FindingUser { .. } => match reply {
                StoreReply::User(Some(user)) => Step::Done(
                    Ok(Granted::Authenticated(TokenAuth { user })),
                ),
                StoreReply::User(None) => Step::Done(
                    Err(AuthError::StoreUnavailable(StoreFault::OrphanedToken)),
                ),
                _ => Step::Done(Err(AuthError::StoreUnavailable(StoreFault::UserLookup))),
            },
        }
    }

    /// Takes in the store's reply to [`Self::request`].
    ///
    /// Where the reply says that the candidate key is in use and another may
    /// be tried, a new candidate of [`KEY_LENGTH`] letters and digits is drawn
    /// from the operating system; if that source cannot be opened the flow
    /// ends with [`AuthError::EntropyUnavailable`]. Everything else is
    /// [`Self::advance_with`], in which no key is drawn.
    pub fn advance(self, reply: StoreReply) -> (step: Step)
        ensures
            !self@.retries(reply@) ==> forall|any: Seq<char>|
                step@ == #[trigger] self@.next(reply@, any),
            self@.retries(reply@) ==> match step@ {
                StepView::Continue(after) => {
                    &&& is_alphanumeric_text(after.candidate(), KEY_LENGTH as nat)
                    &&& step@ == self@.next(reply@, after.candidate())
                },
                StepView::Done(result) => result == Err::<GrantedView, AuthError>(
                    AuthError::EntropyUnavailable,
                ),
            },
            step@ matches StepView::Continue(after) ==> after.budget() < self@.budget(),
    {
        if self.retries(&reply) {
            match os_random_alphanumeric(KEY_LENGTH) {
                Some(key) => self.advance_with(reply, key),
                None => Step::Done(Err(AuthError::EntropyUnavailable)),
            }
        } else {
            self.advance_with(reply, String::new())
        }
    }
}

/// The literal that an `Authorization` header's value begins with.
pub open spec fn token_prefix() -> Seq<char> {
    seq!['T', 'o', 'k', 'e', 'n', ' ']
}

/// The key that a request presents, given the values of all its
/// `Authorization` headers: there must be exactly one, it must begin with
/// [`token_prefix`], and the key is all that follows, unchanged.
pub open spec fn presented_key(values: Seq<Seq<char>>) -> Result<Seq<char>, AuthError> {
    if values.len() != 1 {
        Err(AuthError::MalformedRequest(Malformation::HeaderCount))
    } else if !token_prefix().is_prefix_of(values[0]) {
        Err(AuthError::MalformedRequest(Malformation::MissingPrefix))
    } else {
        Ok(values[0].skip(token_prefix().len() as int))
    }
}

/// The step that authentication starts with: the lookup of the presented
/// key, or the rejection of a request that presents none properly.
pub open spec fn authentication_start(values: Seq<Seq<char>>) -> StepView {
    match presented_key(values) {
        Ok(key) => StepView::Continue(FlowView::FindingToken { key }),
        Err(error) => StepView::Done(Err(error)),
    }
}

impl TokenAuth {
    /// The key in one `Authorization` header value: what follows the prefix
    /// `Token `, taken verbatim. `None` if the value does not begin with that
    /// prefix.
    pub fn bearer_key(value: &str) -> (key: Option<String>)
        ensures
            key is Some <==> token_prefix().is_prefix_of(value@),
            key matches Some(text) ==> text@ == value@.skip(token_prefix().len() as int),
    {
        let len = value.unicode_len();
        if len < 6 {
            return None;
        }
        if value.get_char(0) != 'T' || value.get_char(1) != 'o' || value.get_char(2) != 'k'
            || value.get_char(3) != 'e' || value.get_char(4) != 'n' || value.get_char(5) != ' ' {
            return None;
        }
        assert(token_prefix() =~= value@.subrange(0, 6));
        let rest = value.substring_char(6, len);
        assert(rest@ =~= value@.skip(6));
        Some(rest.to_owned())
    }

    /// Invalidate a user's token: starts the flow that deletes every token of
    /// `user`. It ends in [`Granted::Invalidated`] whether or not the user had
    /// any.
    pub fn invalidate_for(user: &User) -> (flow: Flow)
        ensures
            flow@ == (FlowView::Invalidating { user_id: user.id }),
    {
        Flow { phase: Phase::Invalidating { user_id: user.id } }
    }

    /// Starts issuing a token for `user` with `key` as the first candidate and
    /// `now` as the time of issue.
    ///
    /// The flow first asks whether the candidate is in use by anyone's token.
    /// A free candidate becomes the key: the user's old tokens are deleted and
    /// the new one is inserted. A candidate in use is replaced by another, up
    /// to [`MAX_ATTEMPTS`] candidates in all.
    pub fn create_for_with_key(user: &User, now: i64, key: String) -> (flow: Flow)
        ensures
            flow@ == (FlowView::CheckingKey {
                user_id: user.id,
                issued_at: now,
                key: key@,
                attempt: 1,
            }),
            flow@.well_formed(),
            flow@.budget() == MAX_ATTEMPTS + 1,
    {
        Flow { phase: Phase::CheckingKey { user_id: user.id, issued_at: now, key, attempt: 1 } }
    }

    /// Create a token for the specified user.
    ///
    /// Draws the first candidate key, [`KEY_LENGTH`] letters and digits from
    /// the operating system's random source, and starts the flow of
    /// [`Self::create_for_with_key`] with it. If that source cannot be opened
    /// nothing is started and the step is [`AuthError::EntropyUnavailable`].
    pub fn create_for(user: &User, now: i64) -> (step: Step)
        ensures
            match step@ {
                StepView::Continue(flow) => {
                    &&& is_alphanumeric_text(flow.candidate(), KEY_LENGTH as nat)
                    &&& flow == (FlowView::CheckingKey {
                        user_id: user.id,
                        issued_at: now,
                        key: flow.candidate(),
                        attempt: 1,
                    })
                },
                StepView::Done(result) => result == Err::<GrantedView, AuthError>(
                    AuthError::EntropyUnavailable,
                ),
            },
    {
        match os_random_alphanumeric(KEY_LENGTH) {
            Some(key) => Step::Continue(Self::create_for_with_key(user, now, key)),
            None => Step::Done(Err(AuthError::EntropyUnavailable)),
        }
    }

    /// Starts resolving the user behind a request, given the values of all
    /// the `Authorization` headers that the request carries.
    ///
    /// The header must appear exactly once and its value must begin with
    /// `Token `; otherwise the request is malformed and nothing is asked of
    /// the store. The rest of the value is looked up as it stands.
    pub fn authenticate(values: &Vec<String>) -> (step: Step)
        ensures
            step@ == authentication_start(values.deep_view()),
    {
        if values.len() != 1 {
            return Step::Done(Err(AuthError::MalformedRequest(Malformation::HeaderCount)));
        }
        assert(values.deep_view()[0] == values@[0]@);
        match Self::bearer_key(values[0].as_str()) {
            Some(key) => Step::Continue(Flow { phase: Phase::FindingToken { key } }),
            None => Step::Done(Err(AuthError::MalformedRequest(Malformation::MissingPrefix))),
        }
    }
}

} // verus!
