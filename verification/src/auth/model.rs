//! A reference model of the credential store, and what token flows achieve
//! when they are driven against it.
//!
//! The model is a table of token rows and a table of user rows with the five
//! operations that token handling asks for. [`run`] drives a flow to its end
//! the way a caller does: perform the request, hand over the reply, repeat.
//! Nothing else touches the model while a flow runs, as in a transaction.
//! The theorems at the end of this file state what issuing, invalidating and
//! authenticating then amount to.
use vstd::prelude::*;
use crate::auth::store::{StoreReplyView, StoreRequestView};
use crate::auth::token::{
    authentication_start, token_prefix, AuthError, FlowView, GrantedView, Malformation, StepView,
    MAX_ATTEMPTS,
};
use crate::models::{TokenView, UserView};

verus! {

/// The rows that a credential store holds.
pub struct StoreModel {
    pub tokens: Seq<TokenView>,
    pub users: Seq<UserView>,
}

impl StoreModel {
    /// Some token, of whatever user, has exactly this key.
    pub open spec fn holds_key(self, key: Seq<char>) -> bool {
        exists|i: int| 0 <= i < self.tokens.len() && (#[trigger] self.tokens[i]).key == key
    }

    /// The tokens with exactly this key, in table order.
    pub open spec fn tokens_with_key(self, key: Seq<char>) -> Seq<TokenView> {
        self.tokens.filter(|token: TokenView| token.key == key)
    }

    /// The tokens of one user, in table order.
    pub open spec fn tokens_of(self, user_id: i32) -> Seq<TokenView> {
        self.tokens.filter(|token: TokenView| token.user_id == user_id)
    }

    /// The first token with exactly this key.
    pub open spec fn find_token(self, key: Seq<char>) -> Option<TokenView> {
        let found = self.tokens_with_key(key);
        if found.len() > 0 {
            Some(found.first())
        } else {
            None
        }
    }

    /// The first user with this id.
    pub open spec fn find_user(self, id: i32) -> Option<UserView> {
        let found = self.users.filter(|user: UserView| user.id == id);
        if found.len() > 0 {
            Some(found.first())
        } else {
            None
        }
    }

    /// The store once every token of `user_id` is deleted.
    pub open spec fn without_tokens_of(self, user_id: i32) -> StoreModel {
        StoreModel {
            tokens: self.tokens.filter(|token: TokenView| token.user_id != user_id),
            users: self.users,
        }
    }

    /// The store once `token` is inserted.
    pub open spec fn with_token(self, token: TokenView) -> StoreModel {
        StoreModel { tokens: self.tokens.push(token), users: self.users }
    }

    /// No two token rows have the same key.
    pub open spec fn keys_unique(self) -> bool {
        forall|i: int, j: int|
            0 <= i < j < self.tokens.len() ==> (#[trigger] self.tokens[i]).key != (
            #[trigger] self.tokens[j]).key
    }

    /// What the store answers to `request`. The model store never fails.
    pub open spec fn answer(self, request: StoreRequestView) -> StoreReplyView {
        match request {
            StoreRequestView::KeyExists { key } => StoreReplyView::KeyExists(self.holds_key(key)),
            StoreRequestView::DeleteTokens { .. } => StoreReplyView::TokensDeleted,
            StoreRequestView::InsertToken { .. } => StoreReplyView::TokenInserted,
            StoreRequestView::FindToken { key } => StoreReplyView::Token(self.find_token(key)),
            StoreRequestView::FindUser { id } => StoreReplyView::User(self.find_user(id)),
        }
    }

    /// What the store holds once `request` is performed. A row that is
    /// inserted gets `row_id` as its store-assigned id.
    pub open spec fn after(self, request: StoreRequestView, row_id: i32) -> StoreModel {
        match request {
            StoreRequestView::DeleteTokens { user_id } => self.without_tokens_of(user_id),
            StoreRequestView::InsertToken { user_id, key, issued_at } => self.with_token(
                TokenView { id: row_id, user_id, timestamp: issued_at, key },
            ),
            _ => self,
        }
    }
}

/// How a flow ended, and what the store holds then.
pub struct Outcome {
    pub store: StoreModel,
    pub result: Result<GrantedView, AuthError>,
}

/// The candidate that a key search draws next, when `candidates(n)` is the
/// candidate drawn after `n` others.
pub open spec fn next_candidate(flow: FlowView, candidates: spec_fn(nat) -> Seq<char>) -> Seq<
    char,
> {
    match flow {
        FlowView::CheckingKey { attempt, .. } => candidates(attempt as nat),
        _ => Seq::empty(),
    }
}

/// Drives `flow` against `store` until it is done.
pub open spec fn run(
    store: StoreModel,
    flow: FlowView,
    candidates: spec_fn(nat) -> Seq<char>,
    row_id: i32,
) -> Outcome
    decreases flow.budget(),
{
    let reply = store.answer(flow.request());
    let store = store.after(flow.request(), row_id);
    match flow.next(reply, next_candidate(flow, candidates)) {
        StepView::Continue(next) => run(store, next, candidates, row_id),
        StepView::Done(result) => Outcome { store, result },
    }
}

/// Issuing a token for `user_id` at time `now`, with `candidates(0)` as the
/// first candidate key.
pub open spec fn issue(
    store: StoreModel,
    user_id: i32,
    now: i64,
    candidates: spec_fn(nat) -> Seq<char>,
    row_id: i32,
) -> Outcome {
    run(
        store,
        FlowView::CheckingKey { user_id, issued_at: now, key: candidates(0), attempt: 1 },
        candidates,
        row_id,
    )
}

/// Invalidating the tokens of `user_id`.
pub open spec fn invalidate(store: StoreModel, user_id: i32) -> Outcome {
    run(store, FlowView::Invalidating { user_id }, |n: nat| Seq::empty(), 0)
}

/// Authenticating a request that carries `values` as its `Authorization`
/// headers.
pub open spec fn authenticate(store: StoreModel, values: Seq<Seq<char>>) -> Outcome {
    match authentication_start(values) {
        StepView::Continue(flow) => run(store, flow, |n: nat| Seq::empty(), 0),
        StepView::Done(result) => Outcome { store, result },
    }
}

/// The header value that presents `key`.
pub open spec fn header_for(key: Seq<char>) -> Seq<char> {
    token_prefix() + key
}

/// The index of the first candidate, from `from` on and among the first
/// [`MAX_ATTEMPTS`], that no token of the store has as its key.
pub open spec fn first_free(
    store: StoreModel,
    candidates: spec_fn(nat) -> Seq<char>,
    from: nat,
) -> Option<nat>
    decreases MAX_ATTEMPTS - from,
{
    if from >= MAX_ATTEMPTS {
        None
    } else if !store.holds_key(candidates(from)) {
        Some(from)
    } else {
        first_free(store, candidates, from + 1)
    }
}

/// The store after `key` was issued to `user_id`: the user's earlier tokens
/// are gone and the new one is the last row.
pub open spec fn replaced(
    store: StoreModel,
    user_id: i32,
    now: i64,
    key: Seq<char>,
    row_id: i32,
) -> StoreModel {
    store.without_tokens_of(user_id).with_token(
        TokenView { id: row_id, user_id, timestamp: now, key },
    )
}

/// A key that no row has is found by no lookup.
proof fn lemma_absent_key_not_found(store: StoreModel, key: Seq<char>)
    requires
        !store.holds_key(key),
    ensures
        store.tokens_with_key(key).len() == 0,
        store.find_token(key) is None,
{
    let has_key = |token: TokenView| token.key == key;
    assert forall|token: TokenView| store.tokens.contains(token) implies !has_key(token) by {
        let i = choose|i: int| 0 <= i < store.tokens.len() && store.tokens[i] == token;
        assert(store.tokens[i].key != key);
    }
    store.tokens.lemma_all_neg_filter_empty(has_key);
}

/// Deleting a user's tokens brings no key into the store.
proof fn lemma_delete_adds_no_key(store: StoreModel, user_id: i32, key: Seq<char>)
    requires
        store.without_tokens_of(user_id).holds_key(key),
    ensures
        exists|i: int|
            0 <= i < store.tokens.len() && (#[trigger] store.tokens[i]).key == key
                && store.tokens[i].user_id != user_id,
{
    broadcast use Seq::lemma_filter_contains_rev;

    let kept = store.without_tokens_of(user_id).tokens;
    let j = choose|j: int| 0 <= j < kept.len() && (#[trigger] kept[j]).key == key;
    assert(kept.contains(kept[j]));
    assert(store.tokens.contains(kept[j]));
    let i = choose|i: int| 0 <= i < store.tokens.len() && store.tokens[i] == kept[j];
    assert(store.tokens[i].key == key && store.tokens[i].user_id != user_id);
}

/// What a lookup by key finds once a token was issued.
proof fn lemma_lookup_after_issue(
    store: StoreModel,
    user_id: i32,
    now: i64,
    key: Seq<char>,
    row_id: i32,
    wanted: Seq<char>,
)
    ensures
        ({
            let issued = TokenView { id: row_id, user_id, timestamp: now, key };
            let kept = store.without_tokens_of(user_id).tokens_with_key(wanted);
            replaced(store, user_id, now, key, row_id).tokens_with_key(wanted) == if key
                == wanted {
                kept.push(issued)
            } else {
                kept
            }
        }),
{
    let issued = TokenView { id: row_id, user_id, timestamp: now, key };
    let has_key = |token: TokenView| token.key == wanted;
    let before = store.without_tokens_of(user_id).tokens;
    assert(before.push(issued) =~= before + seq![issued]);
    Seq::filter_distributes_over_add(before, seq![issued], has_key);
    reveal_with_fuel(Seq::filter, 2);
    assert(seq![issued].drop_last() =~= Seq::<TokenView>::empty());
    if key == wanted {
        assert(seq![issued].filter(has_key) =~= seq![issued]);
        assert(before.filter(has_key) + seq![issued] =~= before.filter(has_key).push(issued));
    } else {
        assert(seq![issued].filter(has_key) =~= Seq::<TokenView>::empty());
        assert(before.filter(has_key) + Seq::<TokenView>::empty() =~= before.filter(has_key));
    }
}

/// A key search that has reached candidate number `attempt` ends with the
/// first free candidate from there on, or exhausted.
proof fn lemma_search(
    store: StoreModel,
    user_id: i32,
    now: i64,
    candidates: spec_fn(nat) -> Seq<char>,
    row_id: i32,
    attempt: u8,
)
    requires
        1 <= attempt <= MAX_ATTEMPTS,
    ensures
        run(
            store,
            FlowView::CheckingKey {
                user_id,
                issued_at: now,
                key: candidates((attempt - 1) as nat),
                attempt,
            },
            candidates,
            row_id,
        ) == match first_free(store, candidates, (attempt - 1) as nat) {
            Some(found) => Outcome {
                store: replaced(store, user_id, now, candidates(found), row_id),
                result: Ok(GrantedView::Issued(candidates(found))),
            },
            None => Outcome { store, result: Err(AuthError::TokenGenerationExhausted) },
        },
    decreases MAX_ATTEMPTS - attempt,
{
    let key = candidates((attempt - 1) as nat);
    reveal_with_fuel(run, 3);
    reveal_with_fuel(first_free, 2);
    if store.holds_key(key) && attempt < MAX_ATTEMPTS {
        lemma_search(store, user_id, now, candidates, row_id, (attempt + 1) as u8);
    }
}

/// Issuing a token accepts the first of the [`MAX_ATTEMPTS`] candidates that
/// is the key of no token in the store, whoever owns it. The user's earlier
/// tokens are then deleted and the new token is inserted. If all candidates
/// are in use, issuing fails with
/// [`AuthError::TokenGenerationExhausted`] and the store is as it was.
pub proof fn issue_outcome(
    store: StoreModel,
    user_id: i32,
    now: i64,
    candidates: spec_fn(nat) -> Seq<char>,
    row_id: i32,
)
    ensures
        issue(store, user_id, now, candidates, row_id) == match first_free(store, candidates, 0) {
            Some(found) => Outcome {
                store: replaced(store, user_id, now, candidates(found), row_id),
                result: Ok(GrantedView::Issued(candidates(found))),
            },
            None => Outcome { store, result: Err(AuthError::TokenGenerationExhausted) },
        },
{
    lemma_search(store, user_id, now, candidates, row_id, 1);
}

/// The candidate that a key search accepts is in use by no token.
pub proof fn first_free_is_free(
    store: StoreModel,
    candidates: spec_fn(nat) -> Seq<char>,
    from: nat,
)
    ensures
        first_free(store, candidates, from) matches Some(found) ==> from <= found < MAX_ATTEMPTS
            && !store.holds_key(candidates(found)),
    decreases MAX_ATTEMPTS - from,
{
    if from < MAX_ATTEMPTS && store.holds_key(candidates(from)) {
        first_free_is_free(store, candidates, from + 1);
    }
}

/// The header value made for `key` presents exactly `key`.
proof fn lemma_header_presents(key: Seq<char>)
    ensures
        authentication_start(seq![header_for(key)]) == StepView::Continue(
            FlowView::FindingToken { key },
        ),
{
    let value = header_for(key);
    assert(value.subrange(0, token_prefix().len() as int) =~= token_prefix());
    assert(value.skip(token_prefix().len() as int) =~= key);
}

/// A request without an `Authorization` header, or with more than one, and a
/// request whose header does not begin with `Token `, is refused as
/// malformed, and the store is not asked.
pub proof fn malformed_request_is_refused(store: StoreModel, values: Seq<Seq<char>>)
    requires
        values.len() != 1 || !token_prefix().is_prefix_of(values[0]),
    ensures
        authenticate(store, values) == (Outcome {
            store,
            result: Err(
                AuthError::MalformedRequest(
                    if values.len() != 1 {
                        Malformation::HeaderCount
                    } else {
                        Malformation::MissingPrefix
                    },
                ),
            ),
        }),
{
}

/// Authenticating only reads: whatever is presented, the store holds
/// afterwards what it held before.
pub proof fn authentication_changes_nothing(store: StoreModel, values: Seq<Seq<char>>)
    ensures
        authenticate(store, values).store == store,
{
    reveal_with_fuel(run, 3);
}

/// Presenting a key that no token has is refused as not valid.
pub proof fn unknown_key_is_refused(store: StoreModel, key: Seq<char>)
    requires
        !store.holds_key(key),
    ensures
        authenticate(store, seq![header_for(key)]) == (Outcome {
            store,
            result: Err(AuthError::InvalidCredential),
        }),
{
    lemma_header_presents(key);
    lemma_absent_key_not_found(store, key);
    reveal_with_fuel(run, 2);
}

/// Presenting the key of a token that was just issued resolves to the user
/// it was issued to, provided the store has that user.
pub proof fn issued_key_resolves(
    store: StoreModel,
    user: UserView,
    now: i64,
    key: Seq<char>,
    row_id: i32,
)
    requires
        !store.holds_key(key),
        store.find_user(user.id) == Some(user),
    ensures
        ({
            let after = replaced(store, user.id, now, key, row_id);
            authenticate(after, seq![header_for(key)]) == Outcome {
                store: after,
                result: Ok(GrantedView::Authenticated(user)),
            }
        }),
{
    let after = replaced(store, user.id, now, key, row_id);
    let kept = store.without_tokens_of(user.id);
    lemma_header_presents(key);
    if kept.holds_key(key) {
        lemma_delete_adds_no_key(store, user.id, key);
    }
    lemma_absent_key_not_found(kept, key);
    lemma_lookup_after_issue(store, user.id, now, key, row_id, key);
    assert(after.find_token(key) == Some(
        TokenView { id: row_id, user_id: user.id, timestamp: now, key },
    ));
    reveal_with_fuel(run, 3);
}

/// Token replacement: when a user is issued a token and then another, the
/// two keys differ; afterwards the first key is refused as not valid, and
/// the second resolves to the user.
pub proof fn token_replacement(
    store: StoreModel,
    user: UserView,
    first_now: i64,
    first_candidates: spec_fn(nat) -> Seq<char>,
    first_row_id: i32,
    second_now: i64,
    second_candidates: spec_fn(nat) -> Seq<char>,
    second_row_id: i32,
)
    requires
        store.find_user(user.id) == Some(user),
    ensures
        ({
            let first = issue(store, user.id, first_now, first_candidates, first_row_id);
            let second = issue(
                first.store,
                user.id,
                second_now,
                second_candidates,
                second_row_id,
            );
            first.result matches Ok(GrantedView::Issued(first_key)) ==> (second.result matches Ok(
                GrantedView::Issued(second_key),
            ) ==> {
                &&& first_key != second_key
                &&& authenticate(second.store, seq![header_for(first_key)]) == Outcome {
                    store: second.store,
                    result: Err(AuthError::InvalidCredential),
                }
                &&& authenticate(second.store, seq![header_for(second_key)]) == Outcome {
                    store: second.store,
                    result: Ok(GrantedView::Authenticated(user)),
                }
            })
        }),
{
    let first = issue(store, user.id, first_now, first_candidates, first_row_id);
    let second = issue(first.store, user.id, second_now, second_candidates, second_row_id);
    issue_outcome(store, user.id, first_now, first_candidates, first_row_id);
    issue_outcome(first.store, user.id, second_now, second_candidates, second_row_id);
    first_free_is_free(store, first_candidates, 0);
    first_free_is_free(first.store, second_candidates, 0);
    if let Ok(GrantedView::Issued(first_key)) = first.result {
        if let Ok(GrantedView::Issued(second_key)) = second.result {
            let first_token = TokenView {
                id: first_row_id,
                user_id: user.id,
                timestamp: first_now,
                key: first_key,
            };
            assert(first.store == replaced(store, user.id, first_now, first_key, first_row_id));
            assert(second.store == replaced(
                first.store,
                user.id,
                second_now,
                second_key,
                second_row_id,
            ));
            assert(!store.holds_key(first_key));
            assert(!first.store.holds_key(second_key));
            // The first key is in the store when the second is chosen.
            let last = first.store.tokens.len() - 1;
            assert(first.store.tokens[last] == first_token);
            assert(first.store.holds_key(first_key));
            assert(first_key != second_key);
            // Only the user's own token had the first key, and it is deleted.
            if second.store.holds_key(first_key) {
                let kept = first.store.without_tokens_of(user.id);
                let i = choose|i: int|
                    0 <= i < second.store.tokens.len() && (#[trigger] second.store.tokens[i]).key
                        == first_key;
                assert(i < kept.tokens.len());
                assert(kept.tokens[i] == second.store.tokens[i]);
                assert(kept.holds_key(first_key));
                lemma_delete_adds_no_key(first.store, user.id, first_key);
                let j = choose|j: int|
                    0 <= j < first.store.tokens.len() && (#[trigger] first.store.tokens[j]).key
                        == first_key && first.store.tokens[j].user_id != user.id;
                assert(j < last);
                let old_kept = store.without_tokens_of(user.id);
                assert(old_kept.tokens[j] == first.store.tokens[j]);
                assert(old_kept.holds_key(first_key));
                lemma_delete_adds_no_key(store, user.id, first_key);
                assert(false);
            }
            unknown_key_is_refused(second.store, first_key);
            assert(first.store.find_user(user.id) == Some(user));
            issued_key_resolves(first.store, user, second_now, second_key, second_row_id);
        }
    }
}

/// Invalidating always succeeds, leaves the user without a token, and
/// changes nothing when it is done a second time.
pub proof fn invalidation_is_idempotent(store: StoreModel, user_id: i32)
    ensures
        invalidate(store, user_id) == (Outcome {
            store: store.without_tokens_of(user_id),
            result: Ok(GrantedView::Invalidated),
        }),
        store.without_tokens_of(user_id).tokens_of(user_id).len() == 0,
        invalidate(invalidate(store, user_id).store, user_id) == invalidate(store, user_id),
{
    broadcast use Seq::lemma_filter_contains_rev;

    reveal_with_fuel(run, 2);
    let once = store.without_tokens_of(user_id);
    let owned = |token: TokenView| token.user_id == user_id;
    let others = |token: TokenView| token.user_id != user_id;
    assert forall|token: TokenView| once.tokens.contains(token) implies !owned(token) by {}
    once.tokens.lemma_all_neg_filter_empty(owned);
    lemma_filter_keeps_all(once.tokens, others);
}

/// A filter that every item passes changes nothing.
proof fn lemma_filter_keeps_all<A>(items: Seq<A>, pred: spec_fn(A) -> bool)
    requires
        forall|item: A| items.contains(item) ==> pred(item),
    ensures
        items.filter(pred) == items,
    decreases items.len(),
{
    reveal_with_fuel(Seq::filter, 2);
    if items.len() > 0 {
        let front = items.drop_last();
        assert forall|item: A| front.contains(item) implies pred(item) by {
            let i = choose|i: int| 0 <= i < front.len() && front[i] == item;
            assert(front.len() == items.len() - 1);
            assert(items[i] == item);
            assert(items.contains(items[i]));
        }
        lemma_filter_keeps_all(front, pred);
        assert(items.contains(items.last()));
        assert(front.push(items.last()) =~= items);
    } else {
        assert(items.filter(pred) =~= items);
    }
}

/// Filtering twice by conditions that go together is filtering once.
proof fn lemma_filter_twice<A>(items: Seq<A>, first: spec_fn(A) -> bool, second: spec_fn(A) -> bool)
    requires
        forall|item: A| #[trigger] second(item) ==> first(item),
    ensures
        items.filter(first).filter(second) == items.filter(second),
    decreases items.len(),
{
    reveal_with_fuel(Seq::filter, 2);
    if items.len() > 0 {
        let front = items.drop_last();
        let last = items.last();
        lemma_filter_twice(front, first, second);
        if first(last) {
            assert(items.filter(first) =~= front.filter(first).push(last));
            assert(front.filter(first).push(last).drop_last() =~= front.filter(first));
        }
    } else {
        assert(items.filter(first) =~= Seq::<A>::empty());
    }
}

/// One live token per user: once a token is issued to a user, it is the only
/// token that the user has.
pub proof fn issued_token_is_the_only_one(
    store: StoreModel,
    user_id: i32,
    now: i64,
    key: Seq<char>,
    row_id: i32,
)
    ensures
        replaced(store, user_id, now, key, row_id).tokens_of(user_id) == seq![
            TokenView { id: row_id, user_id, timestamp: now, key },
        ],
{
    broadcast use Seq::lemma_filter_contains_rev;

    let issued = TokenView { id: row_id, user_id, timestamp: now, key };
    let owned = |token: TokenView| token.user_id == user_id;
    let kept = store.without_tokens_of(user_id).tokens;
    assert forall|token: TokenView| kept.contains(token) implies !owned(token) by {}
    kept.lemma_all_neg_filter_empty(owned);
    assert(kept.push(issued) =~= kept + seq![issued]);
    Seq::filter_distributes_over_add(kept, seq![issued], owned);
    reveal_with_fuel(Seq::filter, 2);
    assert(seq![issued].drop_last() =~= Seq::<TokenView>::empty());
    assert(seq![issued].filter(owned) =~= seq![issued]);
    assert(kept.filter(owned) + seq![issued] =~= seq![issued]);
}

/// No interference between users: issuing a token to one user leaves the
/// tokens of every other user as they were.
pub proof fn issuing_spares_other_users(
    store: StoreModel,
    user_id: i32,
    now: i64,
    key: Seq<char>,
    row_id: i32,
    other: i32,
)
    requires
        other != user_id,
    ensures
        replaced(store, user_id, now, key, row_id).tokens_of(other) == store.tokens_of(other),
        store.without_tokens_of(user_id).tokens_of(other) == store.tokens_of(other),
{
    let issued = TokenView { id: row_id, user_id, timestamp: now, key };
    let theirs = |token: TokenView| token.user_id == other;
    let not_ours = |token: TokenView| token.user_id != user_id;
    let kept = store.without_tokens_of(user_id).tokens;
    lemma_filter_twice(store.tokens, not_ours, theirs);
    assert(kept.push(issued) =~= kept + seq![issued]);
    Seq::filter_distributes_over_add(kept, seq![issued], theirs);
    reveal_with_fuel(Seq::filter, 2);
    assert(seq![issued].drop_last() =~= Seq::<TokenView>::empty());
    assert(seq![issued].filter(theirs) =~= Seq::<TokenView>::empty());
    assert(kept.filter(theirs) + Seq::<TokenView>::empty() =~= kept.filter(theirs));
}

/// Deleting rows keeps the keys of the rows that stay distinct.
proof fn lemma_delete_keeps_keys_unique(store: StoreModel, user_id: i32)
    requires
        store.keys_unique(),
    ensures
        store.without_tokens_of(user_id).keys_unique(),
    decreases store.tokens.len(),
{
    broadcast use Seq::lemma_filter_contains_rev;

    reveal_with_fuel(Seq::filter, 2);
    let not_ours = |token: TokenView| token.user_id != user_id;
    if store.tokens.len() > 0 {
        let front = StoreModel { tokens: store.tokens.drop_last(), users: store.users };
        let last = store.tokens.last();
        assert forall|i: int, j: int| 0 <= i < j < front.tokens.len() implies (
        #[trigger] front.tokens[i]).key != (#[trigger] front.tokens[j]).key by {
            assert(front.tokens[i] == store.tokens[i]);
            assert(front.tokens[j] == store.tokens[j]);
        }
        lemma_delete_keeps_keys_unique(front, user_id);
        let kept = front.without_tokens_of(user_id).tokens;
        if not_ours(last) {
            let all = store.without_tokens_of(user_id).tokens;
            assert(all =~= kept.push(last));
            assert forall|i: int, j: int| 0 <= i < j < all.len() implies (#[trigger] all[i]).key
                != (#[trigger] all[j]).key by {
                if j == kept.len() {
                    assert(kept.contains(kept[i]));
                    assert(front.tokens.contains(kept[i]));
                    let at = choose|at: int|
                        0 <= at < front.tokens.len() && front.tokens[at] == kept[i];
                    assert(store.tokens[at] == kept[i]);
                    assert(store.tokens[store.tokens.len() - 1] == last);
                } else {
                    assert(kept[i].key != kept[j].key);
                }
            }
        } else {
            assert(store.without_tokens_of(user_id).tokens =~= kept);
        }
    }
}

/// Keys stay unique: if no two tokens share a key, issuing a token whose key
/// no token has keeps it so. Issuing only ever inserts such a key, see
/// [`issue_outcome`] and [`first_free_is_free`].
pub proof fn issuing_keeps_keys_unique(
    store: StoreModel,
    user_id: i32,
    now: i64,
    key: Seq<char>,
    row_id: i32,
)
    requires
        store.keys_unique(),
        !store.holds_key(key),
    ensures
        replaced(store, user_id, now, key, row_id).keys_unique(),
{
    let kept = store.without_tokens_of(user_id);
    let after = replaced(store, user_id, now, key, row_id);
    lemma_delete_keeps_keys_unique(store, user_id);
    if kept.holds_key(key) {
        lemma_delete_adds_no_key(store, user_id, key);
    }
    assert forall|i: int, j: int| 0 <= i < j < after.tokens.len() implies (
    #[trigger] after.tokens[i]).key != (#[trigger] after.tokens[j]).key by {
        assert(after.tokens[i] == kept.tokens[i]);
        if j < kept.tokens.len() {
            assert(after.tokens[j] == kept.tokens[j]);
        }
    }
}

} // verus!
