//! The laws the operations obey, stated over the abstract transitions of
//! [`crate::state`] and proved for every state and every input. Together
//! with the well-formedness preserved by every operation —
//! [`crate::state::lemma_mint_preserves_wf`] and
//! [`crate::state::lemma_transfer_preserves_wf`] — these pin down the
//! registry, the mailbox and the keyring.

use vstd::prelude::*;

use crate::state::{
    get_creator_view, get_key_view, get_request_view, get_response_view, get_token_view,
    mint_view, request_view, respond_view, set_key_view, transfer_view, view_wf, ContractView,
};
use crate::token::TokenView;

verus! {

/// In a well-formed state the supply is the number of tokens in the
/// registry.
pub proof fn lemma_supply_matches_registry(s: ContractView)
    requires
        view_wf(s),
    ensures
        s.total_supply == s.tokens_by_id.dom().len(),
{
}

/// In a well-formed state every token lies in its current owner's set.
pub proof fn lemma_token_in_owner_set(s: ContractView, token_id: Seq<char>)
    requires
        view_wf(s),
        s.tokens_by_id.contains_key(token_id),
    ensures
        s.tokens_per_owner.contains_key(s.tokens_by_id[token_id].owner_id),
        s.tokens_per_owner[s.tokens_by_id[token_id].owner_id].contains(token_id),
{
}

/// In a well-formed state no token lies in any set but its owner's: an
/// account whose set holds the id is the owner.
pub proof fn lemma_token_in_no_other_set(s: ContractView, token_id: Seq<char>, account: Seq<char>)
    requires
        view_wf(s),
        s.tokens_per_owner.contains_key(account),
        s.tokens_per_owner[account].contains(token_id),
    ensures
        s.tokens_by_id.contains_key(token_id),
        s.tokens_by_id[token_id].owner_id == account,
{
}

/// Publishing a key and reading it back returns exactly that key.
pub proof fn lemma_set_key_then_get(s: ContractView, caller: Seq<char>, key: Seq<char>)
    ensures
        get_key_view(set_key_view(s, caller, key), caller) == Some(key),
{
}

/// Publishing a key leaves every other account's key as it was: an account
/// reads the last value it set itself, whatever anyone else does.
pub proof fn lemma_set_key_other(
    s: ContractView,
    caller: Seq<char>,
    other: Seq<char>,
    key: Seq<char>,
)
    requires
        other != caller,
    ensures
        get_key_view(set_key_view(s, caller, key), other) == get_key_view(s, other),
{
}

/// Right after a request, the edge carries that request and no response:
/// a fresh request never appears to be already answered.
pub proof fn lemma_request_then_get(
    s: ContractView,
    caller: Seq<char>,
    to: Seq<char>,
    payload: Seq<char>,
)
    ensures
        get_request_view(request_view(s, caller, to, payload), caller, to) == Some(payload),
        get_response_view(request_view(s, caller, to, payload), caller, to) == None::<Seq<char>>,
{
}

/// A request touches no other directed edge: the opposite direction reads
/// as before.
pub proof fn lemma_request_other_edge(
    s: ContractView,
    caller: Seq<char>,
    to: Seq<char>,
    payload: Seq<char>,
    from2: Seq<char>,
    to2: Seq<char>,
)
    requires
        (from2, to2) != (caller, to),
    ensures
        get_request_view(request_view(s, caller, to, payload), from2, to2) == get_request_view(
            s,
            from2,
            to2,
        ),
{
}

/// A request followed by its answer leaves both slots of the edge filled:
/// the answer arrives and the question stays.
pub proof fn lemma_request_then_respond(
    s: ContractView,
    from: Seq<char>,
    to: Seq<char>,
    request: Seq<char>,
    response: Seq<char>,
)
    ensures
        get_response_view(
            respond_view(request_view(s, from, to, request), from, to, response),
            from,
            to,
        ) == Some(response),
        get_request_view(
            respond_view(request_view(s, from, to, request), from, to, response),
            from,
            to,
        ) == Some(request),
{
}

/// Right after a mint, the token reads back as freshly made: owned by the
/// minter, carrying the given metadata, approving nobody — and the minter
/// is recorded as its creator.
pub proof fn lemma_mint_then_get(
    s: ContractView,
    caller: Seq<char>,
    token_id: Seq<char>,
    metadata: Seq<char>,
)
    ensures
        get_token_view(mint_view(s, caller, token_id, metadata), token_id) == Some(
            TokenView {
                owner_id: caller,
                metadata: metadata,
                approved_account_ids: Seq::empty(),
            },
        ),
        get_creator_view(mint_view(s, caller, token_id, metadata), token_id) == Some(caller),
{
}

/// Right after a transfer, the token belongs to the receiver and approves
/// nobody.
pub proof fn lemma_transfer_then_get(
    s: ContractView,
    receiver_id: Seq<char>,
    token_id: Seq<char>,
)
    requires
        s.tokens_by_id.contains_key(token_id),
    ensures
        get_token_view(transfer_view(s, receiver_id, token_id), token_id) matches Some(t)
            && t.owner_id == receiver_id && t.approved_account_ids.len() == 0,
{
}

/// A creator record, once written, never changes: a transfer leaves the
/// whole creator index alone, and a mint writes only the fresh id's entry.
pub proof fn lemma_creators_immutable(
    s: ContractView,
    caller: Seq<char>,
    receiver_id: Seq<char>,
    token_id: Seq<char>,
    metadata: Seq<char>,
)
    requires
        !s.tokens_creators.contains_key(token_id),
    ensures
        transfer_view(s, receiver_id, token_id).tokens_creators == s.tokens_creators,
        forall|t: Seq<char>| #[trigger]
            s.tokens_creators.contains_key(t) ==> mint_view(
                s,
                caller,
                token_id,
                metadata,
            ).tokens_creators.contains_key(t) && mint_view(
                s,
                caller,
                token_id,
                metadata,
            ).tokens_creators[t] == s.tokens_creators[t],
{
    assert forall|t: Seq<char>| #[trigger] s.tokens_creators.contains_key(t) implies mint_view(
        s,
        caller,
        token_id,
        metadata,
    ).tokens_creators.contains_key(t) && mint_view(s, caller, token_id, metadata).tokens_creators[t]
        == s.tokens_creators[t] by {
    }
}

} // verus!
