//! The persistent state and its operations: the token registry, the mailbox,
//! and the key registry, behind one facade that takes the host's facts
//! (caller identity, attached payment, storage byte price, whether a state
//! already exists) as plain values and returns what the host must do (the
//! refund to schedule, the error to report).

use vstd::prelude::*;
use vstd::seq_lib::*;

use crate::errors::Error;
use crate::hashing::utf8_of;
use crate::token::{unique_seq, TokenView};

verus! {

/// Abstract form of the whole state.
pub struct ContractView {
    /// Pending request payload per directed edge `(from, to)`.
    pub requests: Map<(Seq<char>, Seq<char>), Seq<char>>,
    /// Pending response payload per directed edge `(from, to)`.
    pub responses: Map<(Seq<char>, Seq<char>), Seq<char>>,
    /// Encryption public key per account.
    pub encryption_public_keys: Map<Seq<char>, Seq<char>>,
    /// The account that minted each token; never rewritten.
    pub tokens_creators: Map<Seq<char>, Seq<char>>,
    /// The authoritative token record per token id.
    pub tokens_by_id: Map<Seq<char>, TokenView>,
    /// The ids each account currently owns; no entry for an empty set.
    pub tokens_per_owner: Map<Seq<char>, Seq<Seq<char>>>,
    /// The contract owner recorded at initialization.
    pub owner_id: Seq<char>,
    /// Count of minted tokens.
    pub total_supply: nat,
    /// Cached storage-overhead quote; informational only.
    pub extra_storage_in_bytes_per_token: nat,
}

/// The state right after initialization: all stores empty.
pub open spec fn init_view(owner_id: Seq<char>) -> ContractView {
    ContractView {
        requests: Map::empty(),
        responses: Map::empty(),
        encryption_public_keys: Map::empty(),
        tokens_creators: Map::empty(),
        tokens_by_id: Map::empty(),
        tokens_per_owner: Map::empty(),
        owner_id: owner_id,
        total_supply: 0,
        extra_storage_in_bytes_per_token: 0,
    }
}

/// Well-formed state: the supply counts the tokens, every token has a
/// creator record, and the per-owner index lists exactly each token under
/// its current owner, once, with no entry for an empty set.
pub open spec fn view_wf(s: ContractView) -> bool {
    &&& s.tokens_by_id.dom().finite()
    &&& s.total_supply == s.tokens_by_id.dom().len()
    &&& s.tokens_creators.dom() == s.tokens_by_id.dom()
    &&& forall|t: Seq<char>| #[trigger]
        s.tokens_by_id.contains_key(t) ==> s.tokens_per_owner.contains_key(
            s.tokens_by_id[t].owner_id,
        ) && s.tokens_per_owner[s.tokens_by_id[t].owner_id].contains(t)
    &&& forall|o: Seq<char>, t: Seq<char>|
        s.tokens_per_owner.contains_key(o) && #[trigger] s.tokens_per_owner[o].contains(t)
            ==> s.tokens_by_id.contains_key(t) && s.tokens_by_id[t].owner_id == o
    &&& forall|o: Seq<char>| #[trigger]
        s.tokens_per_owner.contains_key(o) ==> unique_seq(s.tokens_per_owner[o])
            && s.tokens_per_owner[o].len() > 0
}

/// The UTF-8 byte length of a string value.
pub open spec fn utf8_len(s: Seq<char>) -> nat {
    utf8_of(s).len()
}

/// Bytes charged per store entry beyond its key and value.
pub const STORAGE_ENTRY_COST: u64 = 40;

/// Bytes charged when an account's per-owner set is first created: its
/// metadata entry plus the 32-byte sub-prefix derived from the account.
pub const STORAGE_SET_COST: u64 = 72;

/// How many bytes the state grows by on a successful mint: one token
/// record, one creator entry, one per-owner item, and — for an account that
/// owns nothing yet — a fresh per-owner set.
pub open spec fn mint_storage_delta(
    s: ContractView,
    caller: Seq<char>,
    token_id: Seq<char>,
    metadata: Seq<char>,
) -> int {
    3 * (STORAGE_ENTRY_COST as int) + 3 * utf8_len(token_id) + 2 * utf8_len(caller) + utf8_len(
        metadata,
    ) + if s.tokens_per_owner.contains_key(caller) {
        0
    } else {
        (STORAGE_SET_COST as int) + utf8_len(caller)
    }
}

/// What a mint must be paid: the storage it consumes at the host's price
/// per byte.
pub open spec fn mint_required_deposit(
    s: ContractView,
    caller: Seq<char>,
    token_id: Seq<char>,
    metadata: Seq<char>,
    storage_byte_cost: u128,
) -> int {
    mint_storage_delta(s, caller, token_id, metadata) * (storage_byte_cost as int)
}

/// The per-owner ids of `caller` once `token_id` is added.
pub open spec fn owner_ids_with(
    s: ContractView,
    caller: Seq<char>,
    token_id: Seq<char>,
) -> Seq<Seq<char>> {
    if s.tokens_per_owner.contains_key(caller) {
        s.tokens_per_owner[caller].push(token_id)
    } else {
        seq![token_id]
    }
}

/// The state after a successful mint of `token_id` by `caller`.
pub open spec fn mint_view(
    s: ContractView,
    caller: Seq<char>,
    token_id: Seq<char>,
    metadata: Seq<char>,
) -> ContractView {
    ContractView {
        tokens_by_id: s.tokens_by_id.insert(
            token_id,
            TokenView {
                owner_id: caller,
                metadata: metadata,
                approved_account_ids: Seq::empty(),
            },
        ),
        tokens_creators: s.tokens_creators.insert(token_id, caller),
        tokens_per_owner: s.tokens_per_owner.insert(caller, owner_ids_with(s, caller, token_id)),
        total_supply: s.total_supply + 1,
        ..s
    }
}

/// What a mint returns: the excess deposit on success, the error otherwise.
pub open spec fn mint_result(
    s: ContractView,
    attached_deposit: u128,
    storage_byte_cost: u128,
    caller: Seq<char>,
    token_id: Seq<char>,
    metadata: Seq<char>,
) -> Result<u128, Error> {
    if s.tokens_by_id.contains_key(token_id) {
        Err(Error::TokenExists)
    } else if (attached_deposit as int) < mint_required_deposit(
        s,
        caller,
        token_id,
        metadata,
        storage_byte_cost,
    ) {
        Err(Error::InsufficientDeposit)
    } else {
        Ok((attached_deposit - mint_required_deposit(s, caller, token_id, metadata, storage_byte_cost)) as u128)
    }
}

/// Whether `caller` may transfer `token_id`: it is the owner or approved.
pub open spec fn transfer_authorized(s: ContractView, caller: Seq<char>, token_id: Seq<char>) -> bool {
    s.tokens_by_id.contains_key(token_id) && (s.tokens_by_id[token_id].owner_id == caller
        || s.tokens_by_id[token_id].approved_account_ids.contains(caller))
}

/// What a transfer returns, with failures checked in order: receiver
/// validity, presence, authorization, self-transfer.
pub open spec fn transfer_result(
    s: ContractView,
    caller: Seq<char>,
    receiver_id: Seq<char>,
    token_id: Seq<char>,
) -> Result<(), Error> {
    if receiver_id.len() == 0 {
        Err(Error::InvalidAccount)
    } else if !s.tokens_by_id.contains_key(token_id) {
        Err(Error::TokenMissing)
    } else if !transfer_authorized(s, caller, token_id) {
        Err(Error::Unauthorized)
    } else if s.tokens_by_id[token_id].owner_id == receiver_id {
        Err(Error::SelfTransfer)
    } else {
        Ok(())
    }
}

/// The state after a successful transfer of `token_id` to `receiver_id`:
/// the id leaves the previous owner's set (which disappears when emptied),
/// joins the receiver's, and the record changes owner and loses every
/// approval.
pub open spec fn transfer_view(
    s: ContractView,
    receiver_id: Seq<char>,
    token_id: Seq<char>,
) -> ContractView {
    let t = s.tokens_by_id[token_id];
    let prev_ids = s.tokens_per_owner[t.owner_id].remove_value(token_id);
    let po1 = if prev_ids.len() == 0 {
        s.tokens_per_owner.remove(t.owner_id)
    } else {
        s.tokens_per_owner.insert(t.owner_id, prev_ids)
    };
    let recv_ids = if po1.contains_key(receiver_id) {
        po1[receiver_id].push(token_id)
    } else {
        seq![token_id]
    };
    ContractView {
        tokens_by_id: s.tokens_by_id.insert(
            token_id,
            TokenView {
                owner_id: receiver_id,
                metadata: t.metadata,
                approved_account_ids: Seq::empty(),
            },
        ),
        tokens_per_owner: po1.insert(receiver_id, recv_ids),
        ..s
    }
}

/// The state after `caller` posts `payload` to `to`: the slot for the edge
/// `(caller, to)` is filled and any stale response on that edge is cleared.
pub open spec fn request_view(
    s: ContractView,
    caller: Seq<char>,
    to: Seq<char>,
    payload: Seq<char>,
) -> ContractView {
    ContractView {
        requests: s.requests.insert((caller, to), payload),
        responses: s.responses.remove((caller, to)),
        ..s
    }
}

/// The state after `caller` answers `peer`'s request: the response slot on
/// the edge `(peer, caller)` is filled; the request stays.
pub open spec fn respond_view(
    s: ContractView,
    peer: Seq<char>,
    caller: Seq<char>,
    payload: Seq<char>,
) -> ContractView {
    ContractView { responses: s.responses.insert((peer, caller), payload), ..s }
}

/// The state after `caller` publishes its encryption key.
pub open spec fn set_key_view(s: ContractView, caller: Seq<char>, key: Seq<char>) -> ContractView {
    ContractView {
        encryption_public_keys: s.encryption_public_keys.insert(caller, key),
        ..s
    }
}

/// A map lookup as an option.
pub open spec fn map_opt<K, V>(m: Map<K, V>, k: K) -> Option<V> {
    if m.contains_key(k) {
        Some(m[k])
    } else {
        None
    }
}

/// What `get_request(from, to)` reads.
pub open spec fn get_request_view(s: ContractView, from: Seq<char>, to: Seq<char>) -> Option<
    Seq<char>,
> {
    map_opt(s.requests, (from, to))
}

/// What `get_response(from, to)` reads.
pub open spec fn get_response_view(s: ContractView, from: Seq<char>, to: Seq<char>) -> Option<
    Seq<char>,
> {
    map_opt(s.responses, (from, to))
}

/// What `get_key(account)` reads.
pub open spec fn get_key_view(s: ContractView, account: Seq<char>) -> Option<Seq<char>> {
    map_opt(s.encryption_public_keys, account)
}

/// What `get_token(id)` reads.
pub open spec fn get_token_view(s: ContractView, token_id: Seq<char>) -> Option<TokenView> {
    map_opt(s.tokens_by_id, token_id)
}

/// What `get_token_creator(id)` reads.
pub open spec fn get_creator_view(s: ContractView, token_id: Seq<char>) -> Option<Seq<char>> {
    map_opt(s.tokens_creators, token_id)
}

/// Dropping a value from a list without repeats drops exactly its one
/// occurrence: membership facts for [`Seq::remove_value`].
pub proof fn lemma_remove_value_unique(l: Seq<Seq<char>>, v: Seq<char>)
    requires
        unique_seq(l),
        l.contains(v),
    ensures
        unique_seq(l.remove_value(v)),
        !l.remove_value(v).contains(v),
        forall|x: Seq<char>| x != v ==> (l.remove_value(v).contains(x) <==> l.contains(x)),
        l.remove_value(v).len() == l.len() - 1,
{
    l.index_of_first_ensures(v);
    let i = l.index_of_first(v)->Some_0;
    let r = l.remove(i);
    l.remove_ensures(i);
    assert forall|a: int, b: int| 0 <= a < b < r.len() implies r[a] != r[b] by {
        if b < i {
        } else if a < i {
            assert(r[a] == l[a] && r[b] == l[b + 1]);
        } else {
            assert(r[a] == l[a + 1] && r[b] == l[b + 1]);
        }
    }
    assert forall|x: Seq<char>| r.contains(x) implies l.contains(x) && (x == v ==> false) by {
        let j = choose|j: int| 0 <= j < r.len() && r[j] == x;
        if j < i {
            assert(l[j] == x);
            assert(l[j] != l[i]);
        } else {
            assert(l[j + 1] == x);
            assert(l[i] != l[j + 1]);
        }
    }
    assert forall|x: Seq<char>| x != v && l.contains(x) implies r.contains(x) by {
        let j = choose|j: int| 0 <= j < l.len() && l[j] == x;
        if j < i {
            assert(r[j] == x);
        } else {
            assert(j != i);
            assert(r[j - 1] == x);
        }
    }
}

/// A successful mint keeps the state well-formed: the supply grows with the
/// registry, the fresh token lands in its creator-owner's set, and no other
/// set changes.
pub proof fn lemma_mint_preserves_wf(
    s: ContractView,
    caller: Seq<char>,
    token_id: Seq<char>,
    metadata: Seq<char>,
)
    requires
        view_wf(s),
        !s.tokens_by_id.contains_key(token_id),
    ensures
        view_wf(mint_view(s, caller, token_id, metadata)),
{
    let s2 = mint_view(s, caller, token_id, metadata);
    let ids = owner_ids_with(s, caller, token_id);
    assert(s2.tokens_by_id.dom() =~= s.tokens_by_id.dom().insert(token_id));
    assert(s2.tokens_creators.dom() =~= s2.tokens_by_id.dom());
    assert(!s.tokens_per_owner.contains_key(caller) || !s.tokens_per_owner[caller].contains(
        token_id,
    ));
    assert(ids.contains(token_id)) by {
        assert(ids[ids.len() - 1] == token_id);
    }
    assert forall|t: Seq<char>| #[trigger] s2.tokens_by_id.contains_key(t) implies s2
        .tokens_per_owner.contains_key(s2.tokens_by_id[t].owner_id) && s2.tokens_per_owner[s2
        .tokens_by_id[t].owner_id].contains(t) by {
        if t != token_id {
            let o = s.tokens_by_id[t].owner_id;
            if o == caller {
                assert(s.tokens_per_owner[caller].contains(t));
                let j = choose|j: int|
                    0 <= j < s.tokens_per_owner[caller].len() && s.tokens_per_owner[caller][j]
                        == t;
                assert(ids[j] == t);
            }
        }
    }
    assert forall|o: Seq<char>, t: Seq<char>|
        s2.tokens_per_owner.contains_key(o) && #[trigger] s2.tokens_per_owner[o].contains(
            t,
        ) implies s2.tokens_by_id.contains_key(t) && s2.tokens_by_id[t].owner_id == o by {
        if o == caller {
            let j = choose|j: int| 0 <= j < ids.len() && ids[j] == t;
            if j < ids.len() - 1 {
                assert(s.tokens_per_owner.contains_key(caller));
                assert(s.tokens_per_owner[caller][j] == t);
                assert(s.tokens_per_owner[caller].contains(t));
                assert(s.tokens_by_id.contains_key(t) && s.tokens_by_id[t].owner_id == caller);
                assert(t != token_id);
            } else {
                assert(t == token_id);
            }
        } else {
            assert(s2.tokens_per_owner[o] == s.tokens_per_owner[o]);
            assert(s.tokens_per_owner[o].contains(t));
            assert(s.tokens_by_id.contains_key(t) && s.tokens_by_id[t].owner_id == o);
            assert(t != token_id);
        }
    }
    assert forall|o: Seq<char>| #[trigger] s2.tokens_per_owner.contains_key(o) implies unique_seq(
        s2.tokens_per_owner[o],
    ) && s2.tokens_per_owner[o].len() > 0 by {
        if o == caller {
            if s.tokens_per_owner.contains_key(caller) {
                let l = s.tokens_per_owner[caller];
                assert forall|a: int, b: int| 0 <= a < b < ids.len() implies ids[a] != ids[b] by {
                    if b == ids.len() - 1 {
                        assert(l.contains(l[a]));
                    }
                }
            }
        }
    }
}

/// A successful transfer keeps the state well-formed: the id moves from the
/// previous owner's set to the receiver's, emptied sets disappear, and the
/// supply is untouched.
pub proof fn lemma_transfer_preserves_wf(
    s: ContractView,
    caller: Seq<char>,
    receiver_id: Seq<char>,
    token_id: Seq<char>,
)
    requires
        view_wf(s),
        transfer_authorized(s, caller, token_id),
        s.tokens_by_id[token_id].owner_id != receiver_id,
    ensures
        view_wf(transfer_view(s, receiver_id, token_id)),
{
    let s2 = transfer_view(s, receiver_id, token_id);
    let t = s.tokens_by_id[token_id];
    let prev = t.owner_id;
    let l = s.tokens_per_owner[prev];
    let prev_ids = l.remove_value(token_id);
    let po1 = if prev_ids.len() == 0 {
        s.tokens_per_owner.remove(prev)
    } else {
        s.tokens_per_owner.insert(prev, prev_ids)
    };
    let recv_ids = if po1.contains_key(receiver_id) {
        po1[receiver_id].push(token_id)
    } else {
        seq![token_id]
    };
    assert(s.tokens_by_id.contains_key(token_id));
    assert(l.contains(token_id));
    lemma_remove_value_unique(l, token_id);
    assert(s2.tokens_by_id.dom() =~= s.tokens_by_id.dom());
    assert(!s.tokens_per_owner.contains_key(receiver_id) || !s.tokens_per_owner[receiver_id]
        .contains(token_id));
    assert(recv_ids.contains(token_id)) by {
        assert(recv_ids[recv_ids.len() - 1] == token_id);
    }
    assert forall|tk: Seq<char>| #[trigger] s2.tokens_by_id.contains_key(tk) implies s2
        .tokens_per_owner.contains_key(s2.tokens_by_id[tk].owner_id) && s2.tokens_per_owner[s2
        .tokens_by_id[tk].owner_id].contains(tk) by {
        if tk == token_id {
        } else {
            let o = s.tokens_by_id[tk].owner_id;
            assert(s.tokens_per_owner[o].contains(tk));
            if o == prev {
                assert(tk != token_id);
                assert(prev_ids.contains(tk));
                assert(prev_ids.len() > 0);
                assert(s2.tokens_per_owner[prev] == prev_ids);
            } else if o == receiver_id {
                assert(po1[receiver_id] == s.tokens_per_owner[receiver_id]);
                let j = choose|j: int|
                    0 <= j < po1[receiver_id].len() && po1[receiver_id][j] == tk;
                assert(recv_ids[j] == tk);
            } else {
                assert(s2.tokens_per_owner[o] == s.tokens_per_owner[o]);
            }
        }
    }
    assert forall|o: Seq<char>, tk: Seq<char>|
        s2.tokens_per_owner.contains_key(o) && #[trigger] s2.tokens_per_owner[o].contains(
            tk,
        ) implies s2.tokens_by_id.contains_key(tk) && s2.tokens_by_id[tk].owner_id == o by {
        if o == receiver_id {
            let j = choose|j: int| 0 <= j < recv_ids.len() && recv_ids[j] == tk;
            if po1.contains_key(receiver_id) && j < recv_ids.len() - 1 {
                assert(s.tokens_per_owner[receiver_id][j] == tk);
                assert(s.tokens_per_owner[receiver_id].contains(tk));
                assert(tk != token_id);
            } else {
                assert(tk == token_id);
            }
        } else if o == prev {
            assert(s2.tokens_per_owner[prev] == prev_ids);
            assert(prev_ids.contains(tk));
            assert(tk != token_id);
            assert(l.contains(tk));
        } else {
            assert(s2.tokens_per_owner[o] == s.tokens_per_owner[o]);
            assert(s.tokens_per_owner[o].contains(tk));
            assert(s.tokens_by_id[tk].owner_id == o);
            assert(tk != token_id);
        }
    }
    assert forall|o: Seq<char>| #[trigger] s2.tokens_per_owner.contains_key(o) implies unique_seq(
        s2.tokens_per_owner[o],
    ) && s2.tokens_per_owner[o].len() > 0 by {
        if o == receiver_id {
            if po1.contains_key(receiver_id) {
                let rl = s.tokens_per_owner[receiver_id];
                assert(!rl.contains(token_id));
                assert forall|a: int, b: int|
                    0 <= a < b < recv_ids.len() implies recv_ids[a] != recv_ids[b] by {
                    if b == recv_ids.len() - 1 {
                        assert(rl.contains(rl[a]));
                    }
                }
            }
        } else if o == prev {
            assert(s2.tokens_per_owner[prev] == prev_ids);
        }
    }
}

} // verus!
