//! The executable state and its operations, each proved against the
//! abstract transitions of [`crate::state`].

use vstd::prelude::*;

use crate::errors::Error;
use crate::pair_map::PairMap;
use crate::state::{
    get_creator_view, get_key_view, get_request_view, get_response_view, get_token_view,
    init_view, lemma_mint_preserves_wf, lemma_transfer_preserves_wf, mint_required_deposit,
    mint_result, mint_storage_delta, mint_view, owner_ids_with, request_view, respond_view,
    set_key_view, transfer_result, transfer_view, utf8_len, view_wf,
    ContractView,
    STORAGE_ENTRY_COST, STORAGE_SET_COST,
};
use crate::str_map::{
    lemma_assoc_map_contains, lemma_assoc_map_index, lemma_assoc_map_len, StrMap,
};
use crate::token::{clone_string_vec, contains_string, remove_string, Token};

verus! {

/// The whole persistent state. The host serialises invocations, so each
/// operation below runs atomically; an operation that returns an error has
/// left every store as it found it.
pub struct Contract {
    /// Pending request payload per directed edge.
    pub requests: PairMap,
    /// Pending response payload per directed edge.
    pub responses: PairMap,
    /// Encryption public key per account.
    pub encryption_public_keys: StrMap<String>,
    /// The account that minted each token; written once at mint.
    pub tokens_creators: StrMap<String>,
    /// The authoritative token record per token id.
    pub tokens_by_id: StrMap<Token>,
    /// The ids each account currently owns; entries vanish when emptied.
    pub tokens_per_owner: StrMap<Vec<String>>,
    /// The contract owner recorded at initialization.
    pub owner_id: String,
    /// Count of minted tokens.
    pub total_supply: u64,
    /// Cached storage-overhead quote; informational only.
    pub extra_storage_in_bytes_per_token: u64,
}

impl View for Contract {
    type V = ContractView;

    open spec fn view(&self) -> ContractView {
        ContractView {
            requests: self.requests@,
            responses: self.responses@,
            encryption_public_keys: self.encryption_public_keys@,
            tokens_creators: self.tokens_creators@,
            tokens_by_id: self.tokens_by_id@,
            tokens_per_owner: self.tokens_per_owner@,
            owner_id: self.owner_id@,
            total_supply: self.total_supply as nat,
            extra_storage_in_bytes_per_token: self.extra_storage_in_bytes_per_token as nat,
        }
    }
}

impl Contract {
    /// Well-formed: every store keeps unique keys and the abstract state
    /// satisfies the registry invariants.
    pub open spec fn wf(&self) -> bool {
        &&& self.requests.inv()
        &&& self.responses.inv()
        &&& self.encryption_public_keys.inv()
        &&& self.tokens_creators.inv()
        &&& self.tokens_by_id.inv()
        &&& self.tokens_per_owner.inv()
        &&& view_wf(self@)
    }

    /// Creates the state exactly once, recording the contract owner. The
    /// host says whether a state already exists; a second creation is
    /// refused, as is an empty owner identifier.
    pub fn new(owner_id: String, state_exists: bool) -> (r: Result<Contract, Error>)
        ensures
            state_exists ==> (r matches Err(e) && e == Error::AlreadyInitialized),
            !state_exists && owner_id@.len() == 0 ==> (r matches Err(e) && e
                == Error::InvalidAccount),
            !state_exists && owner_id@.len() > 0 ==> (r matches Ok(c) && c.wf() && c@ == init_view(
                owner_id@,
            )),
    {
        if state_exists {
            return Err(Error::AlreadyInitialized);
        }
        if owner_id.as_str().is_empty() {
            return Err(Error::InvalidAccount);
        }
        let c = Contract {
            requests: PairMap::new(),
            responses: PairMap::new(),
            encryption_public_keys: StrMap::new(),
            tokens_creators: StrMap::new(),
            tokens_by_id: StrMap::new(),
            tokens_per_owner: StrMap::new(),
            owner_id: owner_id,
            total_supply: 0,
            extra_storage_in_bytes_per_token: 0,
        };
        proof {
            assert(c@.tokens_by_id.dom() =~= Set::<Seq<char>>::empty());
            assert(c@.tokens_creators.dom() =~= c@.tokens_by_id.dom());
            assert(c@ == init_view(c.owner_id@));
        }
        Ok(c)
    }

    /// Posts `request` on the edge from `caller` to `to_account_id` and
    /// clears any stale response there: a fresh request must not appear to
    /// already be answered.
    pub fn request(&mut self, caller: String, to_account_id: String, request: String)
        requires
            old(self).wf(),
            caller@.len() > 0,
        ensures
            final(self).wf(),
            final(self)@ == request_view(old(self)@, caller@, to_account_id@, request@),
    {
        self.responses.remove(&caller, &to_account_id);
        self.requests.insert(caller, to_account_id, request);
    }

    /// The pending request on the edge `(from, to)`, if any.
    pub fn get_request(&self, from_account_id: String, to_account_id: String) -> (r: Option<
        String,
    >)
        requires
            self.wf(),
        ensures
            r.deep_view() == get_request_view(self@, from_account_id@, to_account_id@),
    {
        match self.requests.get(&from_account_id, &to_account_id) {
            Some(p) => Some(p.clone()),
            None => None,
        }
    }

    /// Answers the request `to_account_id` sent to `caller`: fills the
    /// response slot on the same directed edge the requester used.
    pub fn respond(&mut self, caller: String, to_account_id: String, response: String)
        requires
            old(self).wf(),
            caller@.len() > 0,
        ensures
            final(self).wf(),
            final(self)@ == respond_view(old(self)@, to_account_id@, caller@, response@),
    {
        self.responses.insert(to_account_id, caller, response);
        proof {
            assert(view_wf(self@));
        }
    }

    /// The pending response on the edge `(from, to)`, if any.
    pub fn get_response(&self, from_account_id: String, to_account_id: String) -> (r: Option<
        String,
    >)
        requires
            self.wf(),
        ensures
            r.deep_view() == get_response_view(self@, from_account_id@, to_account_id@),
    {
        match self.responses.get(&from_account_id, &to_account_id) {
            Some(p) => Some(p.clone()),
            None => None,
        }
    }

    /// Publishes `caller`'s encryption public key, replacing any prior one.
    pub fn set_key(&mut self, caller: String, key: String)
        requires
            old(self).wf(),
            caller@.len() > 0,
        ensures
            final(self).wf(),
            final(self)@ == set_key_view(old(self)@, caller@, key@),
    {
        self.encryption_public_keys.insert(caller, key);
    }

    /// The encryption public key an account last published, if any.
    pub fn get_key(&self, account_id: String) -> (r: Option<String>)
        requires
            self.wf(),
        ensures
            r.deep_view() == get_key_view(self@, account_id@),
    {
        match self.encryption_public_keys.get(&account_id) {
            Some(k) => Some(k.clone()),
            None => None,
        }
    }

    /// Posts `request` to the current owner of `token_id`, from `caller`:
    /// the intended way to reach whoever now holds the piece. An unknown
    /// token is refused.
    pub fn request_by_token(&mut self, caller: String, token_id: String, request: String) -> (r:
        Result<(), Error>)
        requires
            old(self).wf(),
            caller@.len() > 0,
        ensures
            final(self).wf(),
            old(self)@.tokens_by_id.contains_key(token_id@) ==> r == Ok::<(), Error>(())
                && final(self)@ == request_view(
                old(self)@,
                caller@,
                old(self)@.tokens_by_id[token_id@].owner_id,
                request@,
            ),
            !old(self)@.tokens_by_id.contains_key(token_id@) ==> r == Err::<(), Error>(
                Error::TokenMissing,
            ) && final(self)@ == old(self)@,
    {
        let to_account_id = match self.tokens_by_id.get(&token_id) {
            None => {
                return Err(Error::TokenMissing);
            },
            Some(t) => t.owner_id.clone(),
        };
        self.request(caller, to_account_id, request);
        Ok(())
    }

    /// The pending request on the edge from the creator of `token_id` to
    /// `to_account_id`. By design the sender is resolved through the
    /// creator, while [`Contract::request_by_token`] addresses the current
    /// owner: after a resale the two ends differ on purpose, to keep stored
    /// edges readable. An unknown token is refused.
    pub fn get_request_by_token(&self, to_account_id: String, token_id: String) -> (r: Result<
        Option<String>,
        Error,
    >)
        requires
            self.wf(),
        ensures
            self@.tokens_creators.contains_key(token_id@) ==> (r matches Ok(o) && o.deep_view()
                == get_request_view(self@, self@.tokens_creators[token_id@], to_account_id@)),
            !self@.tokens_creators.contains_key(token_id@) ==> r == Err::<Option<String>, Error>(
                Error::TokenMissing,
            ),
    {
        let from_account_id = match self.tokens_creators.get(&token_id) {
            None => {
                return Err(Error::TokenMissing);
            },
            Some(c) => c,
        };
        match self.requests.get(from_account_id, &to_account_id) {
            Some(p) => Ok(Some(p.clone())),
            None => Ok(None),
        }
    }

    /// Posts `response` from `caller` on the edge the creator of
    /// `token_id` used to reach them. An unknown token is refused.
    pub fn respond_by_token(&mut self, caller: String, token_id: String, response: String) -> (r:
        Result<(), Error>)
        requires
            old(self).wf(),
            caller@.len() > 0,
        ensures
            final(self).wf(),
            old(self)@.tokens_creators.contains_key(token_id@) ==> r == Ok::<(), Error>(())
                && final(self)@ == respond_view(
                old(self)@,
                old(self)@.tokens_creators[token_id@],
                caller@,
                response@,
            ),
            !old(self)@.tokens_creators.contains_key(token_id@) ==> r == Err::<(), Error>(
                Error::TokenMissing,
            ) && final(self)@ == old(self)@,
    {
        let from_account_id = match self.tokens_creators.get(&token_id) {
            None => {
                return Err(Error::TokenMissing);
            },
            Some(c) => c.clone(),
        };
        self.respond(caller, from_account_id, response);
        Ok(())
    }

    /// The pending response on the edge from `from_account_id` to the
    /// current owner of `token_id`. An unknown token is refused.
    pub fn get_response_by_token(&self, from_account_id: String, token_id: String) -> (r: Result<
        Option<String>,
        Error,
    >)
        requires
            self.wf(),
        ensures
            self@.tokens_by_id.contains_key(token_id@) ==> (r matches Ok(o) && o.deep_view()
                == get_response_view(
                self@,
                from_account_id@,
                self@.tokens_by_id[token_id@].owner_id,
            )),
            !self@.tokens_by_id.contains_key(token_id@) ==> r == Err::<Option<String>, Error>(
                Error::TokenMissing,
            ),
    {
        let token = match self.tokens_by_id.get(&token_id) {
            None => {
                return Err(Error::TokenMissing);
            },
            Some(t) => t,
        };
        match self.responses.get(&from_account_id, &token.owner_id) {
            Some(p) => Ok(Some(p.clone())),
            None => Ok(None),
        }
    }

    /// The encryption key of the current owner of `token_id`, if any; the
    /// creator uses this to encrypt a request to whoever holds the piece.
    /// An unknown token is refused.
    pub fn get_key_by_token_owner(&self, token_id: String) -> (r: Result<Option<String>, Error>)
        requires
            self.wf(),
        ensures
            self@.tokens_by_id.contains_key(token_id@) ==> (r matches Ok(o) && o.deep_view()
                == get_key_view(self@, self@.tokens_by_id[token_id@].owner_id)),
            !self@.tokens_by_id.contains_key(token_id@) ==> r == Err::<Option<String>, Error>(
                Error::TokenMissing,
            ),
    {
        let token = match self.tokens_by_id.get(&token_id) {
            None => {
                return Err(Error::TokenMissing);
            },
            Some(t) => t,
        };
        match self.encryption_public_keys.get(&token.owner_id) {
            Some(k) => Ok(Some(k.clone())),
            None => Ok(None),
        }
    }

    /// The encryption key of the creator of `token_id`, if any. An unknown
    /// token is refused.
    pub fn get_key_by_token_creator(&self, token_id: String) -> (r: Result<Option<String>, Error>)
        requires
            self.wf(),
        ensures
            self@.tokens_creators.contains_key(token_id@) ==> (r matches Ok(o) && o.deep_view()
                == get_key_view(self@, self@.tokens_creators[token_id@])),
            !self@.tokens_creators.contains_key(token_id@) ==> r == Err::<Option<String>, Error>(
                Error::TokenMissing,
            ),
    {
        let creator = match self.tokens_creators.get(&token_id) {
            None => {
                return Err(Error::TokenMissing);
            },
            Some(c) => c,
        };
        match self.encryption_public_keys.get(creator) {
            Some(k) => Ok(Some(k.clone())),
            None => Ok(None),
        }
    }

    /// Every token with its id: a full dump, one entry per minted token,
    /// each matching the stored record. Linear in the registry; meant for
    /// small deployments and tests.
    pub fn get_tokens(&self) -> (r: Vec<(String, Token)>)
        requires
            self.wf(),
        ensures
            r@.len() == self@.tokens_by_id.dom().len(),
            forall|i: int|
                0 <= i < r@.len() ==> #[trigger] self@.tokens_by_id.contains_key(r@[i].0@) && r@[i]
                    .1.deep_view() == self@.tokens_by_id[r@[i].0@],
            forall|k: Seq<char>| #[trigger]
                self@.tokens_by_id.contains_key(k) ==> exists|i: int|
                    0 <= i < r@.len() && r@[i].0@ == k,
    {
        let n = self.tokens_by_id.entries.len();
        let mut r: Vec<(String, Token)> = Vec::new();
        let mut i: usize = 0;
        while i < n
            invariant
                self.wf(),
                n == self.tokens_by_id.entries@.len(),
                i <= n,
                r@.len() == i,
                forall|j: int|
                    0 <= j < i ==> #[trigger] r@[j].0@ == self.tokens_by_id.entries@[j].0@
                        && r@[j].1.deep_view() == self.tokens_by_id.entries@[j].1.deep_view(),
            decreases n - i,
        {
            let entry = &self.tokens_by_id.entries[i];
            r.push((entry.0.clone(), entry.1.duplicate()));
            i = i + 1;
        }
        proof {
            lemma_assoc_map_len(self.tokens_by_id.entries@);
            assert forall|j: int|
                0 <= j < r@.len() implies #[trigger] self@.tokens_by_id.contains_key(r@[j].0@)
                && r@[j].1.deep_view() == self@.tokens_by_id[r@[j].0@] by {
                lemma_assoc_map_index(self.tokens_by_id.entries@, j);
            }
            assert forall|k: Seq<char>| #[trigger]
                self@.tokens_by_id.contains_key(k) implies exists|i2: int|
                0 <= i2 < r@.len() && r@[i2].0@ == k by {
                lemma_assoc_map_contains(self.tokens_by_id.entries@, k);
                let j = choose|j: int|
                    0 <= j < self.tokens_by_id.entries@.len() && self.tokens_by_id.entries@[j].0@
                        == k;
                assert(r@[j].0@ == k);
            }
        }
        r
    }

    /// The token stored under `token_id`, if any.
    pub fn get_token(&self, token_id: String) -> (r: Option<Token>)
        requires
            self.wf(),
        ensures
            r.deep_view() == get_token_view(self@, token_id@),
    {
        match self.tokens_by_id.get(&token_id) {
            Some(t) => Some(t.duplicate()),
            None => None,
        }
    }

    /// The deposit a mint of `token_id` with `metadata` by `caller` would
    /// need right now, at the given price per byte; `None` when the product
    /// does not fit the host's value width.
    pub fn required_mint_deposit(
        &self,
        caller: &String,
        token_id: &String,
        metadata: &String,
        storage_byte_cost: u128,
    ) -> (r: Option<u128>)
        requires
            self.wf(),
            utf8_len(caller@) <= usize::MAX,
            utf8_len(token_id@) <= usize::MAX,
            utf8_len(metadata@) <= usize::MAX,
        ensures
            match r {
                Some(c) => c == mint_required_deposit(
                    self@,
                    caller@,
                    token_id@,
                    metadata@,
                    storage_byte_cost,
                ),
                None => mint_required_deposit(
                    self@,
                    caller@,
                    token_id@,
                    metadata@,
                    storage_byte_cost,
                ) > u128::MAX,
            },
    {
        let had_set = self.tokens_per_owner.contains_key(caller);
        let id_len = token_id.as_str().len() as u128;
        let caller_len = caller.as_str().len() as u128;
        let md_len = metadata.as_str().len() as u128;
        let base: u128 = 3 * (STORAGE_ENTRY_COST as u128) + 3 * id_len + 2 * caller_len + md_len;
        let delta: u128 = if had_set {
            base
        } else {
            base + (STORAGE_SET_COST as u128) + caller_len
        };
        proof {
            assert(delta as int == mint_storage_delta(self@, caller@, token_id@, metadata@));
        }
        delta.checked_mul(storage_byte_cost)
    }

    /// Mints `token_id` with `metadata` for `caller`: the caller becomes
    /// owner and creator, the supply grows by one, and the attached value
    /// must cover the storage the mint consumes at the host's price per
    /// byte; the excess comes back as the refund the host must schedule.
    /// A known id is refused, as is a short deposit, leaving the state
    /// untouched.
    pub fn mint(
        &mut self,
        caller: String,
        attached_deposit: u128,
        storage_byte_cost: u128,
        token_id: String,
        metadata: String,
    ) -> (r: Result<u128, Error>)
        requires
            old(self).wf(),
            caller@.len() > 0,
            token_id@.len() > 0,
            utf8_len(caller@) <= usize::MAX,
            utf8_len(token_id@) <= usize::MAX,
            utf8_len(metadata@) <= usize::MAX,
        ensures
            final(self).wf(),
            r == mint_result(
                old(self)@,
                attached_deposit,
                storage_byte_cost,
                caller@,
                token_id@,
                metadata@,
            ),
            r is Ok ==> final(self)@ == mint_view(old(self)@, caller@, token_id@, metadata@),
            r is Err ==> final(self)@ == old(self)@,
    {
        if self.tokens_by_id.contains_key(&token_id) {
            return Err(Error::TokenExists);
        }
        let required = match self.required_mint_deposit(
            &caller,
            &token_id,
            &metadata,
            storage_byte_cost,
        ) {
            None => {
                return Err(Error::InsufficientDeposit);
            },
            Some(c) => c,
        };
        if attached_deposit < required {
            return Err(Error::InsufficientDeposit);
        }
        let ghost pre = self@;
        let ghost cv = caller@;
        let ghost idv = token_id@;
        let ghost mdv = metadata@;
        let token = Token {
            owner_id: caller.clone(),
            metadata: metadata,
            approved_account_ids: Vec::new(),
        };
        proof {
            assert(token.deep_view().approved_account_ids =~= Seq::<Seq<char>>::empty());
        }
        self.tokens_by_id.insert(token_id.clone(), token);
        self.tokens_creators.insert(token_id.clone(), caller.clone());
        let mut ids: Vec<String> = match self.tokens_per_owner.get(&caller) {
            Some(v) => clone_string_vec(v),
            None => Vec::new(),
        };
        let ghost ids_pre = ids.deep_view();
        ids.push(token_id);
        proof {
            assert(ids.deep_view() =~= ids_pre.push(idv));
            assert(ids.deep_view() =~= owner_ids_with(pre, cv, idv));
        }
        self.tokens_per_owner.insert(caller, ids);
        let n = self.tokens_by_id.len();
        proof {
            assert(self.tokens_by_id@.dom() =~= pre.tokens_by_id.dom().insert(idv));
        }
        self.total_supply = n as u64;
        proof {
            assert(self@ == mint_view(pre, cv, idv, mdv));
            lemma_mint_preserves_wf(pre, cv, idv, mdv);
        }
        Ok(attached_deposit - required)
    }

    /// Moves `token_id` to `receiver_id`: the caller must be the owner or
    /// approved, the receiver must differ from the owner, the id changes
    /// sets in the per-owner index, and every approval on the token is
    /// cleared. The approval id and memo ride along for interface
    /// compatibility; storage keeps neither.
    pub fn nft_transfer(
        &mut self,
        caller: String,
        receiver_id: String,
        token_id: String,
        _approval_id: Option<u64>,
        _memo: Option<String>,
    ) -> (r: Result<(), Error>)
        requires
            old(self).wf(),
            caller@.len() > 0,
        ensures
            final(self).wf(),
            r == transfer_result(old(self)@, caller@, receiver_id@, token_id@),
            r is Ok ==> final(self)@ == transfer_view(old(self)@, receiver_id@, token_id@),
            r is Err ==> final(self)@ == old(self)@,
    {
        if receiver_id.as_str().is_empty() {
            return Err(Error::InvalidAccount);
        }
        let token = match self.tokens_by_id.get(&token_id) {
            None => {
                return Err(Error::TokenMissing);
            },
            Some(t) => t.duplicate(),
        };
        let authorized = caller == token.owner_id || contains_string(
            &token.approved_account_ids,
            &caller,
        );
        if !authorized {
            return Err(Error::Unauthorized);
        }
        if receiver_id == token.owner_id {
            return Err(Error::SelfTransfer);
        }
        let ghost pre = self@;
        let ghost cv = caller@;
        let ghost rv = receiver_id@;
        let ghost idv = token_id@;
        let prev = token.owner_id;
        proof {
            assert(pre.tokens_by_id.contains_key(idv));
            assert(pre.tokens_per_owner.contains_key(prev@));
            assert(pre.tokens_per_owner[prev@].contains(idv));
        }
        let mut prev_ids: Vec<String> = match self.tokens_per_owner.get(&prev) {
            Some(v) => clone_string_vec(v),
            None => {
                proof {
                    assert(false);
                }
                Vec::new()
            },
        };
        remove_string(&mut prev_ids, &token_id);
        if prev_ids.is_empty() {
            self.tokens_per_owner.remove(&prev);
        } else {
            self.tokens_per_owner.insert(prev, prev_ids);
        }
        let ghost po1 = self@.tokens_per_owner;
        let mut recv_ids: Vec<String> = match self.tokens_per_owner.get(&receiver_id) {
            Some(v) => clone_string_vec(v),
            None => Vec::new(),
        };
        let ghost recv_pre = recv_ids.deep_view();
        recv_ids.push(token_id.clone());
        proof {
            assert(recv_ids.deep_view() =~= recv_pre.push(idv));
            if po1.contains_key(rv) {
                assert(recv_ids.deep_view() =~= po1[rv].push(idv));
            } else {
                assert(recv_ids.deep_view() =~= seq![idv]);
            }
        }
        self.tokens_per_owner.insert(receiver_id.clone(), recv_ids);
        let new_token = Token {
            owner_id: receiver_id,
            metadata: token.metadata,
            approved_account_ids: Vec::new(),
        };
        proof {
            assert(new_token.deep_view().approved_account_ids =~= Seq::<Seq<char>>::empty());
        }
        self.tokens_by_id.insert(token_id, new_token);
        proof {
            assert(self@.tokens_by_id =~= transfer_view(pre, rv, idv).tokens_by_id);
            assert(self@.tokens_per_owner =~= transfer_view(pre, rv, idv).tokens_per_owner);
            assert(self@ == transfer_view(pre, rv, idv));
            lemma_transfer_preserves_wf(pre, cv, rv, idv);
        }
        Ok(())
    }

    /// Transfers `token_id` to `receiver_id` with no approval id and no
    /// memo. The name is legacy: no payment moves between the parties.
    pub fn sale_token(&mut self, caller: String, token_id: String, receiver_id: String) -> (r:
        Result<(), Error>)
        requires
            old(self).wf(),
            caller@.len() > 0,
        ensures
            final(self).wf(),
            r == transfer_result(old(self)@, caller@, receiver_id@, token_id@),
            r is Ok ==> final(self)@ == transfer_view(old(self)@, receiver_id@, token_id@),
            r is Err ==> final(self)@ == old(self)@,
    {
        self.nft_transfer(caller, receiver_id, token_id, None, None)
    }

    /// The account that minted `token_id`, if the token exists.
    pub fn get_token_creator(&self, token_id: String) -> (r: Option<String>)
        requires
            self.wf(),
        ensures
            r.deep_view() == get_creator_view(self@, token_id@),
    {
        match self.tokens_creators.get(&token_id) {
            Some(c) => Some(c.clone()),
            None => None,
        }
    }
}

} // verus!
