//! The token record and small verified helpers on lists of account or
//! token-id strings, read in specifications as sequences of character
//! sequences.

use vstd::prelude::*;
use vstd::seq_lib::*;

verus! {

/// Abstract form of a token record.
pub struct TokenView {
    pub owner_id: Seq<char>,
    pub metadata: Seq<char>,
    pub approved_account_ids: Seq<Seq<char>>,
}

/// One token: the current owner (changes only through transfer), the
/// metadata fixed at mint time, and the accounts approved to transfer on the
/// owner's behalf (cleared on every transfer).
pub struct Token {
    pub owner_id: String,
    pub metadata: String,
    pub approved_account_ids: Vec<String>,
}

impl DeepView for Token {
    type V = TokenView;

    open spec fn deep_view(&self) -> TokenView {
        TokenView {
            owner_id: self.owner_id@,
            metadata: self.metadata@,
            approved_account_ids: self.approved_account_ids.deep_view(),
        }
    }
}

impl Token {
    /// A field-for-field copy.
    pub fn duplicate(&self) -> (r: Token)
        ensures
            r.deep_view() == self.deep_view(),
            r.owner_id == self.owner_id,
            r.metadata == self.metadata,
            r.approved_account_ids@ == self.approved_account_ids@,
    {
        let r = Token {
            owner_id: self.owner_id.clone(),
            metadata: self.metadata.clone(),
            approved_account_ids: clone_string_vec(&self.approved_account_ids),
        };
        proof {
            assert(r.deep_view().approved_account_ids =~= self.deep_view().approved_account_ids);
        }
        r
    }
}

/// No two elements are the same string value.
pub open spec fn unique_seq(s: Seq<Seq<char>>) -> bool {
    forall|i: int, j: int| 0 <= i < j < s.len() ==> s[i] != s[j]
}

/// Whether the list holds the given string value.
pub fn contains_string(list: &Vec<String>, value: &String) -> (r: bool)
    ensures
        r == list.deep_view().contains(value@),
{
    let n = list.len();
    let mut i: usize = 0;
    while i < n
        invariant
            n == list@.len(),
            i <= n,
            forall|j: int| 0 <= j < i ==> list.deep_view()[j] != value@,
        decreases n - i,
    {
        if list[i] == *value {
            proof {
                assert(list.deep_view()[i as int] == value@);
            }
            return true;
        }
        i = i + 1;
    }
    proof {
        assert(!list.deep_view().contains(value@));
    }
    false
}

/// A copy of the list, element for element.
pub fn clone_string_vec(list: &Vec<String>) -> (r: Vec<String>)
    ensures
        r@ == list@,
{
    let n = list.len();
    let mut r: Vec<String> = Vec::new();
    let mut i: usize = 0;
    while i < n
        invariant
            n == list@.len(),
            i <= n,
            r@ == list@.subrange(0, i as int),
        decreases n - i,
    {
        r.push(list[i].clone());
        i = i + 1;
    }
    proof {
        assert(r@ =~= list@);
    }
    r
}

/// Drops the first occurrence of `value` from the list; a list that lacks
/// the value comes back unchanged.
pub fn remove_string(list: &mut Vec<String>, value: &String)
    ensures
        final(list).deep_view() == old(list).deep_view().remove_value(value@),
{
    let n = list.len();
    let mut i: usize = 0;
    while i < n
        invariant
            list@ == old(list)@,
            n == list@.len(),
            i <= n,
            forall|j: int| 0 <= j < i ==> list.deep_view()[j] != value@,
        decreases n - i,
    {
        if list[i] == *value {
            let ghost pre = list.deep_view();
            proof {
                assert(pre[i as int] == value@);
                assert(pre.contains(value@));
                pre.index_of_first_ensures(value@);
                let fi = pre.index_of_first(value@)->Some_0;
                assert(pre[fi] == value@);
                if fi < i {
                    assert(pre[fi] != value@);
                }
                assert(fi == i);
            }
            list.remove(i);
            proof {
                assert(list.deep_view() =~= pre.remove(i as int));
            }
            return;
        }
        i = i + 1;
    }
    proof {
        assert(!list.deep_view().contains(value@));
        old(list).deep_view().index_of_first_ensures(value@);
    }
}

} // verus!
