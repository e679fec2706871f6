//! The registry as mathematics: what a registry holds, when its books are
//! consistent, and what minting and transferring do to it.

use crate::error::{MintError, TransferError};
use crate::token_id::token_id;
use vstd::prelude::*;
use vstd::set_lib::lemma_len_subset;

verus! {

/// Text, as the sequence of its characters.
pub type Text = Seq<char>;

/// One token: who holds it and what describes it.
pub struct TokenView {
    pub owner: Text,
    pub properties: Map<Text, Text>,
}

/// A registry: its descriptive name and symbol, the tokens by identifier, the
/// balance recorded for each owner, and the number of tokens minted.
pub struct RegistryView {
    pub name: Text,
    pub symbol: Text,
    pub total_supply: nat,
    pub tokens: Map<Text, TokenView>,
    pub balances: Map<Text, nat>,
}

impl RegistryView {
    /// The registry in which nothing has been minted.
    pub open spec fn empty(name: Text, symbol: Text) -> RegistryView {
        RegistryView { name, symbol, total_supply: 0, tokens: Map::empty(), balances: Map::empty() }
    }

    /// The holder of token `id`, if there is such a token.
    pub open spec fn owner_of(self, id: Text) -> Option<Text> {
        if self.tokens.contains_key(id) {
            Some(self.tokens[id].owner)
        } else {
            None
        }
    }

    /// The identifiers of the tokens that `owner` holds.
    pub open spec fn owned_by(self, owner: Text) -> Set<Text> {
        Set::new(|id: Text| self.tokens.contains_key(id) && self.tokens[id].owner == owner)
    }

    /// The balance recorded for `owner`; zero where none is recorded.
    pub open spec fn balance_of(self, owner: Text) -> nat {
        if self.balances.contains_key(owner) {
            self.balances[owner]
        } else {
            0
        }
    }

    /// The books are consistent: the supply counts the tokens, every recorded
    /// balance counts the tokens of its owner, and every holder has a balance
    /// recorded.
    pub open spec fn wf(self) -> bool {
        &&& self.tokens.dom().finite()
        &&& self.total_supply == self.tokens.dom().len()
        &&& forall|owner: Text| #[trigger]
            self.balances.contains_key(owner) ==> self.balances[owner] == self.owned_by(owner).len()
        &&& forall|id: Text| #[trigger]
            self.tokens.contains_key(id) ==> self.balances.contains_key(self.tokens[id].owner)
    }

    /// The registry after a token `id` with the given owner and properties has
    /// been minted.
    pub open spec fn mint(self, id: Text, owner: Text, properties: Map<Text, Text>) -> RegistryView {
        RegistryView {
            total_supply: self.total_supply + 1,
            tokens: self.tokens.insert(id, TokenView { owner, properties }),
            balances: self.balances.insert(owner, self.balance_of(owner) + 1),
            ..self
        }
    }

    /// The registry after token `id` has passed from its holder to `to`.
    pub open spec fn transfer(self, id: Text, to: Text) -> RegistryView {
        let from = self.tokens[id].owner;
        let token = TokenView { owner: to, properties: self.tokens[id].properties };
        RegistryView {
            tokens: self.tokens.insert(id, token),
            balances: self.balances.insert(from, (self.balances[from] - 1) as nat).insert(
                to,
                self.balance_of(to) + 1,
            ),
            ..self
        }
    }

    /// Whether a token `id` can be minted, and if not, why.
    pub open spec fn mint_check(self, id: Text) -> Result<(), MintError> {
        if self.total_supply >= u32::MAX {
            Err(MintError::SupplyExhausted)
        } else if self.tokens.contains_key(id) {
            Err(MintError::DuplicateId)
        } else {
            Ok(())
        }
    }

    /// Whether token `id` can pass to `to`, and if not, why.
    pub open spec fn transfer_check(self, id: Text, to: Text) -> Result<(), TransferError> {
        if !self.tokens.contains_key(id) {
            Err(TransferError::NotFound)
        } else if self.tokens[id].owner == to {
            Err(TransferError::InvalidTransfer)
        } else {
            Ok(())
        }
    }

    /// Whether `nonce` is the first, counting up from the supply, whose
    /// identifier names no token.
    pub open spec fn is_next_nonce(self, nonce: u64) -> bool {
        &&& self.total_supply <= nonce
        &&& !self.tokens.contains_key(token_id(nonce))
        &&& forall|m: u64|
            self.total_supply <= m < nonce ==> #[trigger] self.tokens.contains_key(token_id(m))
    }

    /// The identifier that the next derived mint gives, or why there is none.
    pub open spec fn next_id(self) -> Result<Text, MintError> {
        if self.total_supply >= u32::MAX {
            Err(MintError::SupplyExhausted)
        } else if exists|n: u64| self.is_next_nonce(n) {
            Ok(token_id(choose|n: u64| self.is_next_nonce(n)))
        } else {
            Err(MintError::IdSpaceExhausted)
        }
    }

    /// At most one nonce is the next one.
    pub proof fn lemma_next_nonce_unique(self, nonce: u64)
        requires
            self.is_next_nonce(nonce),
            self.total_supply < u32::MAX,
        ensures
            self.next_id() == Ok::<Text, MintError>(token_id(nonce)),
    {
        let chosen = choose|n: u64| self.is_next_nonce(n);
        if chosen < nonce {
            assert(self.tokens.contains_key(token_id(chosen)));
        } else if nonce < chosen {
            assert(self.tokens.contains_key(token_id(nonce)));
        }
    }

    /// Where every nonce from the supply upward is taken, none is the next.
    pub proof fn lemma_no_nonce_left(self)
        requires
            self.total_supply < u32::MAX,
            forall|m: u64| self.total_supply <= m ==> #[trigger] self.tokens.contains_key(token_id(m)),
        ensures
            self.next_id() == Err::<Text, MintError>(MintError::IdSpaceExhausted),
    {
    }

    /// Every token of `self` is a token of `later`, with the properties it had.
    pub open spec fn kept_by(self, later: RegistryView) -> bool {
        forall|id: Text| #[trigger]
            self.tokens.contains_key(id) ==> later.tokens.contains_key(id)
                && later.tokens[id].properties == self.tokens[id].properties
    }

    /// What one owner holds is part of what there is, so no balance exceeds
    /// the supply.
    pub proof fn lemma_balance_within_supply(self, owner: Text)
        requires
            self.wf(),
        ensures
            self.owned_by(owner).finite(),
            self.owned_by(owner).len() <= self.total_supply,
            self.balance_of(owner) <= self.total_supply,
    {
        lemma_len_subset(self.owned_by(owner), self.tokens.dom());
    }

    /// An owner without a recorded balance holds nothing.
    pub proof fn lemma_unrecorded_owner_holds_nothing(self, owner: Text)
        requires
            self.wf(),
            !self.balances.contains_key(owner),
        ensures
            self.owned_by(owner) == Set::<Text>::empty(),
            self.owned_by(owner).len() == 0,
    {
        assert(self.owned_by(owner) =~= Set::<Text>::empty());
    }

    /// The holder of a token has a recorded balance of at least one, and
    /// anyone else holds fewer tokens than there are.
    pub proof fn lemma_holder_balance(self, id: Text, other: Text)
        requires
            self.wf(),
            self.tokens.contains_key(id),
            self.tokens[id].owner != other,
        ensures
            self.balances.contains_key(self.tokens[id].owner),
            self.balances[self.tokens[id].owner] >= 1,
            self.balance_of(other) < self.total_supply,
    {
        let from = self.tokens[id].owner;
        self.lemma_balance_within_supply(from);
        assert(self.owned_by(from).contains(id));
        let rest = self.tokens.dom().remove(id);
        lemma_len_subset(self.owned_by(other), rest);
        if !self.balances.contains_key(other) {
            self.lemma_unrecorded_owner_holds_nothing(other);
        }
    }

    /// Nothing minted, nothing to reconcile.
    pub proof fn lemma_empty_wf(name: Text, symbol: Text)
        ensures
            RegistryView::empty(name, symbol).wf(),
    {
    }

    /// Minting under a fresh identifier keeps the books consistent.
    pub proof fn lemma_mint_wf(self, id: Text, owner: Text, properties: Map<Text, Text>)
        requires
            self.wf(),
            !self.tokens.contains_key(id),
        ensures
            self.mint(id, owner, properties).wf(),
    {
        let after = self.mint(id, owner, properties);
        assert(after.tokens.dom() =~= self.tokens.dom().insert(id));
        assert forall|o: Text| #[trigger] after.balances.contains_key(o) implies after.balances[o]
            == after.owned_by(o).len() by {
            self.lemma_balance_within_supply(o);
            if o == owner {
                assert(after.owned_by(o) =~= self.owned_by(o).insert(id));
                if !self.balances.contains_key(o) {
                    self.lemma_unrecorded_owner_holds_nothing(o);
                }
            } else {
                assert(after.owned_by(o) =~= self.owned_by(o));
            }
        }
    }

    /// Passing a token to someone who does not hold it keeps the books
    /// consistent.
    pub proof fn lemma_transfer_wf(self, id: Text, to: Text)
        requires
            self.wf(),
            self.tokens.contains_key(id),
            self.tokens[id].owner != to,
        ensures
            self.transfer(id, to).wf(),
    {
        let after = self.transfer(id, to);
        let from = self.tokens[id].owner;
        self.lemma_holder_balance(id, to);
        assert(after.tokens.dom() =~= self.tokens.dom());
        assert forall|o: Text| #[trigger] after.balances.contains_key(o) implies after.balances[o]
            == after.owned_by(o).len() by {
            self.lemma_balance_within_supply(o);
            if o == to {
                assert(after.owned_by(o) =~= self.owned_by(o).insert(id));
                if !self.balances.contains_key(o) {
                    self.lemma_unrecorded_owner_holds_nothing(o);
                }
            } else if o == from {
                assert(after.owned_by(o) =~= self.owned_by(o).remove(id));
            } else {
                assert(after.owned_by(o) =~= self.owned_by(o));
            }
        }
    }

    /// Minting for `owner` makes `owner` the holder of the new token, raises
    /// the balance of `owner` by exactly one and the supply by exactly one,
    /// and leaves every other token and balance as it was.
    pub proof fn lemma_mint_effect(self, id: Text, owner: Text, properties: Map<Text, Text>)
        requires
            !self.tokens.contains_key(id),
        ensures
            self.mint(id, owner, properties).owner_of(id) == Some(owner),
            self.mint(id, owner, properties).balance_of(owner) == self.balance_of(owner) + 1,
            self.mint(id, owner, properties).total_supply == self.total_supply + 1,
            forall|other: Text|
                other != id ==> self.mint(id, owner, properties).owner_of(other) == self.owner_of(
                    other,
                ),
            forall|other: Text|
                other != owner ==> self.mint(id, owner, properties).balance_of(other)
                    == self.balance_of(other),
    {
    }

    /// Passing a token from its holder to someone else makes that one the
    /// holder, lowers the previous holder's balance by exactly one, raises
    /// the new holder's by exactly one, and leaves the supply, every other
    /// token and every other balance as they were.
    pub proof fn lemma_transfer_effect(self, id: Text, to: Text)
        requires
            self.wf(),
            self.transfer_check(id, to) is Ok,
        ensures
            self.transfer(id, to).owner_of(id) == Some(to),
            self.transfer(id, to).balance_of(self.tokens[id].owner) == self.balance_of(
                self.tokens[id].owner,
            ) - 1,
            self.transfer(id, to).balance_of(to) == self.balance_of(to) + 1,
            self.transfer(id, to).total_supply == self.total_supply,
            forall|other: Text|
                other != id ==> self.transfer(id, to).owner_of(other) == self.owner_of(other),
            forall|other: Text|
                other != to && other != self.tokens[id].owner ==> self.transfer(id, to).balance_of(
                    other,
                ) == self.balance_of(other),
    {
        self.lemma_holder_balance(id, to);
    }
}

} // verus!
