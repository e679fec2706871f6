//! The registry itself: tokens by identifier, balances by owner, and the
//! operations that mint, transfer and look up tokens.

use crate::error::{MintError, TransferError};
use crate::model::{RegistryView, Text, TokenView};
use crate::runs::{created, step, Call};
use crate::str_map::{same_text, StrMap};
use crate::token_id::{derive_token_id, token_id};
use std::collections::BTreeMap;
use vstd::prelude::*;

verus! {

/// One non-fungible token.
#[derive(Debug)]
pub struct NFT {
    pub owner: String,
    pub properties: BTreeMap<String, String>,
}

impl View for NFT {
    type V = TokenView;

    open spec fn view(&self) -> TokenView {
        TokenView { owner: self.owner@, properties: self.properties.deep_view() }
    }
}

/// A registry of non-fungible tokens.
///
/// Its books are consistent at all times (`RegistryView::wf`): this is an
/// invariant of the type, so no operation asks for it and every operation
/// keeps it.
#[derive(Debug)]
pub struct ERC721A {
    name: String,
    symbol: String,
    total_supply: u32,
    nfts: StrMap<NFT>,
    balances: StrMap<u32>,
}

impl View for ERC721A {
    type V = RegistryView;

    closed spec fn view(&self) -> RegistryView {
        RegistryView {
            name: self.name@,
            symbol: self.symbol@,
            total_supply: self.total_supply as nat,
            tokens: tokens_view(self.nfts@),
            balances: balances_view(self.balances@),
        }
    }
}

/// The stored tokens, each seen as its view.
spec fn tokens_view(nfts: Map<Text, NFT>) -> Map<Text, TokenView> {
    Map::new(|id: Text| nfts.contains_key(id), |id: Text| nfts[id]@)
}

/// The stored balances, as natural numbers.
spec fn balances_view(counts: Map<Text, u32>) -> Map<Text, nat> {
    Map::new(|owner: Text| counts.contains_key(owner), |owner: Text| counts[owner] as nat)
}

impl ERC721A {
    #[verifier::type_invariant]
    spec fn consistent(self) -> bool {
        self@.wf()
    }

    /// A registry with the given name and symbol and no tokens.
    pub fn new(name: String, symbol: String) -> (registry: Self)
        ensures
            registry@ == RegistryView::empty(name@, symbol@),
            registry@.wf(),
    {
        let nfts: StrMap<NFT> = StrMap::new();
        let balances: StrMap<u32> = StrMap::new();
        proof {
            assert(tokens_view(nfts@) =~= Map::empty());
            assert(balances_view(balances@) =~= Map::empty());
        }
        ERC721A { name, symbol, total_supply: 0, nfts, balances }
    }

    /// The registry's name.
    pub fn name(&self) -> (name: &str)
        ensures
            name@ == self@.name,
    {
        self.name.as_str()
    }

    /// The registry's symbol.
    pub fn symbol(&self) -> (symbol: &str)
        ensures
            symbol@ == self@.symbol,
    {
        self.symbol.as_str()
    }

    /// The number of tokens minted. The books of a registry are consistent, so
    /// this is also the number of tokens that it holds.
    pub fn total_supply(&self) -> (supply: u32)
        ensures
            supply == self@.total_supply,
            self@.wf(),
    {
        proof {
            use_type_invariant(self);
        }
        self.total_supply
    }

    /// The balance recorded for `owner`, if one is recorded. The books of a
    /// registry are consistent, so a recorded balance is the number of tokens
    /// that `owner` holds, and an owner without one holds none.
    pub fn balance_of(&self, owner: &str) -> (balance: Option<u32>)
        ensures
            match balance {
                Some(count) => self@.balances.contains_key(owner@) && count == self@.balances[owner@],
                None => !self@.balances.contains_key(owner@),
            },
            self@.wf(),
    {
        proof {
            use_type_invariant(self);
        }
        match self.balances.get(owner) {
            Some(count) => Some(*count),
            None => None,
        }
    }

    /// The holder of token `id`, if there is such a token.
    pub fn get_owner(&self, id: &str) -> (owner: Option<&str>)
        ensures
            match owner {
                Some(holder) => self@.owner_of(id@) == Some(holder@),
                None => self@.owner_of(id@) is None,
            },
    {
        match self.nfts.get(id) {
            Some(nft) => Some(nft.owner.as_str()),
            None => None,
        }
    }

    /// Token `id`, if there is such a token.
    pub fn get_nft(&self, id: &str) -> (token: Option<&NFT>)
        ensures
            match token {
                Some(nft) => self@.tokens.contains_key(id@) && nft@ == self@.tokens[id@],
                None => !self@.tokens.contains_key(id@),
            },
    {
        self.nfts.get(id)
    }

    /// Records a new token under an identifier that names none yet.
    fn record_mint(&mut self, id: String, owner: String, properties: BTreeMap<String, String>)
        requires
            old(self)@.mint_check(id@) is Ok,
        ensures
            final(self)@ == old(self)@.mint(id@, owner@, properties.deep_view()),
    {
        proof {
            use_type_invariant(&*self);
            self@.lemma_balance_within_supply(owner@);
            self@.lemma_mint_wf(id@, owner@, properties.deep_view());
        }
        let held: u32 = match self.balances.get(owner.as_str()) {
            Some(count) => *count,
            None => 0,
        };
        let mut taken = ERC721A::new(String::new(), String::new());
        std::mem::swap(self, &mut taken);
        let ERC721A { name, symbol, total_supply, mut nfts, mut balances } = taken;
        let token = NFT { owner: owner.clone(), properties };
        nfts.insert(id, token);
        balances.insert(owner, held + 1);
        proof {
            let after = old(self)@.mint(id@, owner@, properties.deep_view());
            assert(tokens_view(nfts@) =~= after.tokens);
            assert(balances_view(balances@) =~= after.balances);
        }
        *self = ERC721A { name, symbol, total_supply: total_supply + 1, nfts, balances };
    }

    /// Mints a token under the identifier `id`, for `owner`, with the given
    /// properties. An identifier that already names a token is rejected, and
    /// so is any mint once the supply counter is at its largest value; a
    /// rejected mint changes nothing.
    pub fn mint_with_id(
        &mut self,
        id: String,
        owner: String,
        properties: BTreeMap<String, String>,
    ) -> (result: Result<(), MintError>)
        ensures
            result == old(self)@.mint_check(id@),
            result is Ok ==> {
                &&& final(self)@ == old(self)@.mint(id@, owner@, properties.deep_view())
                &&& final(self)@.owner_of(id@) == Some(owner@)
                &&& final(self)@.balance_of(owner@) == old(self)@.balance_of(owner@) + 1
                &&& final(self)@.total_supply == old(self)@.total_supply + 1
            },
            result is Err ==> final(self)@ == old(self)@,
            final(self)@.wf(),
            step(
                old(self)@,
                (Call::Mint { id: id@, owner: owner@, properties: properties.deep_view(), result }),
                final(self)@,
            ),
    {
        proof {
            use_type_invariant(&*self);
        }
        if self.total_supply == u32::MAX {
            return Err(MintError::SupplyExhausted);
        }
        if self.nfts.contains_key(id.as_str()) {
            return Err(MintError::DuplicateId);
        }
        proof {
            self@.lemma_mint_wf(id@, owner@, properties.deep_view());
            self@.lemma_mint_effect(id@, owner@, properties.deep_view());
        }
        self.record_mint(id, owner, properties);
        Ok(())
    }

    /// Mints a token for `owner` with the given properties, under an
    /// identifier derived from a nonce: the first nonce, counting up from the
    /// supply, whose identifier names no token yet. Returns that identifier.
    /// Where the supply counter is at its largest value, or no nonce is left,
    /// nothing is minted and nothing changes.
    pub fn create_nft(&mut self, owner: String, properties: BTreeMap<String, String>) -> (result:
        Result<String, MintError>)
        ensures
            match result {
                Ok(id) => {
                    &&& old(self)@.next_id() == Ok::<Text, MintError>(id@)
                    &&& !old(self)@.tokens.contains_key(id@)
                    &&& final(self)@ == old(self)@.mint(id@, owner@, properties.deep_view())
                    &&& final(self)@.owner_of(id@) == Some(owner@)
                    &&& final(self)@.balance_of(owner@) == old(self)@.balance_of(owner@) + 1
                    &&& final(self)@.total_supply == old(self)@.total_supply + 1
                },
                Err(e) => {
                    &&& old(self)@.next_id() == Err::<Text, MintError>(e)
                    &&& final(self)@ == old(self)@
                },
            },
            final(self)@.wf(),
            step(
                old(self)@,
                (Call::Create {
                    owner: owner@,
                    properties: properties.deep_view(),
                    result: created(result),
                }),
                final(self)@,
            ),
    {
        proof {
            use_type_invariant(&*self);
        }
        if self.total_supply == u32::MAX {
            return Err(MintError::SupplyExhausted);
        }
        let mut nonce: u64 = self.total_supply as u64;
        loop
            invariant
                *self == *old(self),
                self@.wf(),
                self@.total_supply < u32::MAX,
                self@.total_supply <= nonce,
                forall|m: u64|
                    self@.total_supply <= m < nonce ==> #[trigger] self@.tokens.contains_key(
                        token_id(m),
                    ),
            decreases u64::MAX - nonce,
        {
            let id = derive_token_id(nonce);
            if !self.nfts.contains_key(id.as_str()) {
                proof {
                    assert(self@.is_next_nonce(nonce));
                    self@.lemma_next_nonce_unique(nonce);
                    self@.lemma_mint_wf(id@, owner@, properties.deep_view());
                    self@.lemma_mint_effect(id@, owner@, properties.deep_view());
                }
                self.record_mint(id.clone(), owner, properties);
                return Ok(id);
            }
            if nonce == u64::MAX {
                proof {
                    self@.lemma_no_nonce_left();
                }
                return Err(MintError::IdSpaceExhausted);
            }
            nonce += 1;
        }
    }

    /// Passes token `id` to `to`. Fails with `NotFound` where no token has
    /// that identifier, and with `InvalidTransfer` where `to` already holds
    /// it; a failed transfer changes nothing. Otherwise the token's owner
    /// becomes `to`, the previous holder's balance goes down by one and that
    /// of `to` up by one. The previous holder's balance is at least one, since
    /// the books are consistent, so it cannot fall below zero.
    pub fn transfer(&mut self, id: &str, to: String) -> (result: Result<(), TransferError>)
        ensures
            result == old(self)@.transfer_check(id@, to@),
            result is Ok ==> {
                let from = old(self)@.tokens[id@].owner;
                &&& final(self)@ == old(self)@.transfer(id@, to@)
                &&& final(self)@.owner_of(id@) == Some(to@)
                &&& final(self)@.balance_of(from) == old(self)@.balance_of(from) - 1
                &&& final(self)@.balance_of(to@) == old(self)@.balance_of(to@) + 1
                &&& final(self)@.total_supply == old(self)@.total_supply
            },
            result is Err ==> final(self)@ == old(self)@,
            final(self)@.wf(),
            step(old(self)@, (Call::Transfer { id: id@, to: to@, result }), final(self)@),
    {
        proof {
            use_type_invariant(&*self);
        }
        let from = match self.nfts.get(id) {
            None => {
                return Err(TransferError::NotFound);
            },
            Some(nft) => {
                if same_text(nft.owner.as_str(), to.as_str()) {
                    return Err(TransferError::InvalidTransfer);
                }
                nft.owner.clone()
            },
        };
        proof {
            self@.lemma_holder_balance(id@, to@);
            self@.lemma_transfer_wf(id@, to@);
            self@.lemma_transfer_effect(id@, to@);
        }
        let from_balance: u32 = *self.balances.get(from.as_str()).unwrap();
        let to_balance: u32 = match self.balances.get(to.as_str()) {
            Some(count) => *count,
            None => 0,
        };
        let mut taken = ERC721A::new(String::new(), String::new());
        std::mem::swap(self, &mut taken);
        let ERC721A { name, symbol, total_supply, mut nfts, mut balances } = taken;
        let properties = nfts.remove(id).unwrap().properties;
        nfts.insert(id.to_owned(), NFT { owner: to.clone(), properties });
        balances.insert(from, from_balance - 1);
        balances.insert(to, to_balance + 1);
        proof {
            let after = old(self)@.transfer(id@, to@);
            assert(tokens_view(nfts@) =~= after.tokens);
            assert(balances_view(balances@) =~= after.balances);
        }
        *self = ERC721A { name, symbol, total_supply, nfts, balances };
        Ok(())
    }
}

} // verus!
