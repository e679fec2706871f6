//! What holds of every run of mints and transfers.

use crate::error::{MintError, TransferError};
use crate::model::{RegistryView, Text};
use vstd::prelude::*;

verus! {

/// One call on a registry, with its arguments and what it returned.
pub enum Call {
    /// `create_nft`
    Create { owner: Text, properties: Map<Text, Text>, result: Result<Text, MintError> },
    /// `mint_with_id`
    Mint { id: Text, owner: Text, properties: Map<Text, Text>, result: Result<(), MintError> },
    /// `transfer`
    Transfer { id: Text, to: Text, result: Result<(), TransferError> },
}

impl Call {
    /// The identifier of the token that this call minted, if it minted one.
    pub open spec fn minted(self) -> Option<Text> {
        match self {
            Call::Create { result: Ok(id), .. } => Some(id),
            Call::Mint { id, result: Ok(_), .. } => Some(id),
            _ => None,
        }
    }
}

/// What `create_nft` returned, with the identifier as text.
pub open spec fn created(result: Result<String, MintError>) -> Result<Text, MintError> {
    match result {
        Ok(id) => Ok(id@),
        Err(e) => Err(e),
    }
}

/// Whether `call` can take a registry from `before` to `after`: what the
/// operations promise of their result and of the registry they leave.
pub open spec fn step(before: RegistryView, call: Call, after: RegistryView) -> bool {
    match call {
        Call::Create { owner, properties, result } => match result {
            Ok(id) => before.next_id() == Ok::<Text, MintError>(id) && after == before.mint(
                id,
                owner,
                properties,
            ),
            Err(e) => before.next_id() == Err::<Text, MintError>(e) && after == before,
        },
        Call::Mint { id, owner, properties, result } => {
            &&& result == before.mint_check(id)
            &&& after == if result is Ok {
                before.mint(id, owner, properties)
            } else {
                before
            }
        },
        Call::Transfer { id, to, result } => {
            &&& result == before.transfer_check(id, to)
            &&& after == if result is Ok {
                before.transfer(id, to)
            } else {
                before
            }
        },
    }
}

/// Whether `states` are the registries that the calls `calls`, made in order,
/// pass through: each call takes one state to the next.
pub open spec fn is_run(states: Seq<RegistryView>, calls: Seq<Call>) -> bool {
    &&& states.len() == calls.len() + 1
    &&& forall|i: int|
        0 <= i < calls.len() ==> step(#[trigger] states[i], calls[i], states[i + 1])
}

/// A call that succeeds in minting does so under an identifier that named no
/// token before, and names one after.
pub proof fn lemma_mint_is_fresh(before: RegistryView, call: Call, after: RegistryView)
    requires
        step(before, call, after),
        call.minted() is Some,
    ensures
        !before.tokens.contains_key(call.minted().unwrap()),
        after.tokens.contains_key(call.minted().unwrap()),
{
    if call is Create {
        let n = choose|n: u64| before.is_next_nonce(n);
        assert(before.is_next_nonce(n));
    }
}

/// A transfer of a token to the one who holds it is refused as invalid, and
/// changes nothing.
pub proof fn lemma_transfer_to_holder_refused(
    before: RegistryView,
    id: Text,
    result: Result<(), TransferError>,
    after: RegistryView,
)
    requires
        before.tokens.contains_key(id),
        step(before, (Call::Transfer { id, to: before.tokens[id].owner, result }), after),
    ensures
        result == Err::<(), TransferError>(TransferError::InvalidTransfer),
        after == before,
{
}

/// Of an identifier that names no token, a lookup finds no holder, and a
/// transfer is refused as not found and changes nothing.
pub proof fn lemma_unknown_id_not_found(
    before: RegistryView,
    id: Text,
    to: Text,
    result: Result<(), TransferError>,
    after: RegistryView,
)
    requires
        !before.tokens.contains_key(id),
        step(before, (Call::Transfer { id, to, result }), after),
    ensures
        before.owner_of(id) is None,
        result == Err::<(), TransferError>(TransferError::NotFound),
        after == before,
{
}

/// No call removes a token or changes its properties.
pub proof fn lemma_step_keeps_tokens(before: RegistryView, call: Call, after: RegistryView)
    requires
        step(before, call, after),
    ensures
        before.kept_by(after),
{
    if call.minted() is Some {
        lemma_mint_is_fresh(before, call, after);
    }
}

/// No call, whether it succeeds or fails, breaks the consistency of the
/// books.
pub proof fn lemma_step_keeps_books(before: RegistryView, call: Call, after: RegistryView)
    requires
        before.wf(),
        step(before, call, after),
    ensures
        after.wf(),
{
    match call {
        Call::Create { owner, properties, result } => {
            if let Ok(id) = result {
                lemma_mint_is_fresh(before, call, after);
                before.lemma_mint_wf(id, owner, properties);
            }
        },
        Call::Mint { id, owner, properties, result } => {
            if result is Ok {
                before.lemma_mint_wf(id, owner, properties);
            }
        },
        Call::Transfer { id, to, result } => {
            if result is Ok {
                before.lemma_transfer_wf(id, to);
            }
        },
    }
}

/// After any finite run of mints and transfers from consistent books, failed
/// calls included, the books are consistent at every point: the supply
/// counts the tokens, each recorded balance counts its owner's tokens, and
/// every holder has a balance.
pub proof fn lemma_run_keeps_books(states: Seq<RegistryView>, calls: Seq<Call>, at: int)
    requires
        is_run(states, calls),
        states[0].wf(),
        0 <= at < states.len(),
    ensures
        states[at].wf(),
    decreases at,
{
    if at > 0 {
        lemma_run_keeps_books(states, calls, at - 1);
        assert(step(states[at - 1], calls[at - 1], states[at - 1 + 1]));
        lemma_step_keeps_books(states[at - 1], calls[at - 1], states[at]);
    }
}

/// A token, once minted, is in the registry at every later point of a run,
/// with the properties it was minted with.
pub proof fn lemma_run_keeps_tokens(
    states: Seq<RegistryView>,
    calls: Seq<Call>,
    earlier: int,
    later: int,
)
    requires
        is_run(states, calls),
        0 <= earlier <= later < states.len(),
    ensures
        states[earlier].kept_by(states[later]),
    decreases later - earlier,
{
    if earlier < later {
        lemma_run_keeps_tokens(states, calls, earlier, later - 1);
        assert(step(states[later - 1], calls[later - 1], states[later - 1 + 1]));
        lemma_step_keeps_tokens(states[later - 1], calls[later - 1], states[later]);
    }
}

/// In any run, the identifiers under which two different calls minted are
/// different.
pub proof fn lemma_minted_ids_distinct(
    states: Seq<RegistryView>,
    calls: Seq<Call>,
    first: int,
    second: int,
)
    requires
        is_run(states, calls),
        0 <= first < second < calls.len(),
        calls[first].minted() is Some,
        calls[second].minted() is Some,
    ensures
        calls[first].minted() != calls[second].minted(),
{
    assert(step(states[first], calls[first], states[first + 1]));
    assert(step(states[second], calls[second], states[second + 1]));
    lemma_mint_is_fresh(states[first], calls[first], states[first + 1]);
    lemma_mint_is_fresh(states[second], calls[second], states[second + 1]);
    lemma_run_keeps_tokens(states, calls, first + 1, second);
}

} // verus!
