//! Where the registry is deployed: the one address that a driver keeps
//! between its runs, as bech32 text.

use vstd::prelude::*;
use crate::bytes::Address;

verus! {

/// The bech32 text of an address of thirty-two bytes, under the
/// human-readable part `erd`.
pub uninterp spec fn bech32_text(address: Seq<u8>) -> Seq<char>;

/// Encodes an address as bech32 text.
///
/// Not proved: this calls `Address::to_bech32_default` and
/// `Bech32Address::to_bech32_string` of the MultiversX core types, and the
/// contract claims only that the text is a function of the thirty-two
/// bytes. The encoding itself, under the fixed part `erd`, is theirs; with
/// thirty-two bytes of payload it does not fail.
#[verifier::external_body]
fn encode_bech32(address: &Address) -> (text: String)
    ensures
        text@ == bech32_text(address@),
{
    multiversx_sc_snippets::imports::Address::new(*address).to_bech32_default().to_bech32_string()
}

/// What a driver remembers between its runs: the address of the deployed
/// registry, once there is one.
#[derive(Debug)]
pub struct State {
    contract_address: Option<String>,
}

impl View for State {
    type V = Option<Seq<char>>;

    closed spec fn view(&self) -> Option<Seq<char>> {
        match self.contract_address {
            Some(text) => Some(text@),
            None => None,
        }
    }
}

impl Default for State {
    /// The state before any deployment: no address is known.
    fn default() -> (state: State)
        ensures
            state@ is None,
    {
        State { contract_address: None }
    }
}

impl State {
    /// The state that was stored with `contract_address`.
    pub fn from_stored(contract_address: Option<String>) -> (state: State)
        ensures
            state@ == match contract_address {
                Some(text) => Some(text@),
                None => None::<Seq<char>>,
            },
    {
        State { contract_address }
    }

    /// Sets the address of the deployed registry.
    pub fn set_address(&mut self, address: String)
        ensures
            final(self)@ == Some(address@),
    {
        self.contract_address = Some(address);
    }

    /// The address of the deployed registry, if one is known.
    pub fn known_address(&self) -> (address: Option<&String>)
        ensures
            match address {
                Some(text) => self@ == Some(text@),
                None => self@ is None,
            },
    {
        self.contract_address.as_ref()
    }

    /// The address of the deployed registry. There must be one: deploy first.
    pub fn current_address(&self) -> (address: &String)
        requires
            self@ is Some,
        ensures
            self@ == Some(address@),
    {
        self.contract_address.as_ref().unwrap()
    }

    /// Notes that the registry now lives at `new_address`, and gives the
    /// text under which the address is shown and stored.
    pub fn record_deployment(&mut self, new_address: &Address) -> (text: String)
        ensures
            text@ == bech32_text(new_address@),
            final(self)@ == Some(text@),
    {
        let text = encode_bech32(new_address);
        self.set_address(text.clone());
        text
    }
}

} // verus!
