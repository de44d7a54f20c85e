//! The description of the token: set once, read ever after.

use vstd::prelude::*;

verus! {

/// The icon of the default description.
pub const DATA_IMAGE_SVG_NEAR_ICON: &'static str =
    "data:image/svg+xml,%3Csvg xmlns='http://www.w3.org/2000/svg' viewBox='0 0 288 288'%3E%3Cg id='l' data-name='l'%3E%3Cpath d='M187.58,79.81l-30.1,44.69a3.2,3.2,0,0,0,4.75,4.2L191.86,103a1.2,1.2,0,0,1,2,.91v80.46a1.2,1.2,0,0,1-2.12.77L102.18,77.93A15.35,15.35,0,0,0,90.47,72.5H87.34A15.34,15.34,0,0,0,72,87.84V201.16A15.34,15.34,0,0,0,87.34,216.5h0a15.35,15.35,0,0,0,13.08-7.31l30.1-44.69a3.2,3.2,0,0,0-4.75-4.2L96.14,186a1.2,1.2,0,0,1-2-.91V104.61a1.2,1.2,0,0,1,2.12-.77l89.55,107.23a15.35,15.35,0,0,0,11.71,5.43h3.13A15.34,15.34,0,0,0,216,201.16V87.84A15.34,15.34,0,0,0,200.66,72.5h0A15.35,15.35,0,0,0,187.58,79.81Z'/%3E%3C/g%3E%3C/svg%3E";

/// The version of the metadata standard that a description has to name.
pub open spec fn standard_version() -> Seq<char> {
    "ft-1.0.0"@
}

/// Hands out `near_contract_standards::fungible_token::metadata::FT_METADATA_SPEC`
/// as an owned string. The contract claims that the constant reads `ft-1.0.0`.
#[verifier::external_body]
pub(crate) fn ft_metadata_spec() -> (version: String)
    ensures
        version@ == standard_version(),
{
    near_contract_standards::fungible_token::metadata::FT_METADATA_SPEC.to_string()
}

/// The description of the token.
#[derive(Clone, Debug, PartialEq, Eq)]
pub struct Metadata {
    /// The version of the metadata standard.
    pub spec: String,
    /// The token's name.
    pub name: String,
    /// The token's ticker symbol.
    pub symbol: String,
    /// A small image, as a data URL.
    pub icon: Option<String>,
    /// A link to further details.
    pub reference: Option<String>,
    /// The SHA-256 hash of what the link leads to.
    pub reference_hash: Option<Vec<u8>>,
    /// How many decimal places an amount is shown with.
    pub decimals: u8,
}

impl Metadata {
    /// The description names the standard's version, has a name and a
    /// symbol, and carries a link exactly when it carries the link's hash,
    /// which is 32 bytes long.
    pub open spec fn valid(&self) -> bool {
        &&& self.spec@ == standard_version()
        &&& self.name@.len() > 0
        &&& self.symbol@.len() > 0
        &&& self.reference.is_some() == self.reference_hash.is_some()
        &&& match self.reference_hash {
            Some(hash) => hash@.len() == 32,
            None => true,
        }
    }

    /// The description is the one that the token has where none is given.
    pub open spec fn is_default(&self) -> bool {
        &&& self.spec@ == standard_version()
        &&& self.name@ == "Chain Abstraction ETH"@
        &&& self.symbol@ == "caETH"@
        &&& self.icon.is_some() && self.icon.unwrap()@ == DATA_IMAGE_SVG_NEAR_ICON@
        &&& self.reference.is_none()
        &&& self.reference_hash.is_none()
        &&& self.decimals == 24
    }

    /// Whether the description keeps the rules of the standard.
    pub fn is_valid(&self) -> (ok: bool)
        ensures
            ok == self.valid(),
    {
        let version = ft_metadata_spec();
        if self.spec != version {
            return false;
        }
        if self.name.as_str().is_empty() || self.symbol.as_str().is_empty() {
            return false;
        }
        if self.reference.is_some() != self.reference_hash.is_some() {
            return false;
        }
        match &self.reference_hash {
            Some(hash) => hash.len() == 32,
            None => true,
        }
    }

    /// The description that the token has where none is given.
    pub fn default_meta() -> (meta: Metadata)
        ensures
            meta.valid(),
            meta.is_default(),
    {
        proof {
            reveal_strlit("Chain Abstraction ETH");
            reveal_strlit("caETH");
        }
        Metadata {
            spec: ft_metadata_spec(),
            name: "Chain Abstraction ETH".to_owned(),
            symbol: "caETH".to_owned(),
            icon: Some(DATA_IMAGE_SVG_NEAR_ICON.to_owned()),
            reference: None,
            reference_hash: None,
            decimals: 24,
        }
    }
}

} // verus!
