use vstd::prelude::*;

verus! {

/// One distributable asset: either a native denomination or a token contract
/// identified by its address.  Assets key both persisted tables.
#[derive(Debug, PartialEq, Eq)]
pub enum Asset {
    Native(String),
    Cw20(String),
}

/// In specifications an asset is a pair: `true` for a native denomination,
/// `false` for a token address, together with the identifier's characters.
impl View for Asset {
    type V = (bool, Seq<char>);

    open spec fn view(&self) -> (bool, Seq<char>) {
        match self {
            Asset::Native(denom) => (true, denom@),
            Asset::Cw20(address) => (false, address@),
        }
    }
}

impl Asset {
    /// The identifier without the kind tag.
    pub open spec fn spec_name(&self) -> Seq<char> {
        self@.1
    }

    pub fn name(&self) -> (r: &String)
        ensures
            r@ == self.spec_name(),
    {
        match self {
            Asset::Native(denom) => denom,
            Asset::Cw20(address) => address,
        }
    }

    /// Whether two assets are the same key.
    pub fn key_eq(&self, other: &Asset) -> (r: bool)
        ensures
            r == (self@ == other@),
    {
        match (self, other) {
            (Asset::Native(a), Asset::Native(b)) => *a == *b,
            (Asset::Cw20(a), Asset::Cw20(b)) => *a == *b,
            _ => false,
        }
    }
}

impl Clone for Asset {
    fn clone(&self) -> (r: Asset)
        ensures
            r == *self,
    {
        match self {
            Asset::Native(denom) => Asset::Native(denom.clone()),
            Asset::Cw20(address) => Asset::Cw20(address.clone()),
        }
    }
}

} // verus!
