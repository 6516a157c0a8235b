//! The list of tokens: which entries of the list are kept.

use vstd::prelude::*;

verus! {

/// One token of the list: its symbol, its name and its contract's address.
#[derive(Clone, Debug, PartialEq, Eq)]
pub struct CoinInfo {
    symbol: String,
    name: String,
    address: String,
}

impl CoinInfo {
    pub closed spec fn spec_symbol(self) -> Seq<char> {
        self.symbol@
    }

    pub closed spec fn spec_name(self) -> Seq<char> {
        self.name@
    }

    pub closed spec fn spec_address(self) -> Seq<char> {
        self.address@
    }

    /// A token is listed when it has a symbol.
    pub open spec fn listed(self) -> bool {
        self.spec_symbol().len() > 0
    }

    pub fn new(symbol: String, name: String, address: String) -> (coin: CoinInfo)
        ensures
            coin.spec_symbol() == symbol@,
            coin.spec_name() == name@,
            coin.spec_address() == address@,
    {
        CoinInfo { symbol, name, address }
    }

    pub fn symbol(&self) -> (symbol: &str)
        ensures
            symbol@ == self.spec_symbol(),
    {
        self.symbol.as_str()
    }

    pub fn name(&self) -> (name: &str)
        ensures
            name@ == self.spec_name(),
    {
        self.name.as_str()
    }

    pub fn address(&self) -> (address: &str)
        ensures
            address@ == self.spec_address(),
    {
        self.address.as_str()
    }

    /// Whether the token has a symbol.
    pub fn is_listed(&self) -> (listed: bool)
        ensures
            listed == self.listed(),
    {
        !self.symbol.as_str().is_empty()
    }
}

/// The tokens that are written to the list: those with a symbol, in the
/// order in which they came.
pub fn listed_tokens(coins: Vec<CoinInfo>) -> (kept: Vec<CoinInfo>)
    ensures
        kept@ == coins@.filter(|coin: CoinInfo| coin.listed()),
{
    let ghost all = coins@;
    let ghost wanted = |coin: CoinInfo| coin.listed();
    let mut kept: Vec<CoinInfo> = Vec::new();
    proof {
        assert(all.take(0) =~= Seq::<CoinInfo>::empty());
        reveal(Seq::filter);
    }
    for coin in it: coins
        invariant
            all == it.seq(),
            wanted == |coin: CoinInfo| coin.listed(),
            kept@ == all.take(it.index() as int).filter(wanted),
    {
        proof {
            let before = all.take(it.index() as int);
            let after = all.take(it.index() + 1);
            assert(after.drop_last() =~= before);
            assert(after.last() == coin);
            reveal(Seq::filter);
        }
        if coin.is_listed() {
            kept.push(coin);
        }
    }
    assert(all.take(all.len() as int) =~= all);
    kept
}

} // verus!
