//! The exchanges on which lots can be deposited and sold.

use vstd::prelude::*;

verus! {

/// An exchange that holds deposits and fills orders.
#[derive(Clone, Copy, Debug, PartialEq, Eq, Structural, Hash)]
pub enum Exchange {
    Binance,
    BinanceUs,
    Coinbase,
    Ftx,
    FtxUs,
    Kraken,
}

impl Exchange {
    /// The name of the exchange, as it is written in records.
    pub open spec fn name_of(self) -> Seq<char> {
        match self {
            Exchange::Binance => "Binance"@,
            Exchange::BinanceUs => "BinanceUs"@,
            Exchange::Coinbase => "Coinbase"@,
            Exchange::Ftx => "Ftx"@,
            Exchange::FtxUs => "FtxUs"@,
            Exchange::Kraken => "Kraken"@,
        }
    }

    /// The exchange that `name` names, if it names one.
    pub open spec fn named(name: Seq<char>) -> Option<Exchange> {
        if name == "Binance"@ {
            Some(Exchange::Binance)
        } else if name == "BinanceUs"@ {
            Some(Exchange::BinanceUs)
        } else if name == "Coinbase"@ {
            Some(Exchange::Coinbase)
        } else if name == "Ftx"@ {
            Some(Exchange::Ftx)
        } else if name == "FtxUs"@ {
            Some(Exchange::FtxUs)
        } else if name == "Kraken"@ {
            Some(Exchange::Kraken)
        } else {
            None
        }
    }

    /// The name of the exchange, as it is written in records.
    pub fn name(&self) -> (name: &'static str)
        ensures
            name@ == self.name_of(),
    {
        match self {
            Exchange::Binance => "Binance",
            Exchange::BinanceUs => "BinanceUs",
            Exchange::Coinbase => "Coinbase",
            Exchange::Ftx => "Ftx",
            Exchange::FtxUs => "FtxUs",
            Exchange::Kraken => "Kraken",
        }
    }

    /// The exchange that `name` names, if it names one.
    pub fn from_name(name: &str) -> (exchange: Option<Exchange>)
        ensures
            exchange == Self::named(name@),
    {
        let name: String = name.to_owned();
        if name == "Binance".to_owned() {
            Some(Exchange::Binance)
        } else if name == "BinanceUs".to_owned() {
            Some(Exchange::BinanceUs)
        } else if name == "Coinbase".to_owned() {
            Some(Exchange::Coinbase)
        } else if name == "Ftx".to_owned() {
            Some(Exchange::Ftx)
        } else if name == "FtxUs".to_owned() {
            Some(Exchange::FtxUs)
        } else if name == "Kraken".to_owned() {
            Some(Exchange::Kraken)
        } else {
            None
        }
    }

    /// Every exchange is named by its own name.
    pub proof fn law_named_by_its_name(self)
        ensures
            Self::named(self.name_of()) == Some(self),
    {
        reveal_strlit("Binance");
        reveal_strlit("BinanceUs");
        reveal_strlit("Coinbase");
        reveal_strlit("Ftx");
        reveal_strlit("FtxUs");
        reveal_strlit("Kraken");
        assert("Binance"@.len() == 7 && "BinanceUs"@.len() == 9 && "Coinbase"@.len() == 8);
        assert("Ftx"@.len() == 3 && "FtxUs"@.len() == 5 && "Kraken"@.len() == 6);
        assert("Binance"@[0] == 'B' && "Coinbase"@[0] == 'C');
    }
}

} // verus!
