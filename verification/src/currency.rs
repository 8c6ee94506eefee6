use vstd::prelude::*;

verus! {

/// The currencies known to the scripting engine, by ISO 4217 code.
#[derive(Clone, Copy, Debug, PartialEq, Eq, Structural, Hash, PartialOrd, Ord)]
pub enum Currency {
    USD,
    EUR,
    GBP,
    CHF,
    JPY,
    AUD,
    CAD,
    NZD,
    CNY,
    HKD,
    SGD,
    SEK,
    NOK,
    DKK,
    CLP,
    CLF,
    BRL,
    COP,
    MXN,
    PEN,
    ARS,
    ZAR,
    INR,
    KRW,
}

/// The three letters of a currency's ISO code.
pub open spec fn code_letters(c: Currency) -> (char, char, char) {
    match c {
        Currency::USD => ('U', 'S', 'D'),
        Currency::EUR => ('E', 'U', 'R'),
        Currency::GBP => ('G', 'B', 'P'),
        Currency::CHF => ('C', 'H', 'F'),
        Currency::JPY => ('J', 'P', 'Y'),
        Currency::AUD => ('A', 'U', 'D'),
        Currency::CAD => ('C', 'A', 'D'),
        Currency::NZD => ('N', 'Z', 'D'),
        Currency::CNY => ('C', 'N', 'Y'),
        Currency::HKD => ('H', 'K', 'D'),
        Currency::SGD => ('S', 'G', 'D'),
        Currency::SEK => ('S', 'E', 'K'),
        Currency::NOK => ('N', 'O', 'K'),
        Currency::DKK => ('D', 'K', 'K'),
        Currency::CLP => ('C', 'L', 'P'),
        Currency::CLF => ('C', 'L', 'F'),
        Currency::BRL => ('B', 'R', 'L'),
        Currency::COP => ('C', 'O', 'P'),
        Currency::MXN => ('M', 'X', 'N'),
        Currency::PEN => ('P', 'E', 'N'),
        Currency::ARS => ('A', 'R', 'S'),
        Currency::ZAR => ('Z', 'A', 'R'),
        Currency::INR => ('I', 'N', 'R'),
        Currency::KRW => ('K', 'R', 'W'),
    }
}

/// The ISO code of a currency as text.
pub open spec fn code_text(c: Currency) -> Seq<char> {
    let t = code_letters(c);
    seq![t.0, t.1, t.2]
}

/// Two currencies never share a code.
pub proof fn lemma_code_letters_injective(a: Currency, b: Currency)
    ensures
        code_letters(a) == code_letters(b) ==> a == b,
{
}

/// Two currencies never share a code text.
pub proof fn lemma_code_text_injective(a: Currency, b: Currency)
    ensures
        code_text(a) == code_text(b) ==> a == b,
{
    if code_text(a) == code_text(b) {
        assert(code_text(a)[0] == code_text(b)[0]);
        assert(code_text(a)[1] == code_text(b)[1]);
        assert(code_text(a)[2] == code_text(b)[2]);
        lemma_code_letters_injective(a, b);
    }
}

/// Text equality of two string slices.
pub(crate) fn same_text(a: &str, b: &str) -> (r: bool)
    ensures
        r == (a@ == b@),
{
    let x: String = a.to_owned();
    let y: String = b.to_owned();
    x == y
}

impl Currency {
    /// The ISO code, e.g. `"USD"`.
    pub fn code(&self) -> (r: &'static str)
        ensures
            r@ == code_text(*self),
    {
        match self {
            Currency::USD => {
                proof {
                    reveal_strlit("USD");
                }
                "USD"
            },
            Currency::EUR => {
                proof {
                    reveal_strlit("EUR");
                }
                "EUR"
            },
            Currency::GBP => {
                proof {
                    reveal_strlit("GBP");
                }
                "GBP"
            },
            Currency::CHF => {
                proof {
                    reveal_strlit("CHF");
                }
                "CHF"
            },
            Currency::JPY => {
                proof {
                    reveal_strlit("JPY");
                }
                "JPY"
            },
            Currency::AUD => {
                proof {
                    reveal_strlit("AUD");
                }
                "AUD"
            },
            Currency::CAD => {
                proof {
                    reveal_strlit("CAD");
                }
                "CAD"
            },
            Currency::NZD => {
                proof {
                    reveal_strlit("NZD");
                }
                "NZD"
            },
            Currency::CNY => {
                proof {
                    reveal_strlit("CNY");
                }
                "CNY"
            },
            Currency::HKD => {
                proof {
                    reveal_strlit("HKD");
                }
                "HKD"
            },
            Currency::SGD => {
                proof {
                    reveal_strlit("SGD");
                }
                "SGD"
            },
            Currency::SEK => {
                proof {
                    reveal_strlit("SEK");
                }
                "SEK"
            },
            Currency::NOK => {
                proof {
                    reveal_strlit("NOK");
                }
                "NOK"
            },
            Currency::DKK => {
                proof {
                    reveal_strlit("DKK");
                }
                "DKK"
            },
            Currency::CLP => {
                proof {
                    reveal_strlit("CLP");
                }
                "CLP"
            },
            Currency::CLF => {
                proof {
                    reveal_strlit("CLF");
                }
                "CLF"
            },
            Currency::BRL => {
                proof {
                    reveal_strlit("BRL");
                }
                "BRL"
            },
            Currency::COP => {
                proof {
                    reveal_strlit("COP");
                }
                "COP"
            },
            Currency::MXN => {
                proof {
                    reveal_strlit("MXN");
                }
                "MXN"
            },
            Currency::PEN => {
                proof {
                    reveal_strlit("PEN");
                }
                "PEN"
            },
            Currency::ARS => {
                proof {
                    reveal_strlit("ARS");
                }
                "ARS"
            },
            Currency::ZAR => {
                proof {
                    reveal_strlit("ZAR");
                }
                "ZAR"
            },
            Currency::INR => {
                proof {
                    reveal_strlit("INR");
                }
                "INR"
            },
            Currency::KRW => {
                proof {
                    reveal_strlit("KRW");
                }
                "KRW"
            },
        }
    }

    /// Reads a currency from its ISO code; `None` for an unknown code.
    pub fn from_code(s: &str) -> (r: Option<Currency>)
        ensures
            forall|c: Currency| #[trigger] code_text(c) == s@ <==> r == Some(c),
    {
        if same_text(s, Currency::USD.code()) {
            proof {
                assert forall|c: Currency| #[trigger] code_text(c) == s@ <==> Some(Currency::USD) == Some(c) by {
                    lemma_code_text_injective(c, Currency::USD);
                }
            }
            return Some(Currency::USD);
        }
        if same_text(s, Currency::EUR.code()) {
            proof {
                assert forall|c: Currency| #[trigger] code_text(c) == s@ <==> Some(Currency::EUR) == Some(c) by {
                    lemma_code_text_injective(c, Currency::EUR);
                }
            }
            return Some(Currency::EUR);
        }
        if same_text(s, Currency::GBP.code()) {
            proof {
                assert forall|c: Currency| #[trigger] code_text(c) == s@ <==> Some(Currency::GBP) == Some(c) by {
                    lemma_code_text_injective(c, Currency::GBP);
                }
            }
            return Some(Currency::GBP);
        }
        if same_text(s, Currency::CHF.code()) {
            proof {
                assert forall|c: Currency| #[trigger] code_text(c) == s@ <==> Some(Currency::CHF) == Some(c) by {
                    lemma_code_text_injective(c, Currency::CHF);
                }
            }
            return Some(Currency::CHF);
        }
        if same_text(s, Currency::JPY.code()) {
            proof {
                assert forall|c: Currency| #[trigger] code_text(c) == s@ <==> Some(Currency::JPY) == Some(c) by {
                    lemma_code_text_injective(c, Currency::JPY);
                }
            }
            return Some(Currency::JPY);
        }
        if same_text(s, Currency::AUD.code()) {
            proof {
                assert forall|c: Currency| #[trigger] code_text(c) == s@ <==> Some(Currency::AUD) == Some(c) by {
                    lemma_code_text_injective(c, Currency::AUD);
                }
            }
            return Some(Currency::AUD);
        }
        if same_text(s, Currency::CAD.code()) {
            proof {
                assert forall|c: Currency| #[trigger] code_text(c) == s@ <==> Some(Currency::CAD) == Some(c) by {
                    lemma_code_text_injective(c, Currency::CAD);
                }
            }
            return Some(Currency::CAD);
        }
        if same_text(s, Currency::NZD.code()) {
            proof {
                assert forall|c: Currency| #[trigger] code_text(c) == s@ <==> Some(Currency::NZD) == Some(c) by {
                    lemma_code_text_injective(c, Currency::NZD);
                }
            }
            return Some(Currency::NZD);
        }
        if same_text(s, Currency::CNY.code()) {
            proof {
                assert forall|c: Currency| #[trigger] code_text(c) == s@ <==> Some(Currency::CNY) == Some(c) by {
                    lemma_code_text_injective(c, Currency::CNY);
                }
            }
            return Some(Currency::CNY);
        }
        if same_text(s, Currency::HKD.code()) {
            proof {
                assert forall|c: Currency| #[trigger] code_text(c) == s@ <==> Some(Currency::HKD) == Some(c) by {
                    lemma_code_text_injective(c, Currency::HKD);
                }
            }
            return Some(Currency::HKD);
        }
        if same_text(s, Currency::SGD.code()) {
            proof {
                assert forall|c: Currency| #[trigger] code_text(c) == s@ <==> Some(Currency::SGD) == Some(c) by {
                    lemma_code_text_injective(c, Currency::SGD);
                }
            }
            return Some(Currency::SGD);
        }
        if same_text(s, Currency::SEK.code()) {
            proof {
                assert forall|c: Currency| #[trigger] code_text(c) == s@ <==> Some(Currency::SEK) == Some(c) by {
                    lemma_code_text_injective(c, Currency::SEK);
                }
            }
            return Some(Currency::SEK);
        }
        if same_text(s, Currency::NOK.code()) {
            proof {
                assert forall|c: Currency| #[trigger] code_text(c) == s@ <==> Some(Currency::NOK) == Some(c) by {
                    lemma_code_text_injective(c, Currency::NOK);
                }
            }
            return Some(Currency::NOK);
        }
        if same_text(s, Currency::DKK.code()) {
            proof {
                assert forall|c: Currency| #[trigger] code_text(c) == s@ <==> Some(Currency::DKK) == Some(c) by {
                    lemma_code_text_injective(c, Currency::DKK);
                }
            }
            return Some(Currency::DKK);
        }
        if same_text(s, Currency::CLP.code()) {
            proof {
                assert forall|c: Currency| #[trigger] code_text(c) == s@ <==> Some(Currency::CLP) == Some(c) by {
                    lemma_code_text_injective(c, Currency::CLP);
                }
            }
            return Some(Currency::CLP);
        }
        if same_text(s, Currency::CLF.code()) {
            proof {
                assert forall|c: Currency| #[trigger] code_text(c) == s@ <==> Some(Currency::CLF) == Some(c) by {
                    lemma_code_text_injective(c, Currency::CLF);
                }
            }
            return Some(Currency::CLF);
        }
        if same_text(s, Currency::BRL.code()) {
            proof {
                assert forall|c: Currency| #[trigger] code_text(c) == s@ <==> Some(Currency::BRL) == Some(c) by {
                    lemma_code_text_injective(c, Currency::BRL);
                }
            }
            return Some(Currency::BRL);
        }
        if same_text(s, Currency::COP.code()) {
            proof {
                assert forall|c: Currency| #[trigger] code_text(c) == s@ <==> Some(Currency::COP) == Some(c) by {
                    lemma_code_text_injective(c, Currency::COP);
                }
            }
            return Some(Currency::COP);
        }
        if same_text(s, Currency::MXN.code()) {
            proof {
                assert forall|c: Currency| #[trigger] code_text(c) == s@ <==> Some(Currency::MXN) == Some(c) by {
                    lemma_code_text_injective(c, Currency::MXN);
                }
            }
            return Some(Currency::MXN);
        }
        if same_text(s, Currency::PEN.code()) {
            proof {
                assert forall|c: Currency| #[trigger] code_text(c) == s@ <==> Some(Currency::PEN) == Some(c) by {
                    lemma_code_text_injective(c, Currency::PEN);
                }
            }
            return Some(Currency::PEN);
        }
        if same_text(s, Currency::ARS.code()) {
            proof {
                assert forall|c: Currency| #[trigger] code_text(c) == s@ <==> Some(Currency::ARS) == Some(c) by {
                    lemma_code_text_injective(c, Currency::ARS);
                }
            }
            return Some(Currency::ARS);
        }
        if same_text(s, Currency::ZAR.code()) {
            proof {
                assert forall|c: Currency| #[trigger] code_text(c) == s@ <==> Some(Currency::ZAR) == Some(c) by {
                    lemma_code_text_injective(c, Currency::ZAR);
                }
            }
            return Some(Currency::ZAR);
        }
        if same_text(s, Currency::INR.code()) {
            proof {
                assert forall|c: Currency| #[trigger] code_text(c) == s@ <==> Some(Currency::INR) == Some(c) by {
                    lemma_code_text_injective(c, Currency::INR);
                }
            }
            return Some(Currency::INR);
        }
        if same_text(s, Currency::KRW.code()) {
            proof {
                assert forall|c: Currency| #[trigger] code_text(c) == s@ <==> Some(Currency::KRW) == Some(c) by {
                    lemma_code_text_injective(c, Currency::KRW);
                }
            }
            return Some(Currency::KRW);
        }
        proof {
            assert forall|c: Currency| code_text(c) != s@ by {
                match c {
                    Currency::USD => {},
                    Currency::EUR => {},
                    Currency::GBP => {},
                    Currency::CHF => {},
                    Currency::JPY => {},
                    Currency::AUD => {},
                    Currency::CAD => {},
                    Currency::NZD => {},
                    Currency::CNY => {},
                    Currency::HKD => {},
                    Currency::SGD => {},
                    Currency::SEK => {},
                    Currency::NOK => {},
                    Currency::DKK => {},
                    Currency::CLP => {},
                    Currency::CLF => {},
                    Currency::BRL => {},
                    Currency::COP => {},
                    Currency::MXN => {},
                    Currency::PEN => {},
                    Currency::ARS => {},
                    Currency::ZAR => {},
                    Currency::INR => {},
                    Currency::KRW => {},
                }
            }
        }
        None
    }
}

/// Number of currencies.
pub const CURRENCY_COUNT: usize = 24;

/// Position of a currency in the declaration order.
pub open spec fn currency_position(c: Currency) -> int {
    match c {
        Currency::USD => 0,
        Currency::EUR => 1,
        Currency::GBP => 2,
        Currency::CHF => 3,
        Currency::JPY => 4,
        Currency::AUD => 5,
        Currency::CAD => 6,
        Currency::NZD => 7,
        Currency::CNY => 8,
        Currency::HKD => 9,
        Currency::SGD => 10,
        Currency::SEK => 11,
        Currency::NOK => 12,
        Currency::DKK => 13,
        Currency::CLP => 14,
        Currency::CLF => 15,
        Currency::BRL => 16,
        Currency::COP => 17,
        Currency::MXN => 18,
        Currency::PEN => 19,
        Currency::ARS => 20,
        Currency::ZAR => 21,
        Currency::INR => 22,
        Currency::KRW => 23,
    }
}

/// Distinct currencies have distinct positions, all below `CURRENCY_COUNT`.
pub proof fn lemma_currency_position(a: Currency, b: Currency)
    ensures
        0 <= currency_position(a) < CURRENCY_COUNT,
        currency_position(a) == currency_position(b) ==> a == b,
{
}

impl Currency {
    /// Position of the currency in the declaration order.
    pub fn position(&self) -> (r: usize)
        ensures
            r == currency_position(*self),
            r < CURRENCY_COUNT,
    {
        match self {
            Currency::USD => 0,
            Currency::EUR => 1,
            Currency::GBP => 2,
            Currency::CHF => 3,
            Currency::JPY => 4,
            Currency::AUD => 5,
            Currency::CAD => 6,
            Currency::NZD => 7,
            Currency::CNY => 8,
            Currency::HKD => 9,
            Currency::SGD => 10,
            Currency::SEK => 11,
            Currency::NOK => 12,
            Currency::DKK => 13,
            Currency::CLP => 14,
            Currency::CLF => 15,
            Currency::BRL => 16,
            Currency::COP => 17,
            Currency::MXN => 18,
            Currency::PEN => 19,
            Currency::ARS => 20,
            Currency::ZAR => 21,
            Currency::INR => 22,
            Currency::KRW => 23,
        }
    }
}

} // verus!
