//! ISO 20022 business areas (the 4-letter prefix of every message identifier).
//!
//! The set is the full ISO 20022 catalogue, not just the families that have a
//! typed model.

use vstd::prelude::*;
use crate::error::Error;
use crate::text::chars_of;

verus! {

/// A business area / business process, e.g. `pacs` ("Payments Clearing and
/// Settlement"). This is the first component of an [`crate::MxId`].
#[allow(non_camel_case_types)]
#[derive(Debug, Copy, Clone, PartialEq, Eq, Structural, Hash, PartialOrd, Ord)]
pub enum BusinessArea {
    acmt,
    admi,
    auth,
    caaa,
    caad,
    caam,
    cafc,
    cafm,
    cafr,
    cain,
    camt,
    canm,
    casp,
    casr,
    catm,
    catp,
    cbrf,
    colr,
    fxtr,
    head,
    pacs,
    pain,
    reda,
    remt,
    secl,
    seev,
    semt,
    sese,
    seti,
    setr,
    supl,
    trck,
    trea,
    tsin,
    tsmt,
    tsrv,
    xsys,
}

/// The 4-letter code of a business area, e.g. `pacs`.
pub open spec fn spec_code(a: BusinessArea) -> Seq<char> {
    match a {
        BusinessArea::acmt => seq!['a', 'c', 'm', 't'],
        BusinessArea::admi => seq!['a', 'd', 'm', 'i'],
        BusinessArea::auth => seq!['a', 'u', 't', 'h'],
        BusinessArea::caaa => seq!['c', 'a', 'a', 'a'],
        BusinessArea::caad => seq!['c', 'a', 'a', 'd'],
        BusinessArea::caam => seq!['c', 'a', 'a', 'm'],
        BusinessArea::cafc => seq!['c', 'a', 'f', 'c'],
        BusinessArea::cafm => seq!['c', 'a', 'f', 'm'],
        BusinessArea::cafr => seq!['c', 'a', 'f', 'r'],
        BusinessArea::cain => seq!['c', 'a', 'i', 'n'],
        BusinessArea::camt => seq!['c', 'a', 'm', 't'],
        BusinessArea::canm => seq!['c', 'a', 'n', 'm'],
        BusinessArea::casp => seq!['c', 'a', 's', 'p'],
        BusinessArea::casr => seq!['c', 'a', 's', 'r'],
        BusinessArea::catm => seq!['c', 'a', 't', 'm'],
        BusinessArea::catp => seq!['c', 'a', 't', 'p'],
        BusinessArea::cbrf => seq!['c', 'b', 'r', 'f'],
        BusinessArea::colr => seq!['c', 'o', 'l', 'r'],
        BusinessArea::fxtr => seq!['f', 'x', 't', 'r'],
        BusinessArea::head => seq!['h', 'e', 'a', 'd'],
        BusinessArea::pacs => seq!['p', 'a', 'c', 's'],
        BusinessArea::pain => seq!['p', 'a', 'i', 'n'],
        BusinessArea::reda => seq!['r', 'e', 'd', 'a'],
        BusinessArea::remt => seq!['r', 'e', 'm', 't'],
        BusinessArea::secl => seq!['s', 'e', 'c', 'l'],
        BusinessArea::seev => seq!['s', 'e', 'e', 'v'],
        BusinessArea::semt => seq!['s', 'e', 'm', 't'],
        BusinessArea::sese => seq!['s', 'e', 's', 'e'],
        BusinessArea::seti => seq!['s', 'e', 't', 'i'],
        BusinessArea::setr => seq!['s', 'e', 't', 'r'],
        BusinessArea::supl => seq!['s', 'u', 'p', 'l'],
        BusinessArea::trck => seq!['t', 'r', 'c', 'k'],
        BusinessArea::trea => seq!['t', 'r', 'e', 'a'],
        BusinessArea::tsin => seq!['t', 's', 'i', 'n'],
        BusinessArea::tsmt => seq!['t', 's', 'm', 't'],
        BusinessArea::tsrv => seq!['t', 's', 'r', 'v'],
        BusinessArea::xsys => seq!['x', 's', 'y', 's'],
    }
}

/// The business area whose code is the four characters `c0 c1 c2 c3`.
pub open spec fn area_of_chars(c0: char, c1: char, c2: char, c3: char) -> Option<BusinessArea> {
    match (c0, c1, c2, c3) {
        ('a', 'c', 'm', 't') => Some(BusinessArea::acmt),
        ('a', 'd', 'm', 'i') => Some(BusinessArea::admi),
        ('a', 'u', 't', 'h') => Some(BusinessArea::auth),
        ('c', 'a', 'a', 'a') => Some(BusinessArea::caaa),
        ('c', 'a', 'a', 'd') => Some(BusinessArea::caad),
        ('c', 'a', 'a', 'm') => Some(BusinessArea::caam),
        ('c', 'a', 'f', 'c') => Some(BusinessArea::cafc),
        ('c', 'a', 'f', 'm') => Some(BusinessArea::cafm),
        ('c', 'a', 'f', 'r') => Some(BusinessArea::cafr),
        ('c', 'a', 'i', 'n') => Some(BusinessArea::cain),
        ('c', 'a', 'm', 't') => Some(BusinessArea::camt),
        ('c', 'a', 'n', 'm') => Some(BusinessArea::canm),
        ('c', 'a', 's', 'p') => Some(BusinessArea::casp),
        ('c', 'a', 's', 'r') => Some(BusinessArea::casr),
        ('c', 'a', 't', 'm') => Some(BusinessArea::catm),
        ('c', 'a', 't', 'p') => Some(BusinessArea::catp),
        ('c', 'b', 'r', 'f') => Some(BusinessArea::cbrf),
        ('c', 'o', 'l', 'r') => Some(BusinessArea::colr),
        ('f', 'x', 't', 'r') => Some(BusinessArea::fxtr),
        ('h', 'e', 'a', 'd') => Some(BusinessArea::head),
        ('p', 'a', 'c', 's') => Some(BusinessArea::pacs),
        ('p', 'a', 'i', 'n') => Some(BusinessArea::pain),
        ('r', 'e', 'd', 'a') => Some(BusinessArea::reda),
        ('r', 'e', 'm', 't') => Some(BusinessArea::remt),
        ('s', 'e', 'c', 'l') => Some(BusinessArea::secl),
        ('s', 'e', 'e', 'v') => Some(BusinessArea::seev),
        ('s', 'e', 'm', 't') => Some(BusinessArea::semt),
        ('s', 'e', 's', 'e') => Some(BusinessArea::sese),
        ('s', 'e', 't', 'i') => Some(BusinessArea::seti),
        ('s', 'e', 't', 'r') => Some(BusinessArea::setr),
        ('s', 'u', 'p', 'l') => Some(BusinessArea::supl),
        ('t', 'r', 'c', 'k') => Some(BusinessArea::trck),
        ('t', 'r', 'e', 'a') => Some(BusinessArea::trea),
        ('t', 's', 'i', 'n') => Some(BusinessArea::tsin),
        ('t', 's', 'm', 't') => Some(BusinessArea::tsmt),
        ('t', 's', 'r', 'v') => Some(BusinessArea::tsrv),
        ('x', 's', 'y', 's') => Some(BusinessArea::xsys),
        _ => None,
    }
}

/// The business area whose code is `s`, if any.
pub open spec fn spec_from_code(s: Seq<char>) -> Option<BusinessArea> {
    if s.len() == 4 {
        area_of_chars(s[0], s[1], s[2], s[3])
    } else {
        None
    }
}

/// Human-readable name of a business area.
pub open spec fn spec_description(a: BusinessArea) -> Seq<char> {
    match a {
        BusinessArea::acmt => "Account Management"@,
        BusinessArea::admi => "Administration"@,
        BusinessArea::auth => "Authorities"@,
        BusinessArea::caaa => "Acceptor to Acquirer Card Transactions"@,
        BusinessArea::caad => "Card Administration"@,
        BusinessArea::caam => "ATM Management"@,
        BusinessArea::cafc => "Fee Collection"@,
        BusinessArea::cafm => "File Management"@,
        BusinessArea::cafr => "Fraud Reporting and Disposition"@,
        BusinessArea::cain => "Acquirer to Issuer Card Transactions"@,
        BusinessArea::camt => "Cash Management"@,
        BusinessArea::canm => "Network Management"@,
        BusinessArea::casp => "Sale to POI Card Transactions"@,
        BusinessArea::casr => "Settlement Reporting"@,
        BusinessArea::catm => "Terminal Management"@,
        BusinessArea::catp => "ATM Card Transactions"@,
        BusinessArea::cbrf => "Clearing Operations and Reporting"@,
        BusinessArea::colr => "Collateral Management"@,
        BusinessArea::fxtr => "Foreign Exchange Trade"@,
        BusinessArea::head => "Business Application Header"@,
        BusinessArea::pacs => "Payments Clearing and Settlement"@,
        BusinessArea::pain => "Payments Initiation"@,
        BusinessArea::reda => "Reference Data"@,
        BusinessArea::remt => "Payments Remittance Advice"@,
        BusinessArea::secl => "Securities Clearing"@,
        BusinessArea::seev => "Securities Events"@,
        BusinessArea::semt => "Securities Management"@,
        BusinessArea::sese => "Securities Settlement"@,
        BusinessArea::seti => "Securities Trade Initiation"@,
        BusinessArea::setr => "Securities Trade"@,
        BusinessArea::supl => "Supplementary Data"@,
        BusinessArea::trck => "Payments Tracker"@,
        BusinessArea::trea => "Treasury"@,
        BusinessArea::tsin => "Trade Services Initiation"@,
        BusinessArea::tsmt => "Trade Services Management"@,
        BusinessArea::tsrv => "Trade Services"@,
        BusinessArea::xsys => "System Message"@,
    }
}

/// The position of an area in the catalogue order.
pub open spec fn area_index(a: BusinessArea) -> int {
    match a {
        BusinessArea::acmt => 0,
        BusinessArea::admi => 1,
        BusinessArea::auth => 2,
        BusinessArea::caaa => 3,
        BusinessArea::caad => 4,
        BusinessArea::caam => 5,
        BusinessArea::cafc => 6,
        BusinessArea::cafm => 7,
        BusinessArea::cafr => 8,
        BusinessArea::cain => 9,
        BusinessArea::camt => 10,
        BusinessArea::canm => 11,
        BusinessArea::casp => 12,
        BusinessArea::casr => 13,
        BusinessArea::catm => 14,
        BusinessArea::catp => 15,
        BusinessArea::cbrf => 16,
        BusinessArea::colr => 17,
        BusinessArea::fxtr => 18,
        BusinessArea::head => 19,
        BusinessArea::pacs => 20,
        BusinessArea::pain => 21,
        BusinessArea::reda => 22,
        BusinessArea::remt => 23,
        BusinessArea::secl => 24,
        BusinessArea::seev => 25,
        BusinessArea::semt => 26,
        BusinessArea::sese => 27,
        BusinessArea::seti => 28,
        BusinessArea::setr => 29,
        BusinessArea::supl => 30,
        BusinessArea::trck => 31,
        BusinessArea::trea => 32,
        BusinessArea::tsin => 33,
        BusinessArea::tsmt => 34,
        BusinessArea::tsrv => 35,
        BusinessArea::xsys => 36,
    }
}

impl BusinessArea {
    /// Every business area, in catalogue order.
    pub const ALL: [BusinessArea; 37] = [
        BusinessArea::acmt, BusinessArea::admi, BusinessArea::auth, BusinessArea::caaa, BusinessArea::caad, BusinessArea::caam, BusinessArea::cafc, BusinessArea::cafm, BusinessArea::cafr, BusinessArea::cain, BusinessArea::camt, BusinessArea::canm, BusinessArea::casp, BusinessArea::casr, BusinessArea::catm, BusinessArea::catp, BusinessArea::cbrf, BusinessArea::colr, BusinessArea::fxtr, BusinessArea::head, BusinessArea::pacs, BusinessArea::pain, BusinessArea::reda, BusinessArea::remt, BusinessArea::secl, BusinessArea::seev, BusinessArea::semt, BusinessArea::sese, BusinessArea::seti, BusinessArea::setr, BusinessArea::supl, BusinessArea::trck, BusinessArea::trea, BusinessArea::tsin, BusinessArea::tsmt, BusinessArea::tsrv, BusinessArea::xsys,
    ];

    /// The 4-letter code, e.g. `"pacs"`.
    pub fn code(self) -> (r: &'static str)
        ensures
            r@ == spec_code(self),
    {
        match self {
            BusinessArea::acmt => {
                proof {
                    reveal_strlit("acmt");
                }
                "acmt"
            },
            BusinessArea::admi => {
                proof {
                    reveal_strlit("admi");
                }
                "admi"
            },
            BusinessArea::auth => {
                proof {
                    reveal_strlit("auth");
                }
                "auth"
            },
            BusinessArea::caaa => {
                proof {
                    reveal_strlit("caaa");
                }
                "caaa"
            },
            BusinessArea::caad => {
                proof {
                    reveal_strlit("caad");
                }
                "caad"
            },
            BusinessArea::caam => {
                proof {
                    reveal_strlit("caam");
                }
                "caam"
            },
            BusinessArea::cafc => {
                proof {
                    reveal_strlit("cafc");
                }
                "cafc"
            },
            BusinessArea::cafm => {
                proof {
                    reveal_strlit("cafm");
                }
                "cafm"
            },
            BusinessArea::cafr => {
                proof {
                    reveal_strlit("cafr");
                }
                "cafr"
            },
            BusinessArea::cain => {
                proof {
                    reveal_strlit("cain");
                }
                "cain"
            },
            BusinessArea::camt => {
                proof {
                    reveal_strlit("camt");
                }
                "camt"
            },
            BusinessArea::canm => {
                proof {
                    reveal_strlit("canm");
                }
                "canm"
            },
            BusinessArea::casp => {
                proof {
                    reveal_strlit("casp");
                }
                "casp"
            },
            BusinessArea::casr => {
                proof {
                    reveal_strlit("casr");
                }
                "casr"
            },
            BusinessArea::catm => {
                proof {
                    reveal_strlit("catm");
                }
                "catm"
            },
            BusinessArea::catp => {
                proof {
                    reveal_strlit("catp");
                }
                "catp"
            },
            BusinessArea::cbrf => {
                proof {
                    reveal_strlit("cbrf");
                }
                "cbrf"
            },
            BusinessArea::colr => {
                proof {
                    reveal_strlit("colr");
                }
                "colr"
            },
            BusinessArea::fxtr => {
                proof {
                    reveal_strlit("fxtr");
                }
                "fxtr"
            },
            BusinessArea::head => {
                proof {
                    reveal_strlit("head");
                }
                "head"
            },
            BusinessArea::pacs => {
                proof {
                    reveal_strlit("pacs");
                }
                "pacs"
            },
            BusinessArea::pain => {
                proof {
                    reveal_strlit("pain");
                }
                "pain"
            },
            BusinessArea::reda => {
                proof {
                    reveal_strlit("reda");
                }
                "reda"
            },
            BusinessArea::remt => {
                proof {
                    reveal_strlit("remt");
                }
                "remt"
            },
            BusinessArea::secl => {
                proof {
                    reveal_strlit("secl");
                }
                "secl"
            },
            BusinessArea::seev => {
                proof {
                    reveal_strlit("seev");
                }
                "seev"
            },
            BusinessArea::semt => {
                proof {
                    reveal_strlit("semt");
                }
                "semt"
            },
            BusinessArea::sese => {
                proof {
                    reveal_strlit("sese");
                }
                "sese"
            },
            BusinessArea::seti => {
                proof {
                    reveal_strlit("seti");
                }
                "seti"
            },
            BusinessArea::setr => {
                proof {
                    reveal_strlit("setr");
                }
                "setr"
            },
            BusinessArea::supl => {
                proof {
                    reveal_strlit("supl");
                }
                "supl"
            },
            BusinessArea::trck => {
                proof {
                    reveal_strlit("trck");
                }
                "trck"
            },
            BusinessArea::trea => {
                proof {
                    reveal_strlit("trea");
                }
                "trea"
            },
            BusinessArea::tsin => {
                proof {
                    reveal_strlit("tsin");
                }
                "tsin"
            },
            BusinessArea::tsmt => {
                proof {
                    reveal_strlit("tsmt");
                }
                "tsmt"
            },
            BusinessArea::tsrv => {
                proof {
                    reveal_strlit("tsrv");
                }
                "tsrv"
            },
            BusinessArea::xsys => {
                proof {
                    reveal_strlit("xsys");
                }
                "xsys"
            },
        }
    }

    /// Human-readable name of the business area.
    pub fn description(self) -> (r: &'static str)
        ensures
            r@ == spec_description(self),
    {
        match self {
            BusinessArea::acmt => "Account Management",
            BusinessArea::admi => "Administration",
            BusinessArea::auth => "Authorities",
            BusinessArea::caaa => "Acceptor to Acquirer Card Transactions",
            BusinessArea::caad => "Card Administration",
            BusinessArea::caam => "ATM Management",
            BusinessArea::cafc => "Fee Collection",
            BusinessArea::cafm => "File Management",
            BusinessArea::cafr => "Fraud Reporting and Disposition",
            BusinessArea::cain => "Acquirer to Issuer Card Transactions",
            BusinessArea::camt => "Cash Management",
            BusinessArea::canm => "Network Management",
            BusinessArea::casp => "Sale to POI Card Transactions",
            BusinessArea::casr => "Settlement Reporting",
            BusinessArea::catm => "Terminal Management",
            BusinessArea::catp => "ATM Card Transactions",
            BusinessArea::cbrf => "Clearing Operations and Reporting",
            BusinessArea::colr => "Collateral Management",
            BusinessArea::fxtr => "Foreign Exchange Trade",
            BusinessArea::head => "Business Application Header",
            BusinessArea::pacs => "Payments Clearing and Settlement",
            BusinessArea::pain => "Payments Initiation",
            BusinessArea::reda => "Reference Data",
            BusinessArea::remt => "Payments Remittance Advice",
            BusinessArea::secl => "Securities Clearing",
            BusinessArea::seev => "Securities Events",
            BusinessArea::semt => "Securities Management",
            BusinessArea::sese => "Securities Settlement",
            BusinessArea::seti => "Securities Trade Initiation",
            BusinessArea::setr => "Securities Trade",
            BusinessArea::supl => "Supplementary Data",
            BusinessArea::trck => "Payments Tracker",
            BusinessArea::trea => "Treasury",
            BusinessArea::tsin => "Trade Services Initiation",
            BusinessArea::tsmt => "Trade Services Management",
            BusinessArea::tsrv => "Trade Services",
            BusinessArea::xsys => "System Message",
        }
    }

    /// Parse a 4-letter business-area code, e.g. `"pacs"`.
    pub fn from_code(code: &str) -> (r: Option<BusinessArea>)
        ensures
            r == spec_from_code(code@),
    {
        let v = chars_of(code);
        BusinessArea::from_code_chars(v.as_slice())
    }

    /// The business area whose code is the characters `v`.
    pub fn from_code_chars(v: &[char]) -> (r: Option<BusinessArea>)
        ensures
            r == spec_from_code(v@),
    {
        if v.len() != 4 {
            return None;
        }
        match (v[0], v[1], v[2], v[3]) {
            ('a', 'c', 'm', 't') => Some(BusinessArea::acmt),
            ('a', 'd', 'm', 'i') => Some(BusinessArea::admi),
            ('a', 'u', 't', 'h') => Some(BusinessArea::auth),
            ('c', 'a', 'a', 'a') => Some(BusinessArea::caaa),
            ('c', 'a', 'a', 'd') => Some(BusinessArea::caad),
            ('c', 'a', 'a', 'm') => Some(BusinessArea::caam),
            ('c', 'a', 'f', 'c') => Some(BusinessArea::cafc),
            ('c', 'a', 'f', 'm') => Some(BusinessArea::cafm),
            ('c', 'a', 'f', 'r') => Some(BusinessArea::cafr),
            ('c', 'a', 'i', 'n') => Some(BusinessArea::cain),
            ('c', 'a', 'm', 't') => Some(BusinessArea::camt),
            ('c', 'a', 'n', 'm') => Some(BusinessArea::canm),
            ('c', 'a', 's', 'p') => Some(BusinessArea::casp),
            ('c', 'a', 's', 'r') => Some(BusinessArea::casr),
            ('c', 'a', 't', 'm') => Some(BusinessArea::catm),
            ('c', 'a', 't', 'p') => Some(BusinessArea::catp),
            ('c', 'b', 'r', 'f') => Some(BusinessArea::cbrf),
            ('c', 'o', 'l', 'r') => Some(BusinessArea::colr),
            ('f', 'x', 't', 'r') => Some(BusinessArea::fxtr),
            ('h', 'e', 'a', 'd') => Some(BusinessArea::head),
            ('p', 'a', 'c', 's') => Some(BusinessArea::pacs),
            ('p', 'a', 'i', 'n') => Some(BusinessArea::pain),
            ('r', 'e', 'd', 'a') => Some(BusinessArea::reda),
            ('r', 'e', 'm', 't') => Some(BusinessArea::remt),
            ('s', 'e', 'c', 'l') => Some(BusinessArea::secl),
            ('s', 'e', 'e', 'v') => Some(BusinessArea::seev),
            ('s', 'e', 'm', 't') => Some(BusinessArea::semt),
            ('s', 'e', 's', 'e') => Some(BusinessArea::sese),
            ('s', 'e', 't', 'i') => Some(BusinessArea::seti),
            ('s', 'e', 't', 'r') => Some(BusinessArea::setr),
            ('s', 'u', 'p', 'l') => Some(BusinessArea::supl),
            ('t', 'r', 'c', 'k') => Some(BusinessArea::trck),
            ('t', 'r', 'e', 'a') => Some(BusinessArea::trea),
            ('t', 's', 'i', 'n') => Some(BusinessArea::tsin),
            ('t', 's', 'm', 't') => Some(BusinessArea::tsmt),
            ('t', 's', 'r', 'v') => Some(BusinessArea::tsrv),
            ('x', 's', 'y', 's') => Some(BusinessArea::xsys),
            _ => None,
        }
    }
}

/// Every area's code leads back to the area: `from_code(a.code()) == Some(a)`.
/// In particular no two areas share a code.
pub proof fn lemma_code_round_trip(a: BusinessArea)
    ensures
        spec_from_code(spec_code(a)) == Some(a),
{
}

/// Every code is four lowercase ASCII letters.
pub proof fn lemma_code_letters(a: BusinessArea)
    ensures
        spec_code(a).len() == 4,
        forall|i: int| 0 <= i < 4 ==> 'a' <= #[trigger] spec_code(a)[i] <= 'z',
{
}

/// `from_code` only accepts the code of the area it returns.
pub proof fn lemma_from_code_is_code(s: Seq<char>)
    ensures
        spec_from_code(s) matches Some(a) ==> spec_code(a) == s,
{
    if let Some(a) = spec_from_code(s) {
        assert(spec_code(a) =~= s);
    }
}

/// `ALL` lists every area exactly once, in catalogue order.
pub proof fn lemma_all_areas(a: BusinessArea)
    ensures
        0 <= area_index(a) < 37,
        BusinessArea::ALL@[area_index(a)] == a,
        forall|i: int| 0 <= i < 37 ==> area_index(#[trigger] BusinessArea::ALL@[i]) == i,
{
}

impl core::str::FromStr for BusinessArea {
    type Err = Error;

    fn from_str(s: &str) -> (r: Result<BusinessArea, Error>)
        ensures
            match spec_from_code(s@) {
                Some(a) => r == Ok::<BusinessArea, Error>(a),
                None => r matches Err(e) && e@ == crate::error::ErrorV::UnknownBusinessArea(s@),
            },
    {
        match BusinessArea::from_code(s) {
            Some(a) => Ok(a),
            None => Err(Error::UnknownBusinessArea(crate::text::owned(s))),
        }
    }
}

} // verus!
