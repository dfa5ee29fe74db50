//! The fixed case-code tables: power rating per package, and the two vendor
//! catalog suffix alphabets (one for the unit decade, one for all others).
//! Unrecognized case codes fall through to a default row; no lookup fails.

use vstd::prelude::*;
use vstd::string::StringExecFns;
use vstd::string::StrSliceExecFns;

verus! {

/// The power rating of a package, as the fixed table states it; `"0"` for an
/// unrecognized case code.
pub open spec fn power_of_case(case: Seq<char>) -> Seq<char> {
    if case == "0201"@ {
        "1/20"@
    } else if case == "0402"@ {
        "1/16"@
    } else if case == "0603"@ {
        "1/10"@
    } else if case == "0805"@ {
        "1/8"@
    } else if case == "1206"@ {
        "1/4"@
    } else if case == "1210"@ {
        "1/2"@
    } else if case == "1218"@ {
        "1"@
    } else if case == "2010"@ {
        "3/4"@
    } else if case == "2512"@ {
        "1"@
    } else {
        "0"@
    }
}

/// The vendor catalog suffix used for the unit decade (1 to 9.99 ohms).
pub open spec fn unit_suffix_of(case: Seq<char>) -> Seq<char> {
    if case == "0402"@ {
        "LLCT-ND"@
    } else if case == "0603"@ {
        "HHCT-ND"@
    } else if case == "0805"@ {
        "CCCT-ND"@
    } else if case == "1206"@ {
        "FFCT-ND"@
    } else if case == "1210"@ {
        "AACT-ND"@
    } else if case == "1218"@ {
        "ANCT-ND"@
    } else if case == "2010"@ {
        "ACCT-ND"@
    } else if case == "2512"@ {
        "AFCT-ND"@
    } else {
        "XXXX-ND"@
    }
}

/// The vendor catalog suffix used for every decade other than the unit one.
pub open spec fn other_suffix_of(case: Seq<char>) -> Seq<char> {
    if case == "0402"@ {
        "LCT-ND"@
    } else if case == "0603"@ {
        "HCT-ND"@
    } else if case == "0805"@ {
        "CCT-ND"@
    } else if case == "1206"@ {
        "FCT-ND"@
    } else if case == "1210"@ {
        "VCT-ND"@
    } else if case == "1218"@ {
        "KANCT-ND"@
    } else if case == "2010"@ {
        "KACCT-ND"@
    } else if case == "2512"@ {
        "KAFCT-ND"@
    } else {
        "XXX-ND"@
    }
}

/// Character-by-character string comparison.
pub fn str_eq(a: &str, b: &str) -> (r: bool)
    ensures
        r == (a@ == b@),
{
    let alen = a.unicode_len();
    let blen = b.unicode_len();
    if alen != blen {
        proof {
            assert(a@ != b@);
        }
        return false;
    }
    let mut i: usize = 0;
    while i < alen
        invariant
            alen == a@.len(),
            blen == b@.len(),
            alen == blen,
            i <= alen,
            forall|j: int| 0 <= j < i ==> a@[j] == b@[j],
        decreases alen - i,
    {
        let ca = a.get_char(i);
        let cb = b.get_char(i);
        if ca != cb {
            proof {
                assert(a@[i as int] != b@[i as int]);
            }
            return false;
        }
        i = i + 1;
    }
    proof {
        assert(a@ =~= b@);
    }
    true
}

/// Looks the package's power rating up in the fixed table.
pub fn power_for_case(case: &str) -> (r: String)
    ensures
        r@ == power_of_case(case@),
{
    if str_eq(case, "0201") {
        String::from_str("1/20")
    } else if str_eq(case, "0402") {
        String::from_str("1/16")
    } else if str_eq(case, "0603") {
        String::from_str("1/10")
    } else if str_eq(case, "0805") {
        String::from_str("1/8")
    } else if str_eq(case, "1206") {
        String::from_str("1/4")
    } else if str_eq(case, "1210") {
        String::from_str("1/2")
    } else if str_eq(case, "1218") {
        String::from_str("1")
    } else if str_eq(case, "2010") {
        String::from_str("3/4")
    } else if str_eq(case, "2512") {
        String::from_str("1")
    } else {
        String::from_str("0")
    }
}

/// Looks the unit-decade catalog suffix up in the fixed table.
pub fn unit_suffix_for_case(case: &str) -> (r: &'static str)
    ensures
        r@ == unit_suffix_of(case@),
{
    if str_eq(case, "0402") {
        "LLCT-ND"
    } else if str_eq(case, "0603") {
        "HHCT-ND"
    } else if str_eq(case, "0805") {
        "CCCT-ND"
    } else if str_eq(case, "1206") {
        "FFCT-ND"
    } else if str_eq(case, "1210") {
        "AACT-ND"
    } else if str_eq(case, "1218") {
        "ANCT-ND"
    } else if str_eq(case, "2010") {
        "ACCT-ND"
    } else if str_eq(case, "2512") {
        "AFCT-ND"
    } else {
        "XXXX-ND"
    }
}

/// Looks the catalog suffix for the non-unit decades up in the fixed table.
pub fn other_suffix_for_case(case: &str) -> (r: &'static str)
    ensures
        r@ == other_suffix_of(case@),
{
    if str_eq(case, "0402") {
        "LCT-ND"
    } else if str_eq(case, "0603") {
        "HCT-ND"
    } else if str_eq(case, "0805") {
        "CCT-ND"
    } else if str_eq(case, "1206") {
        "FCT-ND"
    } else if str_eq(case, "1210") {
        "VCT-ND"
    } else if str_eq(case, "1218") {
        "KANCT-ND"
    } else if str_eq(case, "2010") {
        "KACCT-ND"
    } else if str_eq(case, "2512") {
        "KAFCT-ND"
    } else {
        "XXX-ND"
    }
}

} // verus!
