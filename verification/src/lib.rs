//! Generator of standardized resistor E-series value tables and the formatted
//! part-library records (name, power rating, vendor catalog number, CSV line)
//! that EDA library tooling imports.

use vstd::prelude::*;
use vstd::string::StringExecFns;

pub mod fmtnum;
pub mod series;
pub mod tables;

use crate::fmtnum::{dec_digits, fmt_min_dec, fmt_one_dec, fmt_two_dec, fmt_u64, min_dec, one_dec,
    two_dec};
use crate::series::{lemma_cents_at_least_unit, lemma_first_entry, series_cents,
    series_entry_cents};
use crate::tables::{other_suffix_for_case, other_suffix_of, power_for_case, power_of_case,
    unit_suffix_for_case, unit_suffix_of};

verus! {

/// The short library name of a part: `RES<case>_<value>`.
pub open spec fn name_of(case: Seq<char>, value: Seq<char>) -> Seq<char> {
    "RES"@ + case + "_"@ + value
}

/// The vendor catalog number used in the unit decade, built from the raw
/// series multiplier in its shortest decimal form.
pub open spec fn unit_vendor_number(cents: nat, case: Seq<char>) -> Seq<char> {
    "541-"@ + min_dec(cents) + unit_suffix_of(case)
}

/// The vendor catalog number used in every other decade, built from the
/// already formatted value string.
pub open spec fn other_vendor_number(value: Seq<char>, case: Seq<char>) -> Seq<char> {
    "541-"@ + value + other_suffix_of(case)
}

/// The leading fields of one CSV record: item name, quoted description,
/// value, case and power.
pub open spec fn record_head(case: Seq<char>, value: Seq<char>, power: Seq<char>) -> Seq<char> {
    name_of(case, value) + ", "@ + "\""@ + "RES "@ + case + " "@ + value + "Ohm "@ + power
        + "W\", "@ + value + ", "@ + case + ", "@ + power + ", "@
}

/// The trailing fields of one CSV record: distributor, vendor number, and the
/// fixed library, footprint and company references.
pub open spec fn record_tail(case: Seq<char>, manuf: Seq<char>) -> Seq<char> {
    "Digikey, "@ + manuf + ", "@ + "Atlantix_R.SchLib, "@ + "Res1, "@ + "Atlantix_R.PcbLib, "@
        + "RES"@ + case + " , "@ + "Atlantix EDA, =Description "@ + "\r\n"@
}

/// One full CSV record line, CRLF terminated.
pub open spec fn record_of(
    case: Seq<char>,
    value: Seq<char>,
    power: Seq<char>,
    manuf: Seq<char>,
) -> Seq<char> {
    record_head(case, value, power) + record_tail(case, manuf)
}

/// The decade multipliers that `generate` formats; any other decade leaves
/// the value and vendor number of each entry untouched.
pub open spec fn decade_supported(decade: u32) -> bool {
    decade == 1 || decade == 10 || decade == 100 || decade == 1000 || decade == 10000
        || decade == 100000
}

/// The value string of one entry for the given decade: the centiohm
/// multiplier scaled and rendered with the decade's decimal places and
/// kilohm suffix; an unsupported decade keeps the prior value string.
pub open spec fn value_for(decade: u32, cents: nat, prior: Seq<char>) -> Seq<char> {
    if decade == 1 {
        two_dec(cents)
    } else if decade == 10 {
        one_dec(cents)
    } else if decade == 100 {
        dec_digits(cents)
    } else if decade == 1000 {
        two_dec(cents) + "K"@
    } else if decade == 10000 {
        one_dec(cents) + "K"@
    } else if decade == 100000 {
        dec_digits(cents) + "K"@
    } else {
        prior
    }
}

/// The working state of a `generate` pass after its first `k` entries: the
/// value string, the vendor number, and the records appended so far.
pub open spec fn gen_state(
    cents: Seq<u64>,
    case: Seq<char>,
    power: Seq<char>,
    decade: u32,
    value0: Seq<char>,
    manuf0: Seq<char>,
    k: nat,
) -> (Seq<char>, Seq<char>, Seq<char>)
    decreases k,
{
    if k == 0 {
        (value0, manuf0, Seq::<char>::empty())
    } else {
        let prev = gen_state(cents, case, power, decade, value0, manuf0, (k - 1) as nat);
        let c = cents[k - 1] as nat;
        let v = value_for(decade, c, prev.0);
        let m = if decade == 1 {
            unit_vendor_number(c, case)
        } else if decade_supported(decade) {
            other_vendor_number(v, case)
        } else {
            prev.1
        };
        (v, m, prev.2 + record_of(case, v, power, m))
    }
}

/// One resistor series: a case/series-size pair together with the working
/// fields of a `generate` pass and the text accumulated so far.
#[derive(Debug, Clone, PartialEq)]
pub struct Resistor {
    pub display: bool,
    pub series: usize,
    pub name: String,
    pub full_part_name: String,
    pub full_series: String,
    pub value: String,
    pub manuf: String,
    pub case: String,
    pub power: String,
    pub series_array: Vec<u64>,
}

impl Resistor {
    /// The series size always matches the length of the value table.
    pub open spec fn wf(&self) -> bool {
        self.series == self.series_array@.len()
    }

    /// Builds the series: the table of `eseries` centiohm multipliers, the
    /// power rating of the package, and the initial working fields.
    pub fn new(eseries: usize, package: String) -> (r: Resistor)
        ensures
            r.wf(),
            r.series == eseries,
            r.series_array@.len() == eseries,
            forall|i: int|
                0 <= i < eseries ==> r.series_array@[i] as nat == series_cents(
                    i as nat,
                    eseries as nat,
                ),
            eseries > 0 ==> r.series_array@[0] == 100,
            forall|i: int| 0 <= i < eseries ==> r.series_array@[i] >= 100,
            r.case@ == package@,
            r.power@ == power_of_case(package@),
            r.value@ == "1.00K"@,
            r.manuf@ == "Vishay"@,
            r.name@ == name_of(package@, "1.00K"@),
            r.full_part_name@ == name_of(package@, "1.00K"@),
            r.full_series@ == Seq::<char>::empty(),
            !r.display,
    {
        let mut alpha: Vec<u64> = Vec::new();
        let mut index: usize = 0;
        while index < eseries
            invariant
                index <= eseries,
                alpha@.len() == index,
                forall|i: int|
                    0 <= i < index ==> alpha@[i] as nat == series_cents(i as nat, eseries as nat),
                index > 0 ==> alpha@[0] == 100,
                forall|i: int| 0 <= i < index ==> alpha@[i] >= 100,
            decreases eseries - index,
        {
            let gamma = series_entry_cents(index, eseries);
            proof {
                if index == 0 {
                    lemma_first_entry(eseries as nat);
                }
                lemma_cents_at_least_unit(index as nat, eseries as nat);
            }
            alpha.push(gamma);
            index = index + 1;
        }
        let watts = power_for_case(package.as_str());
        let mut name = String::from_str("RES");
        name.append(package.as_str());
        name.append("_");
        name.append("1.00K");
        proof {
            assert(name@ =~= name_of(package@, "1.00K"@));
        }
        let full_part_name = name.clone();
        Resistor {
            display: false,
            series: eseries,
            name,
            full_part_name,
            full_series: String::new(),
            value: String::from_str("1.00K"),
            manuf: String::from_str("Vishay"),
            case: package,
            power: watts,
            series_array: alpha,
        }
    }

    /// Rebuilds the vendor catalog number for the entry at `index`: the unit
    /// decade uses the raw series multiplier and the unit suffix alphabet,
    /// every other decade uses the formatted value string and the second
    /// suffix alphabet.
    pub fn set_vishay_num(&mut self, index: usize, decade: u32)
        requires
            decade == 1 ==> index < old(self).series_array@.len(),
        ensures
            decade == 1 ==> final(self).manuf@ == unit_vendor_number(
                old(self).series_array@[index as int] as nat,
                old(self).case@,
            ),
            decade != 1 ==> final(self).manuf@ == other_vendor_number(
                old(self).value@,
                old(self).case@,
            ),
            final(self).display == old(self).display,
            final(self).series == old(self).series,
            final(self).name == old(self).name,
            final(self).full_part_name == old(self).full_part_name,
            final(self).full_series == old(self).full_series,
            final(self).value == old(self).value,
            final(self).case == old(self).case,
            final(self).power == old(self).power,
            final(self).series_array == old(self).series_array,
    {
        if decade == 1 {
            let raw = fmt_min_dec(self.series_array[index]);
            let suffix = unit_suffix_for_case(self.case.as_str());
            let mut m = String::from_str("541-");
            m.append(raw.as_str());
            m.append(suffix);
            proof {
                assert(m@ =~= unit_vendor_number(
                    self.series_array@[index as int] as nat,
                    self.case@,
                ));
            }
            self.manuf = m;
        } else {
            let suffix = other_suffix_for_case(self.case.as_str());
            let mut m = String::from_str("541-");
            m.append(self.value.as_str());
            m.append(suffix);
            proof {
                assert(m@ =~= other_vendor_number(self.value@, self.case@));
            }
            self.manuf = m;
        }
    }

    /// Builds the short library name `RES<case>_<value>` from the current
    /// working fields.
    pub fn set_name(&mut self) -> (r: String)
        ensures
            r@ == name_of(old(self).case@, old(self).value@),
            *final(self) == *old(self),
    {
        let mut n = String::from_str("RES");
        n.append(self.case.as_str());
        n.append("_");
        n.append(self.value.as_str());
        proof {
            assert(n@ =~= name_of(self.case@, self.value@));
        }
        n
    }

    /// Stores the short library name built from the current working fields.
    pub fn set_full_name(&mut self)
        ensures
            final(self).name@ == name_of(old(self).case@, old(self).value@),
            final(self).display == old(self).display,
            final(self).series == old(self).series,
            final(self).full_part_name == old(self).full_part_name,
            final(self).full_series == old(self).full_series,
            final(self).value == old(self).value,
            final(self).manuf == old(self).manuf,
            final(self).case == old(self).case,
            final(self).power == old(self).power,
            final(self).series_array == old(self).series_array,
    {
        let n = self.set_name();
        self.name = n;
    }

    /// Builds one full CSV record line from the current working fields.
    pub fn set_part(&mut self) -> (r: String)
        ensures
            r@ == record_of(old(self).case@, old(self).value@, old(self).power@, old(self).manuf@),
            *final(self) == *old(self),
    {
        let mut s = String::from_str("RES");
        s.append(self.case.as_str());
        s.append("_");
        s.append(self.value.as_str());
        s.append(", ");
        s.append("\"");
        s.append("RES ");
        s.append(self.case.as_str());
        s.append(" ");
        s.append(self.value.as_str());
        s.append("Ohm ");
        s.append(self.power.as_str());
        s.append("W\", ");
        s.append(self.value.as_str());
        s.append(", ");
        s.append(self.case.as_str());
        s.append(", ");
        s.append(self.power.as_str());
        s.append(", ");
        s.append("Digikey, ");
        s.append(self.manuf.as_str());
        s.append(", ");
        s.append("Atlantix_R.SchLib, ");
        s.append("Res1, ");
        s.append("Atlantix_R.PcbLib, ");
        s.append("RES");
        s.append(self.case.as_str());
        s.append(" , ");
        s.append("Atlantix EDA, =Description ");
        s.append("\r\n");
        proof {
            assert(s@ =~= record_of(self.case@, self.value@, self.power@, self.manuf@));
        }
        s
    }

    /// Stores the full CSV record line built from the current working fields.
    pub fn set_full_part_name(&mut self)
        ensures
            final(self).full_part_name@ == record_of(
                old(self).case@,
                old(self).value@,
                old(self).power@,
                old(self).manuf@,
            ),
            final(self).display == old(self).display,
            final(self).series == old(self).series,
            final(self).name == old(self).name,
            final(self).full_series == old(self).full_series,
            final(self).value == old(self).value,
            final(self).manuf == old(self).manuf,
            final(self).case == old(self).case,
            final(self).power == old(self).power,
            final(self).series_array == old(self).series_array,
    {
        let p = self.set_part();
        self.full_part_name = p;
    }

    /// Formats every entry of the series for the requested decade, appends
    /// one CSV record per entry to the accumulated text, and returns the
    /// whole accumulation. An unsupported decade appends records built from
    /// the unchanged prior value and vendor number.
    #[verifier::rlimit(60)]
    pub fn generate(&mut self, decade: u32) -> (r: String)
        requires
            old(self).wf(),
        ensures
            final(self).wf(),
            ({
                let st = gen_state(
                    old(self).series_array@,
                    old(self).case@,
                    old(self).power@,
                    decade,
                    old(self).value@,
                    old(self).manuf@,
                    old(self).series as nat,
                );
                &&& final(self).value@ == st.0
                &&& final(self).manuf@ == st.1
                &&& final(self).full_series@ == old(self).full_series@ + st.2
                &&& r@ == final(self).full_series@
                &&& final(self).name@ == if old(self).series > 0 {
                    name_of(old(self).case@, st.0)
                } else {
                    old(self).name@
                }
                &&& final(self).full_part_name@ == if old(self).series > 0 {
                    record_of(old(self).case@, st.0, old(self).power@, st.1)
                } else {
                    old(self).full_part_name@
                }
            }),
            final(self).display == old(self).display,
            final(self).series == old(self).series,
            final(self).case == old(self).case,
            final(self).power == old(self).power,
            final(self).series_array == old(self).series_array,
            !decade_supported(decade) ==> final(self).value@ == old(self).value@
                && final(self).manuf@ == old(self).manuf@,
    {
        let n = self.series;
        let mut index: usize = 0;
        while index < n
            invariant
                index <= n,
                n == old(self).series,
                self.wf(),
                self.display == old(self).display,
                self.series == old(self).series,
                self.case == old(self).case,
                self.power == old(self).power,
                self.series_array == old(self).series_array,
                ({
                    let st = gen_state(
                        old(self).series_array@,
                        old(self).case@,
                        old(self).power@,
                        decade,
                        old(self).value@,
                        old(self).manuf@,
                        index as nat,
                    );
                    &&& self.value@ == st.0
                    &&& self.manuf@ == st.1
                    &&& self.full_series@ == old(self).full_series@ + st.2
                    &&& self.name@ == if index > 0 {
                        name_of(old(self).case@, st.0)
                    } else {
                        old(self).name@
                    }
                    &&& self.full_part_name@ == if index > 0 {
                        record_of(old(self).case@, st.0, old(self).power@, st.1)
                    } else {
                        old(self).full_part_name@
                    }
                }),
            decreases n - index,
        {
            if decade == 1 {
                self.value = fmt_two_dec(self.series_array[index]);
                self.set_vishay_num(index, decade);
            } else if decade == 10 {
                self.value = fmt_one_dec(self.series_array[index]);
                self.set_vishay_num(index, decade);
            } else if decade == 100 {
                self.value = fmt_u64(self.series_array[index]);
                self.set_vishay_num(index, decade);
            } else if decade == 1000 {
                let mut v = fmt_two_dec(self.series_array[index]);
                v.append("K");
                self.value = v;
                self.set_vishay_num(index, decade);
            } else if decade == 10000 {
                let mut v = fmt_one_dec(self.series_array[index]);
                v.append("K");
                self.value = v;
                self.set_vishay_num(index, decade);
            } else if decade == 100000 {
                let mut v = fmt_u64(self.series_array[index]);
                v.append("K");
                self.value = v;
                self.set_vishay_num(index, decade);
            }
            self.set_full_name();
            self.set_full_part_name();
            self.full_series.append(self.full_part_name.as_str());
            proof {
                let arr = old(self).series_array@;
                let cse = old(self).case@;
                let pwr = old(self).power@;
                let i = index as nat;
                let prev = gen_state(arr, cse, pwr, decade, old(self).value@, old(self).manuf@, i);
                let next = gen_state(
                    arr,
                    cse,
                    pwr,
                    decade,
                    old(self).value@,
                    old(self).manuf@,
                    i + 1,
                );
                let c = arr[i as int] as nat;
                assert(next.0 == value_for(decade, c, prev.0));
                assert(self.value@ == next.0);
                assert(self.manuf@ == next.1);
                assert(next.2 == prev.2 + record_of(cse, next.0, pwr, next.1));
                assert(self.full_part_name@ == record_of(cse, next.0, pwr, next.1));
                assert(self.full_series@ =~= old(self).full_series@ + next.2);
                assert(self.name@ == name_of(cse, next.0));
            }
            index = index + 1;
        }
        proof {
            if !decade_supported(decade) {
                lemma_gen_state_unsupported(
                    old(self).series_array@,
                    old(self).case@,
                    old(self).power@,
                    decade,
                    old(self).value@,
                    old(self).manuf@,
                    old(self).series as nat,
                );
            }
        }
        let out = self.full_series.clone();
        out
    }
}

/// Law: a pass over a decade that `generate` does not support never moves the
/// working value or vendor number off their prior state, however many entries
/// the series holds.
pub proof fn lemma_gen_state_unsupported(
    cents: Seq<u64>,
    case: Seq<char>,
    power: Seq<char>,
    decade: u32,
    value0: Seq<char>,
    manuf0: Seq<char>,
    k: nat,
)
    requires
        !decade_supported(decade),
    ensures
        gen_state(cents, case, power, decade, value0, manuf0, k).0 == value0,
        gen_state(cents, case, power, decade, value0, manuf0, k).1 == manuf0,
    decreases k,
{
    if k > 0 {
        lemma_gen_state_unsupported(cents, case, power, decade, value0, manuf0, (k - 1) as nat);
    }
}

/// With a supported decade, every entry rebuilds the value and vendor number
/// from the series table alone, so the appended records do not depend on the
/// working state the pass started from.
proof fn lemma_gen_state_start_independent(
    cents: Seq<u64>,
    case: Seq<char>,
    power: Seq<char>,
    decade: u32,
    va: Seq<char>,
    ma: Seq<char>,
    vb: Seq<char>,
    mb: Seq<char>,
    k: nat,
)
    requires
        decade_supported(decade),
    ensures
        ({
            let sa = gen_state(cents, case, power, decade, va, ma, k);
            let sb = gen_state(cents, case, power, decade, vb, mb, k);
            &&& sa.2 == sb.2
            &&& k > 0 ==> sa.0 == sb.0 && sa.1 == sb.1
        }),
    decreases k,
{
    if k > 0 {
        lemma_gen_state_start_independent(
            cents,
            case,
            power,
            decade,
            va,
            ma,
            vb,
            mb,
            (k - 1) as nat,
        );
    }
}

/// Law: a second `generate` pass with the same decade appends exactly the
/// block of records the first pass appended, so the accumulated text grows by
/// one identical block per call rather than being replaced.
pub proof fn lemma_second_pass_appends_same(
    cents: Seq<u64>,
    case: Seq<char>,
    power: Seq<char>,
    decade: u32,
    value0: Seq<char>,
    manuf0: Seq<char>,
)
    ensures
        ({
            let st1 = gen_state(cents, case, power, decade, value0, manuf0, cents.len());
            let st2 = gen_state(cents, case, power, decade, st1.0, st1.1, cents.len());
            st2.2 == st1.2
        }),
{
    let st1 = gen_state(cents, case, power, decade, value0, manuf0, cents.len());
    if decade_supported(decade) {
        lemma_gen_state_start_independent(
            cents,
            case,
            power,
            decade,
            value0,
            manuf0,
            st1.0,
            st1.1,
            cents.len(),
        );
    } else {
        lemma_gen_state_unsupported(cents, case, power, decade, value0, manuf0, cents.len());
    }
}

/// `needle` occurs somewhere inside `hay`.
pub open spec fn contains_seq(hay: Seq<char>, needle: Seq<char>) -> bool {
    exists|i: int|
        0 <= i && i + needle.len() <= hay.len() && #[trigger] hay.subrange(i, i + needle.len())
            == needle
}

/// Law: every record line ends with CRLF and carries the fixed distributor,
/// library, footprint and company tokens, whatever the case, value, power and
/// vendor number hold.
#[verifier::rlimit(60)]
pub proof fn lemma_record_fixed_tokens(
    case: Seq<char>,
    value: Seq<char>,
    power: Seq<char>,
    manuf: Seq<char>,
)
    ensures
        ({
            let r = record_of(case, value, power, manuf);
            &&& r.len() >= 2
            &&& r.subrange(r.len() - 2, r.len() as int) == "\r\n"@
            &&& contains_seq(r, "Digikey"@)
            &&& contains_seq(r, "Atlantix_R.SchLib"@)
            &&& contains_seq(r, "Res1"@)
            &&& contains_seq(r, "Atlantix_R.PcbLib"@)
            &&& contains_seq(r, "Atlantix EDA"@)
        }),
{
    reveal_strlit("Digikey");
    reveal_strlit("Digikey, ");
    reveal_strlit("Atlantix_R.SchLib");
    reveal_strlit("Atlantix_R.SchLib, ");
    reveal_strlit("Res1");
    reveal_strlit("Res1, ");
    reveal_strlit("Atlantix_R.PcbLib");
    reveal_strlit("Atlantix_R.PcbLib, ");
    reveal_strlit("Atlantix EDA");
    reveal_strlit("Atlantix EDA, =Description ");
    reveal_strlit("\r\n");
    reveal_strlit(", ");
    reveal_strlit("RES");
    reveal_strlit(" , ");
    let r = record_of(case, value, power, manuf);
    let h = record_head(case, value, power).len() as int;
    let m = manuf.len() as int;
    let c = case.len() as int;
    assert(r.subrange(h, h + 7) =~= "Digikey"@);
    assert(contains_seq(r, "Digikey"@));
    assert(r.subrange(h + 11 + m, h + 11 + m + 17) =~= "Atlantix_R.SchLib"@);
    assert(contains_seq(r, "Atlantix_R.SchLib"@));
    assert(r.subrange(h + 30 + m, h + 30 + m + 4) =~= "Res1"@);
    assert(contains_seq(r, "Res1"@));
    assert(r.subrange(h + 36 + m, h + 36 + m + 17) =~= "Atlantix_R.PcbLib"@);
    assert(contains_seq(r, "Atlantix_R.PcbLib"@));
    assert(r.subrange(h + 61 + m + c, h + 61 + m + c + 12) =~= "Atlantix EDA"@);
    assert(contains_seq(r, "Atlantix EDA"@));
    assert(r.len() == h + 90 + m + c);
    assert(r.subrange(r.len() - 2, r.len() as int) =~= "\r\n"@);
}

/// A needle found in the right part of a concatenation is found in the whole.
proof fn lemma_contains_concat_right(a: Seq<char>, b: Seq<char>, n: Seq<char>)
    requires
        contains_seq(b, n),
    ensures
        contains_seq(a + b, n),
{
    let i = choose|i: int|
        0 <= i && i + n.len() <= b.len() && #[trigger] b.subrange(i, i + n.len()) == n;
    assert((a + b).subrange(a.len() + i, a.len() + i + n.len()) =~= b.subrange(i, i + n.len()));
}

/// Law: once a pass has appended at least one record, the accumulated text
/// ends with CRLF and carries the fixed distributor, library, footprint and
/// company tokens of its last record, whatever state the pass started from.
pub proof fn lemma_generated_output_tokens(
    cents: Seq<u64>,
    case: Seq<char>,
    power: Seq<char>,
    decade: u32,
    value0: Seq<char>,
    manuf0: Seq<char>,
    k: nat,
)
    requires
        k > 0,
    ensures
        ({
            let acc = gen_state(cents, case, power, decade, value0, manuf0, k).2;
            &&& acc.len() >= 2
            &&& acc.subrange(acc.len() - 2, acc.len() as int) == "\r\n"@
            &&& contains_seq(acc, "Digikey"@)
            &&& contains_seq(acc, "Atlantix_R.SchLib"@)
            &&& contains_seq(acc, "Res1"@)
            &&& contains_seq(acc, "Atlantix_R.PcbLib"@)
            &&& contains_seq(acc, "Atlantix EDA"@)
        }),
{
    let st = gen_state(cents, case, power, decade, value0, manuf0, k);
    let prev = gen_state(cents, case, power, decade, value0, manuf0, (k - 1) as nat);
    let rec = record_of(case, st.0, power, st.1);
    assert(st.2 == prev.2 + rec);
    lemma_record_fixed_tokens(case, st.0, power, st.1);
    lemma_contains_concat_right(prev.2, rec, "Digikey"@);
    lemma_contains_concat_right(prev.2, rec, "Atlantix_R.SchLib"@);
    lemma_contains_concat_right(prev.2, rec, "Res1"@);
    lemma_contains_concat_right(prev.2, rec, "Atlantix_R.PcbLib"@);
    lemma_contains_concat_right(prev.2, rec, "Atlantix EDA"@);
    assert(st.2.subrange(st.2.len() - 2, st.2.len() as int) =~= rec.subrange(
        rec.len() - 2,
        rec.len() as int,
    ));
}

} // verus!
