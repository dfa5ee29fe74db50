use resistor_series::Resistor;

/// One CSV record line exactly as the generator assembles it.
fn expected_record(case: &str, value: &str, power: &str, manuf: &str) -> String {
    format!(
        "RES{}_{}, \"RES {} {}Ohm {}W\", {}, {}, {}, Digikey, {}, Atlantix_R.SchLib, Res1, Atlantix_R.PcbLib, RES{} , Atlantix EDA, =Description \r\n",
        case, value, case, value, power, value, case, power, manuf, case
    )
}

/// The series multiplier computed through the floating-point formula
/// round(10^(i/n) * 100) / 100, with the exponent narrowed to f32.
fn float_multiplier(i: usize, n: usize) -> f64 {
    let gamma: f64 = num_traits::Pow::pow(10.0, i as f32 / n as f32);
    (gamma * 100.0).round() / 100.0
}

/// A whole decade's output rebuilt independently from the float formula.
fn expected_output(
    n: usize,
    case: &str,
    power: &str,
    decade: u32,
    unit_suffix: &str,
    other_suffix: &str,
) -> String {
    let mut out = String::new();
    for i in 0..n {
        let v = float_multiplier(i, n);
        let value = match decade {
            1 => format!("{:.2}", v),
            10 => format!("{:2.1}", (decade as f64) * v),
            100 => format!("{:3.0}", (decade as f64) * v),
            1000 => format!("{:.2}", v) + "K",
            10000 => format!("{:2.1}", (10 as f64) * v) + "K",
            100000 => format!("{:3.0}", (100 as f64) * v) + "K",
            _ => unreachable!(),
        };
        let manuf = if decade == 1 {
            format!("541-{}{}", v, unit_suffix)
        } else {
            format!("541-{}{}", value, other_suffix)
        };
        out.push_str(&expected_record(case, &value, power, &manuf));
    }
    out
}

#[test]
fn matches_float_formula_all_decades_e24() {
    for &decade in &[1u32, 10, 100, 1000, 10000, 100000] {
        let mut r = Resistor::new(24, "0402".to_string());
        let got = r.generate(decade);
        let want = expected_output(24, "0402", "1/16", decade, "LLCT-ND", "LCT-ND");
        assert_eq!(got, want);
    }
}

#[test]
fn matches_float_formula_e96() {
    for &decade in &[1u32, 1000] {
        let mut r = Resistor::new(96, "0805".to_string());
        let got = r.generate(decade);
        let want = expected_output(96, "0805", "1/8", decade, "CCCT-ND", "CCT-ND");
        assert_eq!(got, want);
    }
}

#[test]
fn matches_float_formula_unknown_case_e48() {
    let mut r = Resistor::new(48, "9999".to_string());
    let got = r.generate(10);
    let want = expected_output(48, "9999", "0", 10, "XXXX-ND", "XXX-ND");
    assert_eq!(got, want);
}

#[test]
fn power_rating_table() {
    let table = [
        ("0201", "1/20"),
        ("0402", "1/16"),
        ("0603", "1/10"),
        ("0805", "1/8"),
        ("1206", "1/4"),
        ("1210", "1/2"),
        ("1218", "1"),
        ("2010", "3/4"),
        ("2512", "1"),
        ("9999", "0"),
        ("", "0"),
    ];
    for (case, power) in table {
        let r = Resistor::new(4, case.to_string());
        assert_eq!(r.power, power);
    }
}

#[test]
fn first_kilohm_record_fields() {
    let mut r = Resistor::new(24, "0402".to_string());
    let out = r.generate(1000);
    let first = out.split("\r\n").next().unwrap();
    assert!(first.starts_with("RES0402_1.00K, "));
    assert!(first.contains("541-1.00KLCT-ND"));
    assert_eq!(r.value, "9.09K");
    assert_eq!(r.name, "RES0402_9.09K");
}

#[test]
fn unit_decade_uses_raw_multiplier() {
    let mut r = Resistor::new(24, "0402".to_string());
    let len_before = r.generate(1000).len();
    let all = r.generate(1);
    let appended = &all[len_before..];
    let first = appended.split("\r\n").next().unwrap();
    assert!(first.starts_with("RES0402_1.00, "));
    assert!(first.contains("541-1LLCT-ND"));
    assert_eq!(r.value, "9.09");
}

#[test]
fn record_tokens_and_crlf() {
    let mut r = Resistor::new(24, "1206".to_string());
    let out = r.generate(100000);
    assert!(out.ends_with("\r\n"));
    let lines: Vec<&str> = out.split("\r\n").filter(|l| !l.is_empty()).collect();
    assert_eq!(lines.len(), 24);
    for line in lines {
        assert!(line.contains("Digikey"));
        assert!(line.contains("Atlantix_R.SchLib"));
        assert!(line.contains("Res1"));
        assert!(line.contains("Atlantix_R.PcbLib"));
        assert!(line.contains("Atlantix EDA"));
    }
}

#[test]
fn second_call_appends() {
    let mut r = Resistor::new(24, "0603".to_string());
    let g1 = r.generate(1000);
    let g2 = r.generate(1000);
    assert_eq!(g2.len(), 2 * g1.len());
    assert_eq!(&g2[..g1.len()], g1);
    assert_eq!(&g2[g1.len()..], g1);
}

#[test]
fn unsupported_decade_keeps_prior_value() {
    let mut r = Resistor::new(24, "0402".to_string());
    let out = r.generate(7);
    assert_eq!(r.value, "1.00K");
    assert_eq!(r.manuf, "Vishay");
    let lines: Vec<&str> = out.split("\r\n").filter(|l| !l.is_empty()).collect();
    assert_eq!(lines.len(), 24);
    for line in &lines {
        assert!(line.starts_with("RES0402_1.00K, "));
        assert!(line.contains(", Vishay, "));
    }
}

#[test]
fn unsupported_decade_keeps_last_formatted_value() {
    let mut r = Resistor::new(24, "0402".to_string());
    let len_before = r.generate(1000).len();
    let all = r.generate(7);
    assert_eq!(r.value, "9.09K");
    let appended = &all[len_before..];
    assert!(appended.starts_with("RES0402_9.09K, "));
}

#[test]
fn series_values_monotonic() {
    for &n in &[24usize, 48, 96, 192] {
        let mut r = Resistor::new(n, "0402".to_string());
        let out = r.generate(100);
        let mut prev: u64 = 0;
        let mut count = 0;
        for line in out.split("\r\n").filter(|l| !l.is_empty()) {
            let name = line.split(", ").next().unwrap();
            let value: u64 = name.strip_prefix("RES0402_").unwrap().parse().unwrap();
            assert!(value >= 100 && value < 1000);
            assert!(value > prev);
            prev = value;
            count += 1;
        }
        assert_eq!(count, n);
        assert!(out.starts_with("RES0402_100, "));
    }
}

#[test]
fn empty_series_generates_nothing() {
    let mut r = Resistor::new(0, "0402".to_string());
    assert_eq!(r.generate(1000), "");
    assert_eq!(r.name, "RES0402_1.00K");
    assert_eq!(r.value, "1.00K");
}

#[test]
fn helper_methods_rebuild_fields() {
    let mut r = Resistor::new(24, "0402".to_string());
    assert_eq!(r.set_name(), "RES0402_1.00K");
    r.set_vishay_num(0, 1000);
    assert_eq!(r.manuf, "541-1.00KLCT-ND");
    r.set_vishay_num(0, 1);
    assert_eq!(r.manuf, "541-1LLCT-ND");
    r.set_full_name();
    assert_eq!(r.name, "RES0402_1.00K");
    let rec = r.set_part();
    assert_eq!(rec, expected_record("0402", "1.00K", "1/16", "541-1LLCT-ND"));
    r.set_full_part_name();
    assert_eq!(r.full_part_name, rec);
}
