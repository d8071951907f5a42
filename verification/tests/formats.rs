//! The input formats and the report pieces that are not numbers.

use vyges_meas::alignment::Application;
use vyges_meas::binary64::{is_finite_bits, order_key, value_at_least, value_at_most};
use vyges_meas::job::{data_lines, parse_harmonics, series_error, sweep_error, sweep_fields};
use vyges_meas::report::{
    alignment_json, harmonic_list, jstr, met_json, opt, refused_json, refused_text,
    target_met, with_report_path,
};

#[test]
fn harmonic_lists_skip_blanks_and_report_the_first_bad_order() {
    assert_eq!(parse_harmonics("2,3,4,5"), Ok(vec![2, 3, 4, 5]));
    assert_eq!(parse_harmonics(" 2 , ,3,"), Ok(vec![2, 3]));
    assert_eq!(parse_harmonics(""), Ok(vec![]));
    assert_eq!(parse_harmonics("+7"), Ok(vec![7]));
    assert_eq!(
        parse_harmonics("2,x,-1"),
        Err("harmonic order \"x\" is not a number".to_string())
    );
    assert_eq!(
        parse_harmonics("2,-1"),
        Err("harmonic order \"-1\" is not a number".to_string())
    );
    assert_eq!(
        parse_harmonics("99999999999999999999999"),
        Err("harmonic order \"99999999999999999999999\" is not a number".to_string())
    );
    assert_eq!(
        parse_harmonics("+"),
        Err("harmonic order \"+\" is not a number".to_string())
    );
}

#[test]
fn data_lines_drop_comments_and_blanks_and_keep_their_numbers() {
    let text = "# series\n0.0\n\n 0.7071 # a comment\r\n1.0\n   \n#\n";
    let lines = data_lines(text);
    assert_eq!(
        lines,
        vec![
            (2, "0.0".to_string()),
            (4, "0.7071".to_string()),
            (5, "1.0".to_string())
        ]
    );
    assert_eq!(data_lines(""), vec![]);
    assert_eq!(data_lines("no newline at end"), vec![(1, "no newline at end".to_string())]);
    assert_eq!(data_lines("\u{3000}x\u{a0}"), vec![(1, "x".to_string())]);
}

#[test]
fn sweep_lines_need_three_fields() {
    assert_eq!(
        sweep_fields(2, "1.0     40.0   -0.6"),
        Ok(("1.0".to_string(), "40.0".to_string(), "-0.6".to_string()))
    );
    assert_eq!(
        sweep_fields(2, "1 2 3 4"),
        Ok(("1".to_string(), "2".to_string(), "3".to_string()))
    );
    assert_eq!(
        sweep_fields(17, "1.0\t40.0"),
        Err("line 17: expected `hz gain_db phase_deg`, found 2 field(s)".to_string())
    );
}

#[test]
fn unreadable_values_name_their_line() {
    assert_eq!(series_error(3, "abc"), "line 3: \"abc\" is not a number");
    assert_eq!(
        sweep_error(12, "gain", "4o.0"),
        "line 12: gain \"4o.0\" is not a number"
    );
}

#[test]
fn options_take_the_argument_after_their_first_occurrence() {
    let args: Vec<String> = ["spectral", "x.samples", "--metric", "thd", "--metric", "snr", "-o"]
        .iter()
        .map(|s| s.to_string())
        .collect();
    assert_eq!(opt(&args, "--metric"), Some("thd".to_string()));
    assert_eq!(opt(&args, "-o"), None);
    assert_eq!(opt(&args, "--target"), None);
    assert_eq!(opt(&args, "spectral"), Some("x.samples".to_string()));
}

#[test]
fn json_strings_escape_quotes_and_backslashes() {
    assert_eq!(jstr("plain"), "\"plain\"");
    assert_eq!(jstr("a\"b\\c"), "\"a\\\"b\\\\c\"");
    assert_eq!(jstr(""), "\"\"");
}

#[test]
fn the_report_path_leads_the_payload() {
    assert_eq!(
        with_report_path("{\n  \"db\": 1\n}\n", Some("out/r.txt")),
        "{\"report_path\": \"out/r.txt\",\n  \"db\": 1\n}\n"
    );
    assert_eq!(
        with_report_path("  { }", Some("a\"b")),
        "{\"report_path\": \"a\\\"b\" }"
    );
    assert_eq!(with_report_path("{\"x\": 1}", None), "{\"x\": 1}");
    assert_eq!(with_report_path("[1]", Some("p")), "[1]");
}

#[test]
fn without_a_target_the_verdict_is_unknown() {
    assert_eq!(met_json(None), ("null".to_string(), "unknown"));
    assert_eq!(met_json(Some(true)), ("true".to_string(), "pass"));
    assert_eq!(met_json(Some(false)), ("false".to_string(), "fail"));
    let b = |x: f64| x.to_bits();
    assert!(target_met(b(70.0), b(60.0), true));
    assert!(!target_met(b(50.0), b(60.0), true));
    assert!(target_met(b(-60.0), b(-40.0), false));
    assert!(!target_met(b(-30.0), b(-40.0), false));
    assert!(target_met(b(f64::NEG_INFINITY), b(-40.0), false));
    assert!(!target_met(b(f64::NAN), b(-40.0), false));
    assert!(!target_met(b(1.0), b(f64::NAN), true));
    assert!(target_met(b(-0.0), b(0.0), true));
}

#[test]
fn harmonic_lists_render_for_json_and_text() {
    let hb = vec![(2, 10), (3, 15)];
    assert_eq!(
        harmonic_list(&hb, false),
        "{\"order\": 2, \"bin\": 10}, {\"order\": 3, \"bin\": 15}"
    );
    assert_eq!(harmonic_list(&hb, true), "2->bin 10, 3->bin 15");
    assert_eq!(harmonic_list(&vec![], true), "");
}

#[test]
fn refusals_are_written_as_results() {
    assert_eq!(
        refused_json("snr", "sample 7 is \"bad\""),
        "{\n  \"metric\": \"snr\",\n  \"met\": null,\n  \"refused\": \"sample 7 is \\\"bad\\\"\"\n}\n"
    );
    assert_eq!(
        refused_text("thd", "why"),
        "vyges-meas — thd NOT MEASURED\n  why\n"
    );
}

#[test]
fn every_payload_carries_its_alignment_block() {
    let generic = alignment_json(&Application::Generic.alignment(), "generic");
    assert!(generic.contains("\"alignment\""));
    assert!(generic.contains("\"level\": \"vyges-definition\""));
    assert!(generic.contains("\"edition\": null"));
    assert!(generic.contains("\"application\": \"generic\""));
    let adc = alignment_json(&Application::Adc.alignment(), "adc");
    assert!(adc.contains("\"level\": \"candidate\""));
    assert!(adc.contains("\"edition\": \"IEEE 1241-2023\""));
    assert!(adc.contains("NO clause-level review"));
    for app in [
        Application::Generic,
        Application::Adc,
        Application::Dac,
        Application::Recorder,
    ] {
        let block = alignment_json(&app.alignment(), app.as_str());
        assert!(!block.contains("\"level\": \"reviewed\""));
        assert!(!block.contains("\"level\": \"conformant\""));
    }
}

#[test]
fn bit_patterns_order_as_their_values() {
    let vals = [
        f64::NEG_INFINITY,
        -1e300,
        -2.5,
        -1e-300,
        -0.0,
        0.0,
        5e-324,
        1.0,
        2.0,
        1e300,
        f64::INFINITY,
    ];
    for a in vals {
        for b in vals {
            assert_eq!(order_key(a.to_bits()) < order_key(b.to_bits()), a < b, "{a} < {b}");
            assert_eq!(order_key(a.to_bits()) == order_key(b.to_bits()), a == b, "{a} == {b}");
            assert_eq!(value_at_least(a.to_bits(), b.to_bits()), a >= b);
            assert_eq!(value_at_most(a.to_bits(), b.to_bits()), a <= b);
        }
        assert_eq!(is_finite_bits(a.to_bits()), a.is_finite());
    }
    assert!(!is_finite_bits(f64::NAN.to_bits()));
    assert!(!value_at_least(f64::NAN.to_bits(), 0.0f64.to_bits()));
}
