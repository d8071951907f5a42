//! The full result payloads and text reports, the records they are read from, and the claim
//! every result carries.

use vyges_meas::alignment::Application;
use vyges_meas::job::{
    check_not_empty, data_lines, order_error_text, series_error_text, series_infinite_text,
    series_values, sweep_error_text, sweep_points, Record,
};
use vyges_meas::report::{
    ac_json, ac_text, done_severity, jstr, spectral_json, spectral_text, AcFields, Severity,
    SpectralFields,
};
use vyges_meas::spectral::Metric;
use vyges_meas::transfer::{AcMetric, PointBits};

const APPS: [Application; 4] = [
    Application::Generic,
    Application::Adc,
    Application::Dac,
    Application::Recorder,
];

fn fields(metric: Metric) -> SpectralFields {
    SpectralFields {
        metric,
        db: "48.123456".to_string(),
        n: 1024,
        fundamental_bin: 37,
        harmonic_bins: vec![(2, 74), (3, 111)],
        spur_bin: 74,
        p_f: "0.5".to_string(),
        p_h: "0.001".to_string(),
        p_n: "0.0002".to_string(),
        p_r: "0.0012".to_string(),
        p_s: "0.0009".to_string(),
    }
}

fn ac(metric: AcMetric) -> AcFields {
    AcFields {
        metric,
        value: "89.500000000".to_string(),
        points: 61,
        peak_db: "40.000000".to_string(),
        peak_hz: "1.000000".to_string(),
    }
}

#[test]
fn a_result_never_travels_without_its_claim() {
    for app in APPS {
        let out = spectral_json(&fields(Metric::Sinad), "null", app);
        assert!(out.contains("\"alignment\""), "{app:?}: every result carries an alignment block");
        assert!(
            out.contains(&format!("\"application\": \"{}\"", app.as_str())),
            "{app:?}: and names the declared application"
        );
    }
}

#[test]
fn undeclared_application_claims_no_standard() {
    let out = spectral_json(&fields(Metric::Snr), "null", Application::Generic);
    assert!(out.contains("\"level\": \"vyges-definition\""), "the default claims nothing");
    assert!(out.contains("\"edition\": null"), "and names no edition");
}

#[test]
fn a_candidate_claim_names_its_edition_and_disclaims_conformance() {
    let cases = [
        (Application::Adc, "IEEE 1241-2023"),
        (Application::Dac, "IEEE 1658-2023"),
        (Application::Recorder, "IEEE 1057-2017"),
    ];
    for (app, edition) in cases {
        let out = spectral_json(&fields(Metric::Sinad), "null", app);
        assert!(out.contains("\"level\": \"candidate\""), "{app:?} reaches candidate");
        assert!(out.contains(&format!("\"edition\": \"{edition}\"")));
        assert!(out.contains("NO clause-level review"), "{app:?}: must say what it is not");
    }
}

#[test]
fn the_binary_cannot_be_made_to_claim_conformance() {
    for app in APPS {
        for metric in [Metric::Snr, Metric::Sinad, Metric::Thd, Metric::Sfdr] {
            for met in ["null", "true", "false"] {
                let out = spectral_json(&fields(metric), met, app);
                assert!(
                    !out.contains("\"level\": \"reviewed\"")
                        && !out.contains("\"level\": \"conformant\""),
                    "{app:?}/{metric:?} claimed a rung no review supports"
                );
            }
            let text = spectral_text(&fields(metric), None, app);
            assert!(!text.contains("reviewed (") && !text.contains("conformant ("));
        }
    }
}

#[test]
fn the_ac_side_carries_a_claim_too() {
    for app in APPS {
        let out = ac_json(&ac(AcMetric::PhaseMargin), "null", app);
        assert!(out.contains("\"alignment\""), "AC results carry the claim as well");
        assert!(out.contains("\"level\": \"vyges-definition\""), "no standard is claimed for AC transfer");
        assert!(out.contains("\"edition\": null"));
        assert!(out.contains(&format!("\"application\": \"{}\"", app.as_str())));
    }
}

#[test]
fn an_unknown_application_is_rejected_rather_than_defaulted() {
    assert_eq!(Application::parse("spaceship"), None);
    assert_eq!(Application::parse("ADC"), Some(Application::Adc));
}

#[test]
fn the_spectral_payload_is_laid_out_field_by_field() {
    let out = spectral_json(&fields(Metric::Thd), "false", Application::Generic);
    let expect = "{\n  \"metric\": \"thd\",\n  \"db\": 48.123456,\n  \"met\": false,\n  \"n\": 1024,\n  \
\"fundamental_bin\": 37,\n  \"harmonics\": [{\"order\": 2, \"bin\": 74}, {\"order\": 3, \"bin\": 111}],\n  \
\"spur_bin\": 74,\n  \"p_f\": 0.5,\n  \"p_h\": 0.001,\n  \"p_n\": 0.0002,\n  \"p_r\": 0.0012,\n  \
\"p_s\": 0.0009,\n  \"method\": \"vyges-coherent-single-tone/1\",\n  \"alignment\": {\n    \
\"level\": \"vyges-definition\",\n    \"edition\": null,\n    \"application\": \"generic\",\n    \
\"statement\": \"vyges-definition — this method is ours; no external standard is claimed\"\n  }\n}\n";
    assert_eq!(out, expect);
}

#[test]
fn the_ac_payload_is_laid_out_field_by_field() {
    let out = ac_json(&ac(AcMetric::PhaseMargin), "true", Application::Adc);
    let expect = "{\n  \"metric\": \"phase-margin\",\n  \"value\": 89.500000000,\n  \"unit\": \"deg\",\n  \
\"met\": true,\n  \"points\": 61,\n  \"peak_db\": 40.000000,\n  \"peak_hz\": 1.000000,\n  \
\"method\": \"vyges-ac-transfer/1\",\n  \"alignment\": {\n    \"level\": \"vyges-definition\",\n    \
\"edition\": null,\n    \"application\": \"adc\",\n    \
\"statement\": \"vyges-definition — this method is ours; no external standard is claimed\"\n  }\n}\n";
    assert_eq!(out, expect);
}

#[test]
fn the_spectral_text_report_states_its_claim() {
    let out = spectral_text(&fields(Metric::Snr), Some(("60.0000", false)), Application::Dac);
    assert!(out.starts_with(
        "vyges-meas — snr = 48.123456 dB\n  record    1024 samples, fundamental on bin 37\n  \
harmonics 2->bin 74, 3->bin 111\n  worst spur at bin 74\n  \
power     fundamental 0.5  harmonics 0.001  noise 0.0002\n  target    60.0000 dB -> NOT MET\n  \
claim     candidate (IEEE 1658-2023)"
    ));
    assert!(out.ends_with(
        "this is not a conformance claim\n\n  method: vyges-coherent-single-tone/1 (not an IEEE conformance claim)\n"
    ));
    let mut bare = fields(Metric::Snr);
    bare.harmonic_bins.clear();
    let out = spectral_text(&bare, None, Application::Generic);
    assert!(!out.contains("harmonics 2"));
    assert!(!out.contains("target"));
    assert!(out.contains("  claim     vyges-definition — this method is ours; no external standard is claimed\n"));
}

#[test]
fn the_ac_text_report_states_its_claim() {
    let out = ac_text(&ac(AcMetric::Gain), Some(("40.000000", true)));
    assert_eq!(
        out,
        "vyges-meas — gain = 89.500000000 dB\n  sweep     61 point(s)\n  \
peak gain 40.000000 dB at 1.000000 Hz\n  target    40.000000 -> MET\n  \
claim     vyges-definition — this method is ours; no external standard is claimed\n\n  \
method: vyges-ac-transfer/1\n"
    );
}

#[test]
fn a_run_ends_with_the_severity_of_its_verdict() {
    assert_eq!(done_severity("pass"), Severity::Info);
    assert_eq!(done_severity("fail"), Severity::Warn);
    assert_eq!(done_severity("unknown"), Severity::Error);
    assert_eq!(done_severity("failed"), Severity::Info);
    assert_eq!(done_severity(""), Severity::Info);
}

#[test]
fn messages_quote_what_they_are_given() {
    assert_eq!(order_error_text("\"x\""), "harmonic order \"x\" is not a number");
    assert_eq!(series_error_text(4, "\"1,5\""), "line 4: \"1,5\" is not a number");
    assert_eq!(series_infinite_text(9, "\"inf\""), "line 9: \"inf\" is not a finite number");
    assert_eq!(
        sweep_error_text(3, "phase", "\"?\""),
        "line 3: phase \"?\" is not a number"
    );
}

#[test]
fn an_empty_record_is_refused_by_its_kind() {
    assert_eq!(check_not_empty(Record::Series, 0), Err("no samples found".to_string()));
    assert_eq!(check_not_empty(Record::Sweep, 0), Err("no sweep points found".to_string()));
    assert_eq!(check_not_empty(Record::Sweep, 3), Ok(()));
}

fn read(s: &str) -> Option<u64> {
    s.parse::<f64>().ok().map(f64::to_bits)
}

#[test]
fn a_series_holds_one_finite_value_per_line() {
    let lines = data_lines("# capture\n0.5\n\n-1.25 # peak\n");
    let parsed: Vec<Option<u64>> = lines.iter().map(|(_, l)| read(l)).collect();
    assert_eq!(
        series_values(&lines, &parsed),
        Ok(vec![0.5f64.to_bits(), (-1.25f64).to_bits()])
    );

    let lines = data_lines("0.5\nabc\nNaN\n");
    let parsed: Vec<Option<u64>> = lines.iter().map(|(_, l)| read(l)).collect();
    assert_eq!(series_values(&lines, &parsed), Err("line 2: \"abc\" is not a number".to_string()));

    let lines = data_lines("0.5\ninf\nabc\n");
    let parsed: Vec<Option<u64>> = lines.iter().map(|(_, l)| read(l)).collect();
    assert_eq!(
        series_values(&lines, &parsed),
        Err("line 2: \"inf\" is not a finite number".to_string())
    );

    let lines = data_lines("1\nNaN\n");
    let parsed: Vec<Option<u64>> = lines.iter().map(|(_, l)| read(l)).collect();
    assert_eq!(
        series_values(&lines, &parsed),
        Err("line 2: \"NaN\" is not a finite number".to_string())
    );

    let lines = data_lines("# nothing here\n\n");
    assert_eq!(series_values(&lines, &vec![]), Err("no samples found".to_string()));
}

fn sweep(text: &str) -> Result<Vec<PointBits>, String> {
    let lines = data_lines(text);
    let parsed: Vec<(Option<u64>, Option<u64>, Option<u64>)> = lines
        .iter()
        .map(|(_, l)| {
            let w: Vec<&str> = l.split_whitespace().collect();
            if w.len() < 3 {
                (None, None, None)
            } else {
                (read(w[0]), read(w[1]), read(w[2]))
            }
        })
        .collect();
    sweep_points(&lines, &parsed)
}

#[test]
fn a_sweep_reports_its_first_bad_line() {
    let pts = sweep("# hz gain phase\n10 40 -1\n100 37 -45 extra\n").unwrap();
    assert_eq!(pts.len(), 2);
    assert_eq!(pts[1].hz, 100f64.to_bits());
    assert_eq!(pts[1].gain_db, 37f64.to_bits());
    assert_eq!(pts[1].phase_deg, (-45f64).to_bits());
    assert_eq!(
        sweep("10 40 -1\n100 37\n1000 x -90\n"),
        Err("line 2: expected `hz gain_db phase_deg`, found 2 field(s)".to_string())
    );
    assert_eq!(
        sweep("10 40 -1\nf g h\n"),
        Err("line 2: frequency \"f\" is not a number".to_string())
    );
    assert_eq!(
        sweep("10 g h\n"),
        Err("line 1: gain \"g\" is not a number".to_string())
    );
    assert_eq!(
        sweep("10 40 h\n"),
        Err("line 1: phase \"h\" is not a number".to_string())
    );
    assert_eq!(sweep("\n# only a comment\n"), Err("no sweep points found".to_string()));
}

/// A JSON reader for one string literal, escapes included.
fn read_json_string(lit: &str) -> Option<String> {
    let body = lit.strip_prefix('"')?.strip_suffix('"')?;
    let mut out = String::new();
    let mut it = body.chars();
    while let Some(c) = it.next() {
        match c {
            '\\' => out.push(match it.next()? {
                '"' => '"',
                '\\' => '\\',
                '/' => '/',
                'n' => '\n',
                't' => '\t',
                'r' => '\r',
                _ => return None,
            }),
            '"' => return None,
            c if (c as u32) < 0x20 => return None,
            c => out.push(c),
        }
    }
    Some(out)
}

#[test]
fn quoted_text_reads_back_as_itself() {
    for s in ["plain", "a\"b\\c", "", "\\\"", "\"", "ends with \\", "é — ü/÷"] {
        assert_eq!(read_json_string(&jstr(s)), Some(s.to_string()), "{s:?}");
    }
}
