//! The alignment ladder: what each application may claim, and what each claim says it is not.

use vyges_meas::alignment::{Alignment, Application, Crosswalk, NOT_AUTHORITY};

#[test]
fn the_default_application_claims_nothing_external() {
    assert_eq!(Application::Generic.alignment(), Alignment::VygesDefinition);
    assert_eq!(Application::Generic.alignment().edition(), None);
    assert!(Application::Generic
        .alignment()
        .statement()
        .contains("no external standard"));
}

#[test]
fn declaring_an_application_reaches_candidate_and_stops_there() {
    for (app, edition) in [
        (Application::Adc, "IEEE 1241-2023"),
        (Application::Dac, "IEEE 1658-2023"),
        (Application::Recorder, "IEEE 1057-2017"),
    ] {
        let a = app.alignment();
        assert_eq!(a.level(), "candidate", "{app:?} may claim candidate");
        assert_eq!(
            a.edition(),
            Some(edition),
            "{app:?} names its exact edition"
        );
        assert!(
            a.statement().contains("NO clause-level review"),
            "a candidate claim must disclaim conformance: {}",
            a.statement()
        );
    }
}

#[test]
fn nothing_claims_reviewed_or_conformant() {
    for app in [
        Application::Generic,
        Application::Adc,
        Application::Dac,
        Application::Recorder,
    ] {
        let level = app.alignment().level();
        assert!(
            level == "vyges-definition" || level == "candidate",
            "{app:?} claims {level}, but no clause-level review has been performed"
        );
    }
}

#[test]
fn a_reviewed_claim_must_carry_its_evidence() {
    let c = Crosswalk {
        edition: "IEEE 1241-2023",
        clauses: &["4.4.3"],
        choices: &["rectangular window; coherent capture"],
        deviations: &["zero-bin integration width"],
        reviewer: "example",
        artifact: "example://review",
    };
    let a = Alignment::Reviewed(c);
    assert_eq!(a.level(), "reviewed");
    assert_eq!(a.edition(), Some("IEEE 1241-2023"));
}

#[test]
fn ieee_519_is_recorded_as_not_being_authority() {
    let (name, why) = NOT_AUTHORITY[0];
    assert_eq!(name, "IEEE 519-2022");
    assert!(why.contains("not an authority"));
}

#[test]
fn each_statement_is_exact() {
    assert_eq!(
        Alignment::VygesDefinition.statement(),
        "vyges-definition — this method is ours; no external standard is claimed"
    );
    let a = Application::Adc.alignment();
    assert_eq!(
        a.statement(),
        "candidate (IEEE 1241-2023) — the application lies within that edition's published \
         scope (terminology and test methods for nominally uniformly sampled and quantized \
         analog-to-digital converters); NO clause-level review has been performed, so this is \
         not a conformance claim"
    );
    let c = Crosswalk {
        edition: "IEEE 1057-2017",
        clauses: &[],
        choices: &[],
        deviations: &[],
        reviewer: "R. Viewer",
        artifact: "doc://x",
    };
    assert_eq!(
        Alignment::Reviewed(c.clone()).statement(),
        "reviewed (IEEE 1057-2017) — crosswalk by R. Viewer at doc://x"
    );
    let k = Alignment::Conformant {
        crosswalk: c,
        suite: "suite-1",
    };
    assert_eq!(k.level(), "conformant");
    assert_eq!(k.edition(), Some("IEEE 1057-2017"));
    assert_eq!(k.statement(), "conformant (IEEE 1057-2017) — suite suite-1");
}

#[test]
fn applications_parse_in_any_case_and_round_trip() {
    for app in [
        Application::Generic,
        Application::Adc,
        Application::Dac,
        Application::Recorder,
    ] {
        assert_eq!(Application::parse(app.as_str()), Some(app));
    }
    assert_eq!(Application::parse("ADC"), Some(Application::Adc));
    assert_eq!(Application::parse("Scope"), Some(Application::Recorder));
    assert_eq!(Application::parse("spaceship"), None);
    assert_eq!(Application::parse(" adc"), None);
    assert_eq!(Application::parse(""), None);
    assert_eq!(Application::Recorder.as_str(), "recorder");
}

#[test]
fn the_dac_and_recorder_scopes_are_the_published_ones() {
    assert_eq!(
        Application::Dac.alignment(),
        Alignment::Candidate {
            edition: "IEEE 1658-2023",
            scope: "terminology and test methods for monolithic, hybrid and module \
                    digital-to-analog converters, not encompassing systems",
        }
    );
    assert_eq!(
        Application::Recorder.alignment(),
        Alignment::Candidate {
            edition: "IEEE 1057-2017",
            scope: "terminology and test methods for digitizing waveform recorders",
        }
    );
}
