//! How strongly a measurement claims alignment with an external standard.
//!
//! Every result states, in machine-readable form, exactly how much it is claiming:
//!
//! | level | means |
//! |---|---|
//! | `vyges-definition` | the method is ours, complete and versioned; no external standard is claimed |
//! | `candidate` | the application lies inside a named standard's published scope, but no clause-level review has been done |
//! | `reviewed` | a crosswalk names the exact edition, clauses, choices and deviations, who checked them and where that work is kept |
//! | `conformant` | an independently reviewed profile and a conformance suite |
//!
//! `Reviewed` and `Conformant` can only be built from a [`Crosswalk`], and a `Crosswalk` cannot
//! be constructed without every field of the evidence it represents. No application reaches
//! beyond `candidate`: `Application::alignment` says so in its contract, and
//! `lemma_applications_stop_at_candidate` states it for every application.

use vstd::prelude::*;
use crate::text::{lower_equals, push_str};

verus! {

/// The evidence behind a `reviewed` or `conformant` claim. Every field is required.
#[derive(Clone, Debug, PartialEq, Eq)]
pub struct Crosswalk {
    /// The exact edition reviewed against, e.g. `"IEEE 1241-2023"`.
    pub edition: &'static str,
    /// The specific clauses covered.
    pub clauses: &'static [&'static str],
    /// Choices this method makes where the standard permits several.
    pub choices: &'static [&'static str],
    /// Where this method knowingly departs from the standard.
    pub deviations: &'static [&'static str],
    /// Who performed the review.
    pub reviewer: &'static str,
    /// Where the review artifact lives.
    pub artifact: &'static str,
}

/// The alignment claim attached to a measurement.
#[derive(Clone, Debug, PartialEq, Eq)]
pub enum Alignment {
    /// Ours, complete, versioned. No external standard is claimed.
    VygesDefinition,
    /// Within a named standard's published scope; no clause-level review.
    Candidate {
        /// The exact edition whose scope this falls inside.
        edition: &'static str,
        /// What that edition's published scope says it covers.
        scope: &'static str,
    },
    /// A clause-level review has been performed and recorded.
    Reviewed(Crosswalk),
    /// Independently reviewed, with a conformance suite.
    Conformant { crosswalk: Crosswalk, suite: &'static str },
}

/// The name of the rung `a` stands on.
pub open spec fn level_of(a: Alignment) -> Seq<char> {
    match a {
        Alignment::VygesDefinition => "vyges-definition"@,
        Alignment::Candidate { .. } => "candidate"@,
        Alignment::Reviewed(_) => "reviewed"@,
        Alignment::Conformant { .. } => "conformant"@,
    }
}

/// The edition `a` names, if any.
pub open spec fn edition_of(a: Alignment) -> Option<&'static str> {
    match a {
        Alignment::VygesDefinition => None,
        Alignment::Candidate { edition, .. } => Some(edition),
        Alignment::Reviewed(c) => Some(c.edition),
        Alignment::Conformant { crosswalk, .. } => Some(crosswalk.edition),
    }
}

/// The phrase every claim that names no standard carries.
pub open spec fn no_standard_phrase() -> Seq<char> {
    "no external standard"@
}

/// The phrase every candidate claim carries: what it is not.
pub open spec fn disclaimer_phrase() -> Seq<char> {
    "NO clause-level review"@
}

/// The one-line statement of what `a` does and does not claim.
pub open spec fn statement_of(a: Alignment) -> Seq<char> {
    match a {
        Alignment::VygesDefinition => "vyges-definition — this method is ours; "@
            + no_standard_phrase() + " is claimed"@,
        Alignment::Candidate { edition, scope } => "candidate ("@ + edition@
            + ") — the application lies within that edition's published scope ("@ + scope@
            + "); "@ + disclaimer_phrase()
            + " has been performed, so this is not a conformance claim"@,
        Alignment::Reviewed(c) => "reviewed ("@ + c.edition@ + ") — crosswalk by "@ + c.reviewer@
            + " at "@ + c.artifact@,
        Alignment::Conformant { crosswalk, suite } => "conformant ("@ + crosswalk.edition@
            + ") — suite "@ + suite@,
    }
}

impl Alignment {
    /// The name of the rung this claim stands on.
    pub fn level(&self) -> (r: &'static str)
        ensures
            r@ == level_of(*self),
    {
        match self {
            Alignment::VygesDefinition => "vyges-definition",
            Alignment::Candidate { .. } => "candidate",
            Alignment::Reviewed(_) => "reviewed",
            Alignment::Conformant { .. } => "conformant",
        }
    }

    /// The edition this claim names, if any.
    pub fn edition(&self) -> (r: Option<&'static str>)
        ensures
            r == edition_of(*self),
    {
        match self {
            Alignment::VygesDefinition => None,
            Alignment::Candidate { edition, .. } => Some(*edition),
            Alignment::Reviewed(c) => Some(c.edition),
            Alignment::Conformant { crosswalk, .. } => Some(crosswalk.edition),
        }
    }

    /// One line stating exactly what is and is not being claimed, for the text report.
    pub fn statement(&self) -> (r: String)
        ensures
            r@ == statement_of(*self),
    {
        match self {
            Alignment::VygesDefinition => {
                let mut s = String::new();
                push_str(&mut s, "vyges-definition — this method is ours; ");
                push_str(&mut s, "no external standard");
                push_str(&mut s, " is claimed");
                s
            },
            Alignment::Candidate { edition, scope } => {
                let mut s = String::new();
                push_str(&mut s, "candidate (");
                push_str(&mut s, edition);
                push_str(&mut s, ") — the application lies within that edition's published scope (");
                push_str(&mut s, scope);
                push_str(&mut s, "); ");
                push_str(&mut s, "NO clause-level review");
                push_str(&mut s, " has been performed, so this is not a conformance claim");
                s
            },
            Alignment::Reviewed(c) => {
                let mut s = String::new();
                push_str(&mut s, "reviewed (");
                push_str(&mut s, c.edition);
                push_str(&mut s, ") — crosswalk by ");
                push_str(&mut s, c.reviewer);
                push_str(&mut s, " at ");
                push_str(&mut s, c.artifact);
                s
            },
            Alignment::Conformant { crosswalk, suite } => {
                let mut s = String::new();
                push_str(&mut s, "conformant (");
                push_str(&mut s, crosswalk.edition);
                push_str(&mut s, ") — suite ");
                push_str(&mut s, suite);
                s
            },
        }
    }
}

/// What the record is a measurement of. The application decides which standard's scope the
/// result falls inside; it has to be declared, and `Generic` claims nothing.
#[derive(Clone, Copy, Debug, PartialEq, Eq)]
pub enum Application {
    /// A sampled waveform of unstated origin.
    Generic,
    /// An analog-to-digital converter.
    Adc,
    /// A digital-to-analog converter.
    Dac,
    /// A digitizing waveform recorder, analyzer or oscilloscope.
    Recorder,
}

/// The application a name denotes, ignoring ASCII case.
pub open spec fn application_named(s: Seq<char>) -> Option<Application> {
    let l = crate::text::lower(s);
    if l == "generic"@ {
        Some(Application::Generic)
    } else if l == "adc"@ {
        Some(Application::Adc)
    } else if l == "dac"@ {
        Some(Application::Dac)
    } else if l == "recorder"@ || l == "scope"@ {
        Some(Application::Recorder)
    } else {
        None
    }
}

/// The canonical name of an application.
pub open spec fn application_name(a: Application) -> Seq<char> {
    match a {
        Application::Generic => "generic"@,
        Application::Adc => "adc"@,
        Application::Dac => "dac"@,
        Application::Recorder => "recorder"@,
    }
}

/// The strongest claim each application supports today.
pub open spec fn alignment_for(a: Application) -> Alignment {
    match a {
        Application::Generic => Alignment::VygesDefinition,
        Application::Adc => Alignment::Candidate {
            edition: "IEEE 1241-2023",
            scope: "terminology and test methods for nominally uniformly sampled and \
                    quantized analog-to-digital converters",
        },
        Application::Dac => Alignment::Candidate {
            edition: "IEEE 1658-2023",
            scope: "terminology and test methods for monolithic, hybrid and module \
                    digital-to-analog converters, not encompassing systems",
        },
        Application::Recorder => Alignment::Candidate {
            edition: "IEEE 1057-2017",
            scope: "terminology and test methods for digitizing waveform recorders",
        },
    }
}

impl Application {
    /// The application a name denotes (`generic`, `adc`, `dac`, `recorder` or `scope`), in any
    /// ASCII case; `None` for anything else.
    pub fn parse(s: &str) -> (r: Option<Application>)
        ensures
            r == application_named(s@),
    {
        if lower_equals(s, "generic") {
            Some(Application::Generic)
        } else if lower_equals(s, "adc") {
            Some(Application::Adc)
        } else if lower_equals(s, "dac") {
            Some(Application::Dac)
        } else if lower_equals(s, "recorder") || lower_equals(s, "scope") {
            Some(Application::Recorder)
        } else {
            None
        }
    }

    /// The canonical name of this application.
    pub fn as_str(self) -> (r: &'static str)
        ensures
            r@ == application_name(self),
    {
        match self {
            Application::Generic => "generic",
            Application::Adc => "adc",
            Application::Dac => "dac",
            Application::Recorder => "recorder",
        }
    }

    /// The strongest claim this application supports today: `Generic` claims nothing external,
    /// each declared device is a candidate against the exact edition whose published scope
    /// covers it.
    pub fn alignment(self) -> (r: Alignment)
        ensures
            r == alignment_for(self),
            r is VygesDefinition || r is Candidate,
    {
        match self {
            Application::Generic => Alignment::VygesDefinition,
            Application::Adc => Alignment::Candidate {
                edition: "IEEE 1241-2023",
                scope: "terminology and test methods for nominally uniformly sampled and \
                        quantized analog-to-digital converters",
            },
            Application::Dac => Alignment::Candidate {
                edition: "IEEE 1658-2023",
                scope: "terminology and test methods for monolithic, hybrid and module \
                        digital-to-analog converters, not encompassing systems",
            },
            Application::Recorder => Alignment::Candidate {
                edition: "IEEE 1057-2017",
                scope: "terminology and test methods for digitizing waveform recorders",
            },
        }
    }
}

/// Standards that are not authority for these measurements, and are cited as if they were.
pub const NOT_AUTHORITY: [(&'static str, &'static str); 1] = [
    (
        "IEEE 519-2022",
        "harmonic control in electric power systems at a point of common coupling — not an authority \
     for amplifier or converter THD, and must not be cited as one",
    ),
];


/// No application reaches beyond `candidate`: the `reviewed` and `conformant` rungs need a
/// recorded crosswalk, and no application's claim carries one.
pub proof fn lemma_applications_stop_at_candidate(a: Application)
    ensures
        !(alignment_for(a) is Reviewed),
        !(alignment_for(a) is Conformant),
        level_of(alignment_for(a)) == "vyges-definition"@ || level_of(alignment_for(a))
            == "candidate"@,
{
}

/// Only the undeclared application names no standard; every declared device names the
/// edition whose scope covers it.
pub proof fn lemma_only_generic_names_no_edition(a: Application)
    ensures
        (edition_of(alignment_for(a)) is None) <==> a == Application::Generic,
{
}

/// A claim names an edition exactly when it stands above the bottom rung.
pub proof fn lemma_edition_exactly_above_own_definition(al: Alignment)
    ensures
        (edition_of(al) is None) <==> level_of(al) == "vyges-definition"@,
        (edition_of(al) is None) <==> al is VygesDefinition,
{
    reveal_strlit("vyges-definition");
    reveal_strlit("candidate");
    reveal_strlit("reviewed");
    reveal_strlit("conformant");
    assert("vyges-definition"@.len() == 16);
    assert("candidate"@.len() == 9);
    assert("reviewed"@.len() == 8);
    assert("conformant"@.len() == 10);
}

/// Every statement says what it is not: one that claims no standard says so, and a candidate
/// claim disclaims clause-level review, whatever edition and scope it names.
pub proof fn lemma_statements_state_their_limit(al: Alignment)
    ensures
        al is VygesDefinition ==> crate::text::contains_text(statement_of(al), no_standard_phrase()),
        al is Candidate ==> crate::text::contains_text(statement_of(al), disclaimer_phrase()),
{
    match al {
        Alignment::VygesDefinition => {
            crate::text::lemma_contains_middle(
                "vyges-definition — this method is ours; "@,
                no_standard_phrase(),
                " is claimed"@,
            );
        },
        Alignment::Candidate { edition, scope } => {
            let a = "candidate ("@ + edition@
                + ") — the application lies within that edition's published scope ("@ + scope@
                + "); "@;
            crate::text::lemma_contains_middle(
                a,
                disclaimer_phrase(),
                " has been performed, so this is not a conformance claim"@,
            );
        },
        _ => {},
    }
}

/// Each application's canonical name parses back to it.
pub proof fn lemma_application_name_round_trip(a: Application)
    ensures
        application_named(application_name(a)) == Some(a),
{
    reveal_strlit("generic");
    reveal_strlit("adc");
    reveal_strlit("dac");
    reveal_strlit("recorder");
    reveal_strlit("scope");
    assert("generic"@.len() == 7);
    assert("adc"@.len() == 3);
    assert("dac"@.len() == 3);
    assert("recorder"@.len() == 8);
    assert("scope"@.len() == 5);
    assert("adc"@ != "dac"@) by {
        assert("adc"@[0] != "dac"@[0]);
    }
    let n = application_name(a);
    assert(crate::text::lower(n) =~= n);
}

/// Parsing ignores ASCII case: a name and its lowercase denote the same application.
pub proof fn lemma_application_parse_ignores_case(s: Seq<char>)
    ensures
        application_named(crate::text::lower(s)) == application_named(s),
{
    crate::text::lemma_lower_idempotent(s);
}


/// The statement and the level never disagree: every statement opens with the name of the
/// rung it stands on.
pub proof fn lemma_statement_opens_with_level(al: Alignment)
    ensures
        level_of(al).len() <= statement_of(al).len(),
        statement_of(al).subrange(0, level_of(al).len() as int) == level_of(al),
{
    reveal_strlit("vyges-definition");
    reveal_strlit("candidate");
    reveal_strlit("reviewed");
    reveal_strlit("conformant");
    reveal_strlit("vyges-definition — this method is ours; ");
    reveal_strlit("candidate (");
    reveal_strlit("reviewed (");
    reveal_strlit("conformant (");
    let head = match al {
        Alignment::VygesDefinition => "vyges-definition — this method is ours; "@,
        Alignment::Candidate { .. } => "candidate ("@,
        Alignment::Reviewed(_) => "reviewed ("@,
        Alignment::Conformant { .. } => "conformant ("@,
    };
    let l = level_of(al);
    let st = statement_of(al);
    assert(l.len() <= head.len());
    assert(head.subrange(0, l.len() as int) =~= l);
    assert(st.subrange(0, head.len() as int) =~= head);
    assert(st.subrange(0, l.len() as int) =~= head.subrange(0, l.len() as int));
}

} // verus!
