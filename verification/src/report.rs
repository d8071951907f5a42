//! The result records: argument lookup, JSON string quoting, the `report_path` field, the
//! tri-state `met` field and the verdict's severity, the harmonic list, the alignment block, the
//! full JSON payloads and text reports (their floating-point values handed in as text), and the
//! bodies written for a refused input.

use vstd::prelude::*;
use crate::alignment::{Alignment, Application};
use crate::spectral::Metric;
use crate::transfer::AcMetric;
use crate::text::{chars_of, push_chars, push_decimal, push_escaped, push_str};

verus! {

/// The index of the first `name` in `args` at or after `i`, or -1.
pub open spec fn index_from(args: Seq<String>, name: Seq<char>, i: int) -> int
    decreases args.len() - i,
{
    if i < 0 || i >= args.len() {
        -1
    } else if args[i]@ == name {
        i
    } else {
        index_from(args, name, i + 1)
    }
}

/// The value of option `name`: the argument right after its first occurrence, if there is one.
pub open spec fn option_value(args: Seq<String>, name: Seq<char>) -> Option<Seq<char>> {
    let i = index_from(args, name, 0);
    if 0 <= i && i + 1 < args.len() {
        Some(args[i + 1]@)
    } else {
        None
    }
}

/// The argument that follows the first occurrence of `name`, if both exist.
pub fn opt(args: &Vec<String>, name: &str) -> (r: Option<String>)
    ensures
        r is None <==> option_value(args@, name@) is None,
        r matches Some(v) ==> option_value(args@, name@) == Some(v@),
{
    let key = String::from_str(name);
    let mut i: usize = 0;
    while i < args.len()
        invariant
            key@ == name@,
            i <= args@.len(),
            index_from(args@, name@, 0) == index_from(args@, name@, i as int),
        decreases args@.len() - i,
    {
        if args[i] == key {
            if i + 1 < args.len() {
                return Some(args[i + 1].clone());
            } else {
                return None;
            }
        }
        i = i + 1;
    }
    None
}

/// How loudly the end of a run is reported.
#[derive(Clone, Copy, Debug, PartialEq, Eq)]
pub enum Severity {
    Info,
    Warn,
    Error,
}

/// How serious a verdict is: a missed target (`fail`) calls for attention, an undecided one
/// (`unknown`) is the most serious, and anything else, a met target (`pass`) among them, is
/// plain news.
pub open spec fn severity_of(verdict: Seq<char>) -> Severity {
    if verdict == "fail"@ {
        Severity::Warn
    } else if verdict == "unknown"@ {
        Severity::Error
    } else {
        Severity::Info
    }
}

/// The severity reported with a finished measurement's `verdict`.
pub fn done_severity(verdict: &str) -> (r: Severity)
    ensures
        r == severity_of(verdict@),
{
    if crate::text::same_text(verdict, "fail") {
        Severity::Warn
    } else if crate::text::same_text(verdict, "unknown") {
        Severity::Error
    } else {
        Severity::Info
    }
}

/// A JSON string literal holding `s`: in double quotes, backslashes and double quotes escaped.
pub open spec fn json_string(s: Seq<char>) -> Seq<char> {
    "\""@ + crate::text::escape(s) + "\""@
}

/// Quotes a string for a JSON payload.
pub fn jstr(s: &str) -> (r: String)
    ensures
        r@ == json_string(s@),
{
    let mut out = String::new();
    push_str(&mut out, "\"");
    push_escaped(&mut out, s);
    push_str(&mut out, "\"");
    out
}

/// The character a JSON escape `\\x` stands for, for the one-character escapes JSON defines
/// (`\\u` escapes are not read here; the writer never produces one).
pub open spec fn json_unescape(c: char) -> Option<char> {
    if c == '"' || c == '\\' || c == '/' {
        Some(c)
    } else if c == 'b' {
        Some('\x08')
    } else if c == 'f' {
        Some('\x0c')
    } else if c == 'n' {
        Some('\n')
    } else if c == 'r' {
        Some('\r')
    } else if c == 't' {
        Some('\t')
    } else {
        None
    }
}

/// A control character (below U+0020), which a JSON string may not hold unescaped.
pub open spec fn is_control(c: char) -> bool {
    (c as int) < 32
}

/// What a JSON reader takes the body of a string literal (between its quotes) to hold, or
/// `None` where the body is not valid: an unescaped double quote or control character, or a
/// backslash that does not start an escape.
pub open spec fn json_body_value(b: Seq<char>) -> Option<Seq<char>>
    decreases b.len(),
{
    if b.len() == 0 {
        Some(Seq::empty())
    } else if b[0] == '\\' {
        if b.len() < 2 {
            None
        } else {
            match (json_unescape(b[1]), json_body_value(b.subrange(2, b.len() as int))) {
                (Some(c), Some(rest)) => Some(seq![c] + rest),
                _ => None,
            }
        }
    } else if b[0] == '"' || is_control(b[0]) {
        None
    } else {
        match json_body_value(b.drop_first()) {
            Some(rest) => Some(seq![b[0]] + rest),
            None => None,
        }
    }
}

/// What a JSON reader takes a string literal to hold: the literal is a double quote, a valid
/// body and a double quote.
pub open spec fn json_string_value(lit: Seq<char>) -> Option<Seq<char>> {
    if lit.len() >= 2 && lit[0] == '"' && lit.last() == '"' {
        json_body_value(lit.subrange(1, lit.len() - 1))
    } else {
        None
    }
}

/// Escaping a text is escaping each of its parts.
proof fn lemma_escape_concat(a: Seq<char>, b: Seq<char>)
    ensures
        crate::text::escape(a + b) == crate::text::escape(a) + crate::text::escape(b),
    decreases b.len(),
{
    if b.len() == 0 {
        assert(a + b =~= a);
        assert(crate::text::escape(a) + crate::text::escape(b) =~= crate::text::escape(a));
    } else {
        lemma_escape_concat(a, b.drop_last());
        assert((a + b).drop_last() =~= a + b.drop_last());
        assert((a + b).last() == b.last());
        assert(crate::text::escape(a) + crate::text::escape(b) =~= crate::text::escape(a)
            + crate::text::escape(b.drop_last()) + crate::text::escape_char(b.last()));
    }
}

/// The escaped body of a text with no control character reads back as the text.
proof fn lemma_body_reads_back(s: Seq<char>)
    requires
        forall|i: int| 0 <= i < s.len() ==> !is_control(#[trigger] s[i]),
    ensures
        json_body_value(crate::text::escape(s)) == Some(s),
    decreases s.len(),
{
    if s.len() > 0 {
        let c = s[0];
        let t = s.drop_first();
        assert(s =~= seq![c] + t);
        assert forall|i: int| 0 <= i < t.len() implies !is_control(#[trigger] t[i]) by {
            assert(t[i] == s[i + 1]);
        }
        lemma_body_reads_back(t);
        lemma_escape_concat(seq![c], t);
        assert(seq![c].drop_last() =~= Seq::<char>::empty());
        assert(seq![c].last() == c);
        assert(crate::text::escape(Seq::<char>::empty()) =~= Seq::<char>::empty());
        assert(crate::text::escape(seq![c]) =~= crate::text::escape_char(c));
        let e = crate::text::escape(s);
        let et = crate::text::escape(t);
        if c == '\\' || c == '"' {
            assert(e =~= seq!['\\', c] + et);
            assert(e.subrange(2, e.len() as int) =~= et);
            assert(seq![c] + t =~= s);
        } else {
            assert(e =~= seq![c] + et);
            assert(e.drop_first() =~= et);
            assert(seq![c] + t =~= s);
        }
    } else {
        assert(crate::text::escape(s) =~= Seq::<char>::empty());
        assert(s =~= Seq::<char>::empty());
    }
}

/// A quoted text reads back as itself: for a text with no control character, a JSON reader
/// takes `json_string` of it to hold exactly that text.
pub proof fn lemma_json_string_reads_back(s: Seq<char>)
    requires
        forall|i: int| 0 <= i < s.len() ==> !is_control(#[trigger] s[i]),
    ensures
        json_string_value(json_string(s)) == Some(s),
{
    lemma_body_reads_back(s);
    reveal_strlit("\"");
    let lit = json_string(s);
    assert(lit[0] == '"');
    assert(lit.last() == '"');
    assert(lit.subrange(1, lit.len() - 1) =~= crate::text::escape(s));
}

/// A JSON object payload with a leading `report_path` field naming `path`; the payload
/// unchanged when there is no path, or when it does not start (after whitespace) with `{`.
pub open spec fn with_report_path_spec(json: Seq<char>, path: Option<Seq<char>>) -> Seq<char> {
    let t = crate::text::trim_start(json);
    match path {
        None => json,
        Some(p) => if t.len() > 0 && t[0] == '{' {
            let rest = t.drop_first();
            let rt = crate::text::trim_start(rest);
            let sep = if rt.len() > 0 && rt[0] == '}' {
                Seq::empty()
            } else {
                seq![',']
            };
            "{\"report_path\": \""@ + crate::text::escape(p) + "\""@ + sep + rest
        } else {
            json
        },
    }
}

/// Adds `report_path` to a JSON payload, so the result says where its report landed.
pub fn with_report_path(json: &str, path: Option<&str>) -> (r: String)
    ensures
        r@ == with_report_path_spec(json@, match path {
            Some(p) => Some(p@),
            None => None,
        }),
{
    let cs = chars_of(json);
    let n = cs.len();
    match path {
        None => string_from(&cs),
        Some(p) => {
            let a = crate::text::skip_white(&cs, 0, n);
            assert(cs@.subrange(0, n as int) =~= cs@);
            if a < n && cs[a] == '{' {
                let ghost t = cs@.subrange(a as int, n as int);
                assert(t.drop_first() =~= cs@.subrange(a + 1, n as int));
                let b = crate::text::skip_white(&cs, a + 1, n);
                let mut out = String::new();
                push_str(&mut out, "{\"report_path\": \"");
                push_escaped(&mut out, p);
                push_str(&mut out, "\"");
                if !(b < n && cs[b] == '}') {
                    crate::text::push_char(&mut out, ',');
                }
                push_chars(&mut out, &cs, a + 1, n);
                proof {
                    let rest = cs@.subrange(a + 1, n as int);
                    let rt = cs@.subrange(b as int, n as int);
                    if b < n && cs@[b as int] == '}' {
                        assert(rt[0] == '}');
                        assert(out@ =~= "{\"report_path\": \""@ + crate::text::escape(p@) + "\""@
                            + Seq::<char>::empty() + rest);
                    } else {
                        assert(rt.len() > 0 ==> rt[0] == cs@[b as int]);
                    }
                }
                out
            } else {
                string_from(&cs)
            }
        },
    }
}

/// A string holding exactly the characters `cs`.
fn string_from(cs: &Vec<char>) -> (r: String)
    ensures
        r@ == cs@,
{
    let r = crate::text::string_of(cs, 0, cs.len());
    assert(cs@.subrange(0, cs@.len() as int) =~= cs@);
    r
}

/// Whether a measured value meets its target: at least the target when higher is better, at
/// most the target otherwise. Values are given by their binary64 bit patterns; a NaN on either
/// side meets nothing.
pub fn target_met(value: u64, target: u64, higher_is_better: bool) -> (r: bool)
    ensures
        r == if higher_is_better {
            crate::binary64::at_least(value, target)
        } else {
            crate::binary64::at_most(value, target)
        },
{
    if higher_is_better {
        crate::binary64::value_at_least(value, target)
    } else {
        crate::binary64::value_at_most(value, target)
    }
}

/// The `met` field and the verdict for a measurement: without a target there is no claim to
/// make — `met` is `null` and the verdict `unknown`; with one, `met` says whether it was met
/// and the verdict is `pass` or `fail`.
pub open spec fn met_spec(met: Option<bool>) -> (Seq<char>, Seq<char>) {
    match met {
        None => ("null"@, "unknown"@),
        Some(true) => ("true"@, "pass"@),
        Some(false) => ("false"@, "fail"@),
    }
}

/// The `met` field and verdict for a measurement whose target was met (`Some(true)`), missed
/// (`Some(false)`), or not given (`None`).
pub fn met_json(met: Option<bool>) -> (r: (String, &'static str))
    ensures
        (r.0@, r.1@) == met_spec(met),
{
    match met {
        None => (String::from_str("null"), "unknown"),
        Some(true) => (String::from_str("true"), "pass"),
        Some(false) => (String::from_str("false"), "fail"),
    }
}

/// One harmonic's entry in the JSON payload.
pub open spec fn harmonic_json(order: usize, bin: usize) -> Seq<char> {
    "{\"order\": "@ + crate::text::decimal(order as nat) + ", \"bin\": "@ + crate::text::decimal(
        bin as nat,
    ) + "}"@
}

/// The entries `f(i)` for `i` in `0..k`, joined with `", "`.
pub open spec fn joined(hb: Seq<(usize, usize)>, k: int, text: bool) -> Seq<char>
    decreases k,
{
    if k <= 0 {
        Seq::empty()
    } else if k == 1 {
        entry(hb[0], text)
    } else {
        joined(hb, k - 1, text) + ", "@ + entry(hb[k - 1], text)
    }
}

/// One harmonic's entry: JSON, or the text report's `order->bin b`.
pub open spec fn entry(e: (usize, usize), text: bool) -> Seq<char> {
    if text {
        crate::text::decimal(e.0 as nat) + "->bin "@ + crate::text::decimal(e.1 as nat)
    } else {
        harmonic_json(e.0, e.1)
    }
}

/// Appends one harmonic's entry.
fn push_entry(s: &mut String, e: (usize, usize), text: bool)
    ensures
        final(s)@ == old(s)@ + entry(e, text),
{
    if text {
        push_decimal(s, e.0);
        push_str(s, "->bin ");
        push_decimal(s, e.1);
    } else {
        push_str(s, "{\"order\": ");
        push_decimal(s, e.0);
        push_str(s, ", \"bin\": ");
        push_decimal(s, e.1);
        push_str(s, "}");
    }
}

/// The harmonic list, each order with the bin it folded to, joined with `", "`: as JSON
/// objects for the payload (`text` false) or as `order->bin b` for the text report.
pub fn harmonic_list(hb: &Vec<(usize, usize)>, text: bool) -> (r: String)
    ensures
        r@ == joined(hb@, hb@.len() as int, text),
{
    let mut out = String::new();
    let mut i: usize = 0;
    while i < hb.len()
        invariant
            i <= hb@.len(),
            out@ == joined(hb@, i as int, text),
        decreases hb@.len() - i,
    {
        if i > 0 {
            push_str(&mut out, ", ");
        }
        push_entry(&mut out, hb[i], text);
        i = i + 1;
    }
    out
}

/// The JSON body written for a refused input.
pub open spec fn refused_json_spec(metric: Seq<char>, reason: Seq<char>) -> Seq<char> {
    "{\n  \"metric\": \""@ + metric + "\",\n  \"met\": null,\n  \"refused\": "@ + json_string(reason)
        + "\n}\n"@
}

/// The JSON body for a refused input: the metric, `met: null`, and why it was refused.
pub fn refused_json(metric: &str, reason: &str) -> (r: String)
    ensures
        r@ == refused_json_spec(metric@, reason@),
{
    let mut out = String::new();
    push_str(&mut out, "{\n  \"metric\": \"");
    push_str(&mut out, metric);
    push_str(&mut out, "\",\n  \"met\": null,\n  \"refused\": ");
    let q = jstr(reason);
    push_str(&mut out, q.as_str());
    push_str(&mut out, "\n}\n");
    out
}

/// The text body for a refused input.
pub open spec fn refused_text_spec(metric: Seq<char>, reason: Seq<char>) -> Seq<char> {
    "vyges-meas — "@ + metric + " NOT MEASURED\n  "@ + reason + "\n"@
}

/// The text body for a refused input: the metric, NOT MEASURED, and why.
pub fn refused_text(metric: &str, reason: &str) -> (r: String)
    ensures
        r@ == refused_text_spec(metric@, reason@),
{
    let mut out = String::new();
    push_str(&mut out, "vyges-meas — ");
    push_str(&mut out, metric);
    push_str(&mut out, " NOT MEASURED\n  ");
    push_str(&mut out, reason);
    push_str(&mut out, "\n");
    out
}


/// How the payload writes the edition a claim names: a JSON string, or `null`.
pub open spec fn edition_json(e: Option<&'static str>) -> Seq<char> {
    match e {
        Some(x) => json_string(x@),
        None => "null"@,
    }
}

/// The payload's alignment block: the claim's level, edition, the declared application and
/// the statement of what is and is not claimed.
pub open spec fn alignment_json_spec(al: Alignment, application: Seq<char>) -> Seq<char> {
    "  \"alignment\": {\n    \"level\": "@ + json_string(crate::alignment::level_of(al))
        + ",\n    \"edition\": "@ + edition_json(crate::alignment::edition_of(al))
        + ",\n    \"application\": "@ + json_string(application) + ",\n    \"statement\": "@
        + json_string(crate::alignment::statement_of(al)) + "\n  }"@
}

/// The alignment block every result carries, for the application it was declared as.
pub fn alignment_json(al: &Alignment, application: &str) -> (r: String)
    ensures
        r@ == alignment_json_spec(*al, application@),
{
    let mut out = String::new();
    push_str(&mut out, "  \"alignment\": {\n    \"level\": ");
    let level = jstr(al.level());
    push_str(&mut out, level.as_str());
    push_str(&mut out, ",\n    \"edition\": ");
    match al.edition() {
        Some(e) => {
            let q = jstr(e);
            push_str(&mut out, q.as_str());
        },
        None => {
            push_str(&mut out, "null");
        },
    }
    push_str(&mut out, ",\n    \"application\": ");
    let a = jstr(application);
    push_str(&mut out, a.as_str());
    push_str(&mut out, ",\n    \"statement\": ");
    let st = al.statement();
    let q = jstr(st.as_str());
    push_str(&mut out, q.as_str());
    push_str(&mut out, "\n  }");
    out
}


/// What a spectral result reports, its floating-point values already written as text.
pub struct SpectralFields {
    pub metric: Metric,
    /// The value in dB.
    pub db: String,
    pub n: usize,
    pub fundamental_bin: usize,
    /// Harmonic order with the bin it folded to.
    pub harmonic_bins: Vec<(usize, usize)>,
    pub spur_bin: usize,
    pub p_f: String,
    pub p_h: String,
    pub p_n: String,
    pub p_r: String,
    pub p_s: String,
}

/// What an AC result reports, its floating-point values already written as text.
pub struct AcFields {
    pub metric: AcMetric,
    pub value: String,
    pub points: usize,
    pub peak_db: String,
    pub peak_hz: String,
}

/// The claim a spectral result carries: the strongest its application supports.
pub open spec fn spectral_claim(application: Application) -> Alignment {
    crate::alignment::alignment_for(application)
}

/// The claim an AC result carries: no standard is claimed for AC transfer, whatever the
/// application.
pub open spec fn ac_claim() -> Alignment {
    Alignment::VygesDefinition
}

/// The JSON payload of a spectral result. `powers` holds `p_f`, `p_h`, `p_n`, `p_r`, `p_s` as
/// text; the payload ends with the alignment block of the application's claim.
pub open spec fn spectral_json_spec(
    metric: Metric,
    db: Seq<char>,
    met: Seq<char>,
    n: usize,
    fundamental_bin: usize,
    harmonic_bins: Seq<(usize, usize)>,
    spur_bin: usize,
    powers: Seq<Seq<char>>,
    application: Application,
) -> Seq<char> {
    spectral_json_fields(metric, db, met, n, fundamental_bin, harmonic_bins, spur_bin, powers)
        + alignment_json_spec(
        spectral_claim(application),
        crate::alignment::application_name(application),
    ) + "\n}\n"@
}

/// The part of a spectral payload before its alignment block: the measured fields and the method.
pub open spec fn spectral_json_fields(
    metric: Metric,
    db: Seq<char>,
    met: Seq<char>,
    n: usize,
    fundamental_bin: usize,
    harmonic_bins: Seq<(usize, usize)>,
    spur_bin: usize,
    powers: Seq<Seq<char>>,
) -> Seq<char> {
    "{\n  \"metric\": "@ + json_string(crate::spectral::metric_name(metric)) + ",\n  \"db\": "@ + db
        + ",\n  \"met\": "@ + met + ",\n  \"n\": "@ + crate::text::decimal(n as nat)
        + ",\n  \"fundamental_bin\": "@ + crate::text::decimal(fundamental_bin as nat)
        + ",\n  \"harmonics\": ["@ + joined(harmonic_bins, harmonic_bins.len() as int, false)
        + "],\n  \"spur_bin\": "@ + crate::text::decimal(spur_bin as nat) + ",\n  \"p_f\": "@
        + powers[0] + ",\n  \"p_h\": "@ + powers[1] + ",\n  \"p_n\": "@ + powers[2]
        + ",\n  \"p_r\": "@ + powers[3] + ",\n  \"p_s\": "@ + powers[4]
        + ",\n  \"method\": \"vyges-coherent-single-tone/1\",\n"@
}

/// The JSON payload of a spectral result, with the claim of its application.
pub fn spectral_json(m: &SpectralFields, met: &str, application: Application) -> (r: String)
    ensures
        r@ == spectral_json_spec(
            m.metric,
            m.db@,
            met@,
            m.n,
            m.fundamental_bin,
            m.harmonic_bins@,
            m.spur_bin,
            seq![m.p_f@, m.p_h@, m.p_n@, m.p_r@, m.p_s@],
            application,
        ),
{
    let mut s = String::new();
    push_str(&mut s, "{\n  \"metric\": ");
    let name = jstr(m.metric.as_str());
    push_str(&mut s, name.as_str());
    push_str(&mut s, ",\n  \"db\": ");
    push_str(&mut s, m.db.as_str());
    push_str(&mut s, ",\n  \"met\": ");
    push_str(&mut s, met);
    push_str(&mut s, ",\n  \"n\": ");
    push_decimal(&mut s, m.n);
    push_str(&mut s, ",\n  \"fundamental_bin\": ");
    push_decimal(&mut s, m.fundamental_bin);
    push_str(&mut s, ",\n  \"harmonics\": [");
    let hb = harmonic_list(&m.harmonic_bins, false);
    push_str(&mut s, hb.as_str());
    push_str(&mut s, "],\n  \"spur_bin\": ");
    push_decimal(&mut s, m.spur_bin);
    push_str(&mut s, ",\n  \"p_f\": ");
    push_str(&mut s, m.p_f.as_str());
    push_str(&mut s, ",\n  \"p_h\": ");
    push_str(&mut s, m.p_h.as_str());
    push_str(&mut s, ",\n  \"p_n\": ");
    push_str(&mut s, m.p_n.as_str());
    push_str(&mut s, ",\n  \"p_r\": ");
    push_str(&mut s, m.p_r.as_str());
    push_str(&mut s, ",\n  \"p_s\": ");
    push_str(&mut s, m.p_s.as_str());
    push_str(&mut s, ",\n  \"method\": \"vyges-coherent-single-tone/1\",\n");
    let block = alignment_json(&application.alignment(), application.as_str());
    push_str(&mut s, block.as_str());
    push_str(&mut s, "\n}\n");
    s
}

/// The JSON payload of an AC result; it ends with the alignment block of a claim to no
/// standard, naming the declared application.
pub open spec fn ac_json_spec(
    metric: AcMetric,
    value: Seq<char>,
    met: Seq<char>,
    points: usize,
    peak_db: Seq<char>,
    peak_hz: Seq<char>,
    application: Application,
) -> Seq<char> {
    ac_json_fields(metric, value, met, points, peak_db, peak_hz) + alignment_json_spec(
        ac_claim(),
        crate::alignment::application_name(application),
    ) + "\n}\n"@
}

/// The part of an AC payload before its alignment block: the measured fields and the method.
pub open spec fn ac_json_fields(
    metric: AcMetric,
    value: Seq<char>,
    met: Seq<char>,
    points: usize,
    peak_db: Seq<char>,
    peak_hz: Seq<char>,
) -> Seq<char> {
    "{\n  \"metric\": "@ + json_string(crate::transfer::ac_metric_name(metric)) + ",\n  \"value\": "@
        + value + ",\n  \"unit\": "@ + json_string(crate::transfer::ac_metric_unit(metric))
        + ",\n  \"met\": "@ + met + ",\n  \"points\": "@ + crate::text::decimal(points as nat)
        + ",\n  \"peak_db\": "@ + peak_db + ",\n  \"peak_hz\": "@ + peak_hz
        + ",\n  \"method\": \"vyges-ac-transfer/1\",\n"@
}

/// The JSON payload of an AC result.
pub fn ac_json(m: &AcFields, met: &str, application: Application) -> (r: String)
    ensures
        r@ == ac_json_spec(
            m.metric,
            m.value@,
            met@,
            m.points,
            m.peak_db@,
            m.peak_hz@,
            application,
        ),
{
    let mut s = String::new();
    push_str(&mut s, "{\n  \"metric\": ");
    let name = jstr(m.metric.as_str());
    push_str(&mut s, name.as_str());
    push_str(&mut s, ",\n  \"value\": ");
    push_str(&mut s, m.value.as_str());
    push_str(&mut s, ",\n  \"unit\": ");
    let unit = jstr(m.metric.unit());
    push_str(&mut s, unit.as_str());
    push_str(&mut s, ",\n  \"met\": ");
    push_str(&mut s, met);
    push_str(&mut s, ",\n  \"points\": ");
    push_decimal(&mut s, m.points);
    push_str(&mut s, ",\n  \"peak_db\": ");
    push_str(&mut s, m.peak_db.as_str());
    push_str(&mut s, ",\n  \"peak_hz\": ");
    push_str(&mut s, m.peak_hz.as_str());
    push_str(&mut s, ",\n  \"method\": \"vyges-ac-transfer/1\",\n");
    let block = alignment_json(&Alignment::VygesDefinition, application.as_str());
    push_str(&mut s, block.as_str());
    push_str(&mut s, "\n}\n");
    s
}

/// No result travels without its claim: every spectral payload carries the alignment block of
/// the strongest claim its application supports, naming that application, and that claim is
/// never `reviewed` or `conformant`; every AC payload carries the block of a claim to no
/// standard, whatever the application.
pub proof fn lemma_every_payload_carries_its_claim(
    metric: Metric,
    ac_metric: AcMetric,
    db: Seq<char>,
    met: Seq<char>,
    n: usize,
    fundamental_bin: usize,
    harmonic_bins: Seq<(usize, usize)>,
    spur_bin: usize,
    powers: Seq<Seq<char>>,
    value: Seq<char>,
    points: usize,
    peak_db: Seq<char>,
    peak_hz: Seq<char>,
    application: Application,
)
    ensures
        crate::text::contains_text(
            spectral_json_spec(
                metric,
                db,
                met,
                n,
                fundamental_bin,
                harmonic_bins,
                spur_bin,
                powers,
                application,
            ),
            alignment_json_spec(
                crate::alignment::alignment_for(application),
                crate::alignment::application_name(application),
            ),
        ),
        !(spectral_claim(application) is Reviewed) && !(spectral_claim(application) is Conformant),
        crate::text::contains_text(
            ac_json_spec(ac_metric, value, met, points, peak_db, peak_hz, application),
            alignment_json_spec(
                Alignment::VygesDefinition,
                crate::alignment::application_name(application),
            ),
        ),
{
    crate::text::lemma_contains_middle(
        spectral_json_fields(metric, db, met, n, fundamental_bin, harmonic_bins, spur_bin, powers),
        alignment_json_spec(
            crate::alignment::alignment_for(application),
            crate::alignment::application_name(application),
        ),
        "\n}\n"@,
    );
    crate::text::lemma_contains_middle(
        ac_json_fields(ac_metric, value, met, points, peak_db, peak_hz),
        alignment_json_spec(
            Alignment::VygesDefinition,
            crate::alignment::application_name(application),
        ),
        "\n}\n"@,
    );
    crate::alignment::lemma_applications_stop_at_candidate(application);
}

/// The target as text with whether it was met, if a target was given.
pub open spec fn target_view(target: Option<(&str, bool)>) -> Option<(Seq<char>, bool)> {
    match target {
        Some((t, ok)) => Some((t@, ok)),
        None => None,
    }
}

/// The text report's target line: the target, and `MET` or `NOT MET`; nothing without one.
pub open spec fn target_line(target: Option<(Seq<char>, bool)>, unit: Seq<char>) -> Seq<char> {
    match target {
        Some((t, ok)) => "  target    "@ + t + unit + " -> "@ + (if ok {
            "MET"@
        } else {
            "NOT MET"@
        }) + "\n"@,
        None => Seq::empty(),
    }
}

/// Appends the target line.
fn push_target(s: &mut String, target: Option<(&str, bool)>, unit: &str)
    ensures
        final(s)@ == old(s)@ + target_line(target_view(target), unit@),
{
    match target {
        Some((t, ok)) => {
            push_str(s, "  target    ");
            push_str(s, t);
            push_str(s, unit);
            push_str(s, " -> ");
            if ok {
                push_str(s, "MET");
            } else {
                push_str(s, "NOT MET");
            }
            push_str(s, "\n");
        },
        None => {},
    }
}

/// The text report of a spectral result: value, record, harmonics (when any were named),
/// worst spur, powers, the target line, and the statement of the application's claim.
pub open spec fn spectral_text_spec(
    metric: Metric,
    db: Seq<char>,
    n: usize,
    fundamental_bin: usize,
    harmonic_bins: Seq<(usize, usize)>,
    spur_bin: usize,
    p_f: Seq<char>,
    p_h: Seq<char>,
    p_n: Seq<char>,
    target: Option<(Seq<char>, bool)>,
    application: Application,
) -> Seq<char> {
    "vyges-meas — "@ + crate::spectral::metric_name(metric) + " = "@ + db + " dB\n"@
        + "  record    "@ + crate::text::decimal(n as nat) + " samples, fundamental on bin "@
        + crate::text::decimal(fundamental_bin as nat) + "\n"@ + (if harmonic_bins.len() > 0 {
        "  harmonics "@ + joined(harmonic_bins, harmonic_bins.len() as int, true) + "\n"@
    } else {
        Seq::empty()
    }) + "  worst spur at bin "@ + crate::text::decimal(spur_bin as nat) + "\n"@
        + "  power     fundamental "@ + p_f + "  harmonics "@ + p_h + "  noise "@ + p_n + "\n"@
        + target_line(target, " dB"@) + "  claim     "@ + crate::alignment::statement_of(
        spectral_claim(application),
    ) + "\n"@ + "\n  method: vyges-coherent-single-tone/1 (not an IEEE conformance claim)\n"@
}

/// The text report of a spectral result. `target` is the target as text with whether it was
/// met (as `target_met` decides).
pub fn spectral_text(m: &SpectralFields, target: Option<(&str, bool)>, application: Application) -> (r: String)
    ensures
        r@ == spectral_text_spec(
            m.metric,
            m.db@,
            m.n,
            m.fundamental_bin,
            m.harmonic_bins@,
            m.spur_bin,
            m.p_f@,
            m.p_h@,
            m.p_n@,
            target_view(target),
            application,
        ),
{
    let mut s = String::new();
    push_str(&mut s, "vyges-meas — ");
    push_str(&mut s, m.metric.as_str());
    push_str(&mut s, " = ");
    push_str(&mut s, m.db.as_str());
    push_str(&mut s, " dB\n");
    push_str(&mut s, "  record    ");
    push_decimal(&mut s, m.n);
    push_str(&mut s, " samples, fundamental on bin ");
    push_decimal(&mut s, m.fundamental_bin);
    push_str(&mut s, "\n");
    let ghost before_h = s@;
    if m.harmonic_bins.len() > 0 {
        push_str(&mut s, "  harmonics ");
        let hb = harmonic_list(&m.harmonic_bins, true);
        push_str(&mut s, hb.as_str());
        push_str(&mut s, "\n");
    } else {
        assert(s@ =~= before_h + Seq::<char>::empty());
    }
    push_str(&mut s, "  worst spur at bin ");
    push_decimal(&mut s, m.spur_bin);
    push_str(&mut s, "\n");
    push_str(&mut s, "  power     fundamental ");
    push_str(&mut s, m.p_f.as_str());
    push_str(&mut s, "  harmonics ");
    push_str(&mut s, m.p_h.as_str());
    push_str(&mut s, "  noise ");
    push_str(&mut s, m.p_n.as_str());
    push_str(&mut s, "\n");
    push_target(&mut s, target, " dB");
    push_str(&mut s, "  claim     ");
    let st = application.alignment().statement();
    push_str(&mut s, st.as_str());
    push_str(&mut s, "\n");
    push_str(&mut s, "\n  method: vyges-coherent-single-tone/1 (not an IEEE conformance claim)\n");
    s
}

/// The text report of an AC result: value and unit, sweep size, peak, the target line, and
/// the statement of a claim to no standard.
pub open spec fn ac_text_spec(
    metric: AcMetric,
    value: Seq<char>,
    points: usize,
    peak_db: Seq<char>,
    peak_hz: Seq<char>,
    target: Option<(Seq<char>, bool)>,
) -> Seq<char> {
    "vyges-meas — "@ + crate::transfer::ac_metric_name(metric) + " = "@ + value + " "@
        + crate::transfer::ac_metric_unit(metric) + "\n"@ + "  sweep     "@
        + crate::text::decimal(points as nat) + " point(s)\n"@ + "  peak gain "@ + peak_db
        + " dB at "@ + peak_hz + " Hz\n"@ + target_line(target, Seq::empty()) + "  claim     "@
        + crate::alignment::statement_of(ac_claim()) + "\n"@ + "\n  method: vyges-ac-transfer/1\n"@
}

/// The text report of an AC result. `target` is the target as text with whether it was met.
pub fn ac_text(m: &AcFields, target: Option<(&str, bool)>) -> (r: String)
    ensures
        r@ == ac_text_spec(m.metric, m.value@, m.points, m.peak_db@, m.peak_hz@, target_view(target)),
{
    let mut s = String::new();
    push_str(&mut s, "vyges-meas — ");
    push_str(&mut s, m.metric.as_str());
    push_str(&mut s, " = ");
    push_str(&mut s, m.value.as_str());
    push_str(&mut s, " ");
    push_str(&mut s, m.metric.unit());
    push_str(&mut s, "\n");
    push_str(&mut s, "  sweep     ");
    push_decimal(&mut s, m.points);
    push_str(&mut s, " point(s)\n");
    push_str(&mut s, "  peak gain ");
    push_str(&mut s, m.peak_db.as_str());
    push_str(&mut s, " dB at ");
    push_str(&mut s, m.peak_hz.as_str());
    push_str(&mut s, " Hz\n");
    let empty = String::new();
    push_target(&mut s, target, empty.as_str());
    push_str(&mut s, "  claim     ");
    let st = Alignment::VygesDefinition.statement();
    push_str(&mut s, st.as_str());
    push_str(&mut s, "\n");
    push_str(&mut s, "\n  method: vyges-ac-transfer/1\n");
    s
}

} // verus!
