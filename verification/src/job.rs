//! The input records: a time series, or a frequency sweep.
//!
//! Both are small, line-oriented text. Blank lines and `#` comments are ignored; what is left of
//! a line is trimmed of whitespace. A line that cannot be read is an error naming the line
//! number, counted from 1 as `str::lines` counts lines: a silently dropped sample would shift
//! every later one and quietly change the measurement.
//!
//! Here stands the line structure of both formats and everything that is not the reading of a
//! decimal floating-point number: the data lines with their numbers, the three fields of a sweep
//! line, the harmonic-order list, and the error messages.

use vstd::prelude::*;
use crate::text::{
    chars_of, debug_quote, find_char, parse_usize_range, push_decimal, push_str,
    split_bounds, string_of, trim_bounds, word_bounds,
};

verus! {

/// What a line holds once its comment and surrounding whitespace are gone.
pub open spec fn line_content(piece: Seq<char>) -> Seq<char> {
    crate::text::trim(crate::text::before(piece, '#'))
}

/// The numbered, non-empty contents of the given lines, line `k` (from 1) holding `lines[k - 1]`.
pub open spec fn data_lines_of(lines: Seq<Seq<char>>) -> Seq<(nat, Seq<char>)>
    decreases lines.len(),
{
    if lines.len() == 0 {
        Seq::empty()
    } else {
        let prev = data_lines_of(lines.drop_last());
        let c = line_content(lines.last());
        if c.len() == 0 {
            prev
        } else {
            prev.push((lines.len(), c))
        }
    }
}

/// The data lines of a text: each line that holds something besides whitespace and a comment,
/// with its number. A trailing carriage return is whitespace, so the lines are those of
/// `str::lines`.
pub open spec fn data_lines_spec(text: Seq<char>) -> Seq<(nat, Seq<char>)> {
    data_lines_of(crate::text::split(text, '\n'))
}

/// The data lines of `text`, in order, each with its line number.
pub fn data_lines(text: &str) -> (r: Vec<(usize, String)>)
    ensures
        r@.len() == data_lines_spec(text@).len(),
        forall|j: int|
            0 <= j < r@.len() ==> (#[trigger] r@[j]).0 as nat == data_lines_spec(text@)[j].0
                && r@[j].1@ == data_lines_spec(text@)[j].1,
{
    let cs = chars_of(text);
    let pieces = split_bounds(&cs, '\n');
    let ghost lines = crate::text::split(cs@, '\n');
    let mut out: Vec<(usize, String)> = Vec::new();
    let mut j: usize = 0;
    assert(lines.take(0) =~= Seq::<Seq<char>>::empty());
    while j < pieces.len()
        invariant
            cs@ == text@,
            lines == crate::text::split(cs@, '\n'),
            pieces@.len() == lines.len(),
            forall|k: int|
                0 <= k < pieces@.len() ==> {
                    &&& (#[trigger] pieces@[k]).0 <= pieces@[k].1 <= cs@.len()
                    &&& cs@.subrange(pieces@[k].0 as int, pieces@[k].1 as int) == lines[k]
                },
            j <= pieces@.len(),
            out@.len() == data_lines_of(lines.take(j as int)).len(),
            forall|k: int|
                0 <= k < out@.len() ==> (#[trigger] out@[k]).0 as nat == data_lines_of(
                    lines.take(j as int),
                )[k].0 && out@[k].1@ == data_lines_of(lines.take(j as int))[k].1,
        decreases pieces@.len() - j,
    {
        let (a, b) = pieces[j];
        let e = find_char(&cs, a, b, '#');
        let (x, y) = trim_bounds(&cs, a, e);
        let ghost prefix = lines.take(j + 1);
        assert(prefix.drop_last() =~= lines.take(j as int));
        assert(prefix.last() == lines[j as int]);
        assert(cs@.subrange(x as int, y as int) == line_content(lines[j as int]));
        if x < y {
            out.push((j + 1, string_of(&cs, x, y)));
        }
        j = j + 1;
    }
    assert(lines.take(lines.len() as int) =~= lines);
    out
}

/// The non-empty, trimmed pieces, in order.
pub open spec fn nonempty_trimmed(pieces: Seq<Seq<char>>) -> Seq<Seq<char>>
    decreases pieces.len(),
{
    if pieces.len() == 0 {
        Seq::empty()
    } else {
        let prev = nonempty_trimmed(pieces.drop_last());
        let t = crate::text::trim(pieces.last());
        if t.len() == 0 {
            prev
        } else {
            prev.push(t)
        }
    }
}

/// The message for a harmonic order, quoted as `quoted`, that is not a number.
pub open spec fn order_error_of(quoted: Seq<char>) -> Seq<char> {
    "harmonic order "@ + quoted + " is not a number"@
}

/// The message for a harmonic order that is not a number.
pub open spec fn order_error(p: Seq<char>) -> Seq<char> {
    order_error_of(crate::text::debug_text(p))
}

/// The message for a harmonic order that is not a number, given the order as quoted.
pub fn order_error_text(quoted: &str) -> (r: String)
    ensures
        r@ == order_error_of(quoted@),
{
    let mut msg = String::new();
    push_str(&mut msg, "harmonic order ");
    push_str(&mut msg, quoted);
    push_str(&mut msg, " is not a number");
    msg
}

/// The orders the fields denote, or the message for the first one that is not a number.
pub open spec fn parse_orders(fields: Seq<Seq<char>>) -> Result<Seq<usize>, Seq<char>>
    decreases fields.len(),
{
    if fields.len() == 0 {
        Ok(Seq::empty())
    } else {
        match parse_orders(fields.drop_last()) {
            Err(e) => Err(e),
            Ok(v) => match crate::text::parse_usize(fields.last()) {
                Some(x) => Ok(v.push(x)),
                None => Err(order_error(fields.last())),
            },
        }
    }
}

/// What a comma-separated harmonic-order list denotes: its non-empty, trimmed fields, each read
/// as a `usize`.
pub open spec fn harmonics_list(s: Seq<char>) -> Result<Seq<usize>, Seq<char>> {
    parse_orders(nonempty_trimmed(crate::text::split(s, ',')))
}

/// The orders of `fields` are read one by one: accepted exactly when every field reads as a
/// `usize`, then holding those values in order; otherwise refused for the first field that
/// does not read.
proof fn lemma_orders_field_by_field(fields: Seq<Seq<char>>)
    ensures
        parse_orders(fields) is Ok <==> forall|i: int|
            0 <= i < fields.len() ==> #[trigger] crate::text::parse_usize(fields[i]) is Some,
        parse_orders(fields) matches Ok(v) ==> v.len() == fields.len() && forall|i: int|
            0 <= i < fields.len() ==> Some(v[i]) == #[trigger] crate::text::parse_usize(fields[i]),
        parse_orders(fields) matches Err(e) ==> exists|j: int|
            #![trigger crate::text::parse_usize(fields[j])]
            0 <= j < fields.len() && crate::text::parse_usize(fields[j]) is None && (forall|i: int|
                0 <= i < j ==> #[trigger] crate::text::parse_usize(fields[i]) is Some) && e
                == order_error(fields[j]),
    decreases fields.len(),
{
    if fields.len() > 0 {
        let prev = fields.drop_last();
        let k = fields.len() - 1;
        lemma_orders_field_by_field(prev);
        assert forall|i: int| 0 <= i < k implies prev[i] == fields[i] by {}
        assert(fields.last() == fields[k]);
        match parse_orders(prev) {
            Err(e) => {
                let j = choose|j: int|
                    #![trigger crate::text::parse_usize(prev[j])]
                    0 <= j < prev.len() && crate::text::parse_usize(prev[j]) is None && (forall|i: int|
                        0 <= i < j ==> #[trigger] crate::text::parse_usize(prev[i]) is Some) && e
                        == order_error(prev[j]);
                assert(prev[j] == fields[j]);
                assert forall|i: int| 0 <= i < j implies #[trigger] crate::text::parse_usize(
                    fields[i],
                ) is Some by {
                    assert(prev[i] == fields[i]);
                    assert(crate::text::parse_usize(prev[i]) is Some);
                }
                assert(crate::text::parse_usize(fields[j]) is None);
            },
            Ok(v) => {
                assert forall|i: int| 0 <= i < k implies #[trigger] crate::text::parse_usize(
                    fields[i],
                ) is Some by {
                    assert(prev[i] == fields[i]);
                    assert(crate::text::parse_usize(prev[i]) is Some);
                }
                match crate::text::parse_usize(fields.last()) {
                    Some(x) => {
                        let w = v.push(x);
                        assert forall|i: int| 0 <= i < fields.len() implies Some(w[i])
                            == #[trigger] crate::text::parse_usize(fields[i]) by {
                            if i < k {
                                assert(prev[i] == fields[i]);
                                assert(Some(v[i]) == crate::text::parse_usize(prev[i]));
                            }
                        }
                    },
                    None => {
                        assert(crate::text::parse_usize(fields[k]) is None);
                    },
                }
            },
        }
    }
}

/// The harmonic list is accepted exactly when every non-empty, trimmed comma-separated field
/// reads as a `usize`, and then holds those values in the order named; otherwise it is
/// refused for the first field that does not read, quoting that field.
pub proof fn lemma_harmonics_accepted_exactly_when_each_field_reads(s: Seq<char>)
    ensures
        ({
            let fields = nonempty_trimmed(crate::text::split(s, ','));
            &&& harmonics_list(s) is Ok <==> forall|i: int|
                0 <= i < fields.len() ==> #[trigger] crate::text::parse_usize(fields[i]) is Some
            &&& harmonics_list(s) matches Ok(v) ==> v.len() == fields.len() && forall|i: int|
                0 <= i < fields.len() ==> Some(v[i]) == #[trigger] crate::text::parse_usize(
                    fields[i],
                )
            &&& harmonics_list(s) matches Err(e) ==> exists|j: int|
                #![trigger crate::text::parse_usize(fields[j])]
                0 <= j < fields.len() && crate::text::parse_usize(fields[j]) is None && (forall|
                    i: int,
                |
                    0 <= i < j ==> #[trigger] crate::text::parse_usize(fields[i]) is Some) && e
                    == order_error(fields[j])
        }),
{
    lemma_orders_field_by_field(nonempty_trimmed(crate::text::split(s, ',')));
}

/// Once a prefix of the fields fails to parse, the whole list fails with the same message.
proof fn lemma_orders_error_persists(fields: Seq<Seq<char>>, k: int)
    requires
        0 <= k <= fields.len(),
        parse_orders(fields.take(k)) is Err,
    ensures
        parse_orders(fields) == parse_orders(fields.take(k)),
    decreases fields.len() - k,
{
    if k < fields.len() {
        assert(fields.take(k + 1).drop_last() =~= fields.take(k));
        lemma_orders_error_persists(fields, k + 1);
    } else {
        assert(fields.take(k) =~= fields);
    }
}

/// Parses a comma-separated harmonic-order list, e.g. `2,3,4,5`. Empty fields are skipped and
/// whitespace around a field is ignored; the first field that is not a `usize` is reported.
pub fn parse_harmonics(s: &str) -> (r: Result<Vec<usize>, String>)
    ensures
        r matches Ok(v) ==> harmonics_list(s@) == Ok::<Seq<usize>, Seq<char>>(v@),
        r matches Err(e) ==> harmonics_list(s@) == Err::<Seq<usize>, Seq<char>>(e@),
{
    let cs = chars_of(s);
    let pieces = split_bounds(&cs, ',');
    let ghost raw = crate::text::split(cs@, ',');
    let ghost fields = nonempty_trimmed(raw);
    let mut out: Vec<usize> = Vec::new();
    let mut j: usize = 0;
    assert(raw.take(0) =~= Seq::<Seq<char>>::empty());
    while j < pieces.len()
        invariant
            cs@ == s@,
            raw == crate::text::split(cs@, ','),
            fields == nonempty_trimmed(raw),
            pieces@.len() == raw.len(),
            forall|k: int|
                0 <= k < pieces@.len() ==> {
                    &&& (#[trigger] pieces@[k]).0 <= pieces@[k].1 <= cs@.len()
                    &&& cs@.subrange(pieces@[k].0 as int, pieces@[k].1 as int) == raw[k]
                },
            j <= pieces@.len(),
            parse_orders(nonempty_trimmed(raw.take(j as int))) == Ok::<Seq<usize>, Seq<char>>(
                out@,
            ),
            nonempty_trimmed(raw.take(j as int)).len() <= fields.len(),
            fields.take(nonempty_trimmed(raw.take(j as int)).len() as int) == nonempty_trimmed(
                raw.take(j as int),
            ),
        decreases pieces@.len() - j,
    {
        let (a, b) = pieces[j];
        let (x, y) = trim_bounds(&cs, a, b);
        let ghost prefix = raw.take(j + 1);
        assert(prefix.drop_last() =~= raw.take(j as int));
        assert(prefix.last() == raw[j as int]);
        proof {
            lemma_nonempty_trimmed_prefix(raw, j as int);
            lemma_nonempty_trimmed_prefix(raw, j + 1);
        }
        if x < y {
            let ghost before_fields = nonempty_trimmed(raw.take(j as int));
            let ghost now_fields = nonempty_trimmed(raw.take(j + 1));
            assert(now_fields == before_fields.push(cs@.subrange(x as int, y as int)));
            assert(now_fields.drop_last() =~= before_fields);
            match parse_usize_range(&cs, x, y) {
                Some(v) => {
                    out.push(v);
                },
                None => {
                    let field = string_of(&cs, x, y);
                    let q = debug_quote(field.as_str());
                    let msg = order_error_text(q.as_str());
                    proof {
                        assert(fields.take(now_fields.len() as int) == now_fields);
                        assert(parse_orders(now_fields) == Err::<Seq<usize>, Seq<char>>(
                            order_error(now_fields.last()),
                        ));
                        lemma_orders_error_persists(fields, now_fields.len() as int);
                    }
                    return Err(msg);
                },
            }
        }
        j = j + 1;
    }
    assert(raw.take(raw.len() as int) =~= raw);
    Ok(out)
}

/// The trimmed, non-empty pieces of a prefix are a prefix of those of the whole.
proof fn lemma_nonempty_trimmed_prefix(pieces: Seq<Seq<char>>, k: int)
    requires
        0 <= k <= pieces.len(),
    ensures
        nonempty_trimmed(pieces.take(k)).len() <= nonempty_trimmed(pieces).len(),
        nonempty_trimmed(pieces).take(nonempty_trimmed(pieces.take(k)).len() as int)
            == nonempty_trimmed(pieces.take(k)),
    decreases pieces.len() - k,
{
    if k < pieces.len() {
        lemma_nonempty_trimmed_prefix(pieces, k + 1);
        let p1 = pieces.take(k + 1);
        assert(p1.drop_last() =~= pieces.take(k));
        let a = nonempty_trimmed(pieces.take(k));
        let b = nonempty_trimmed(p1);
        let all = nonempty_trimmed(pieces);
        if b.len() == a.len() + 1 {
            assert(b.drop_last() == a);
            assert(all.take(a.len() as int) =~= all.take(b.len() as int).take(a.len() as int));
            assert(b.take(a.len() as int) =~= a);
        }
    } else {
        assert(pieces.take(k) =~= pieces);
        assert(nonempty_trimmed(pieces).take(nonempty_trimmed(pieces).len() as int)
            =~= nonempty_trimmed(pieces));
    }
}


/// The message for a sweep line with fewer than three fields.
pub open spec fn field_count_error(line: nat, count: nat) -> Seq<char> {
    "line "@ + crate::text::decimal(line) + ": expected `hz gain_db phase_deg`, found "@
        + crate::text::decimal(count) + " field(s)"@
}

/// What a sweep line's content gives: its first three whitespace-separated fields (frequency,
/// gain, phase), or the message for a line with fewer.
pub open spec fn sweep_fields_spec(line: nat, content: Seq<char>) -> Result<
    (Seq<char>, Seq<char>, Seq<char>),
    Seq<char>,
> {
    let w = crate::text::words(content);
    if w.len() < 3 {
        Err(field_count_error(line, w.len()))
    } else {
        Ok((w[0], w[1], w[2]))
    }
}

/// Splits the content of sweep line `line` into its frequency, gain and phase fields; fields
/// beyond the third are ignored.
pub fn sweep_fields(line: usize, content: &str) -> (r: Result<(String, String, String), String>)
    ensures
        r matches Ok(f) ==> sweep_fields_spec(line as nat, content@) == Ok::<
            (Seq<char>, Seq<char>, Seq<char>),
            Seq<char>,
        >((f.0@, f.1@, f.2@)),
        r matches Err(e) ==> sweep_fields_spec(line as nat, content@) == Err::<
            (Seq<char>, Seq<char>, Seq<char>),
            Seq<char>,
        >(e@),
{
    let cs = chars_of(content);
    let n = cs.len();
    assert(cs@.subrange(0, n as int) =~= cs@);
    let w = word_bounds(&cs, 0, n);
    if w.len() < 3 {
        let mut msg = String::new();
        push_str(&mut msg, "line ");
        push_decimal(&mut msg, line);
        push_str(&mut msg, ": expected `hz gain_db phase_deg`, found ");
        push_decimal(&mut msg, w.len());
        push_str(&mut msg, " field(s)");
        return Err(msg);
    }
    let hz = string_of(&cs, w[0].0, w[0].1);
    let gain = string_of(&cs, w[1].0, w[1].1);
    let phase = string_of(&cs, w[2].0, w[2].1);
    Ok((hz, gain, phase))
}

/// The message for series line `line` whose content, quoted as `quoted`, is not a number.
pub open spec fn series_value_error_of(line: nat, quoted: Seq<char>) -> Seq<char> {
    "line "@ + crate::text::decimal(line) + ": "@ + quoted + " is not a number"@
}

/// The message for a series line that is not a number.
pub open spec fn series_value_error(line: nat, content: Seq<char>) -> Seq<char> {
    series_value_error_of(line, crate::text::debug_text(content))
}

/// The message for series line `line`, given its content as quoted.
pub fn series_error_text(line: usize, quoted: &str) -> (r: String)
    ensures
        r@ == series_value_error_of(line as nat, quoted@),
{
    let mut msg = String::new();
    push_str(&mut msg, "line ");
    push_decimal(&mut msg, line);
    push_str(&mut msg, ": ");
    push_str(&mut msg, quoted);
    push_str(&mut msg, " is not a number");
    msg
}

/// The message for series line `line`, whose content is not a number.
pub fn series_error(line: usize, content: &str) -> (r: String)
    ensures
        r@ == series_value_error(line as nat, content@),
{
    let q = debug_quote(content);
    series_error_text(line, q.as_str())
}

/// The message for series line `line` whose content, quoted as `quoted`, is a number but not a
/// finite one.
pub open spec fn series_infinite_error_of(line: nat, quoted: Seq<char>) -> Seq<char> {
    "line "@ + crate::text::decimal(line) + ": "@ + quoted + " is not a finite number"@
}

/// The message for a series line that reads as an infinity or a NaN.
pub open spec fn series_infinite_error(line: nat, content: Seq<char>) -> Seq<char> {
    series_infinite_error_of(line, crate::text::debug_text(content))
}

/// The message for series line `line`, given its content as quoted, that reads as an infinity
/// or a NaN.
pub fn series_infinite_text(line: usize, quoted: &str) -> (r: String)
    ensures
        r@ == series_infinite_error_of(line as nat, quoted@),
{
    let mut msg = String::new();
    push_str(&mut msg, "line ");
    push_decimal(&mut msg, line);
    push_str(&mut msg, ": ");
    push_str(&mut msg, quoted);
    push_str(&mut msg, " is not a finite number");
    msg
}

/// The message for sweep line `line` whose `what` field, quoted as `quoted`, is not a number.
pub open spec fn sweep_value_error_of(line: nat, what: Seq<char>, quoted: Seq<char>) -> Seq<char> {
    "line "@ + crate::text::decimal(line) + ": "@ + what + " "@ + quoted + " is not a number"@
}

/// The message for a sweep field (`what`: frequency, gain or phase) that is not a number.
pub open spec fn sweep_value_error(line: nat, what: Seq<char>, field: Seq<char>) -> Seq<char> {
    sweep_value_error_of(line, what, crate::text::debug_text(field))
}

/// The message for sweep line `line`, given the `what` field as quoted.
pub fn sweep_error_text(line: usize, what: &str, quoted: &str) -> (r: String)
    ensures
        r@ == sweep_value_error_of(line as nat, what@, quoted@),
{
    let mut msg = String::new();
    push_str(&mut msg, "line ");
    push_decimal(&mut msg, line);
    push_str(&mut msg, ": ");
    push_str(&mut msg, what);
    push_str(&mut msg, " ");
    push_str(&mut msg, quoted);
    push_str(&mut msg, " is not a number");
    msg
}

/// The message for sweep line `line`, whose `what` field is not a number.
pub fn sweep_error(line: usize, what: &str, field: &str) -> (r: String)
    ensures
        r@ == sweep_value_error(line as nat, what@, field@),
{
    let q = debug_quote(field);
    sweep_error_text(line, what, q.as_str())
}

/// The kind of record that was read.
#[derive(Clone, Copy, Debug, PartialEq, Eq)]
pub enum Record {
    Series,
    Sweep,
}

/// The message for a record with no data lines.
pub open spec fn empty_record_error(kind: Record) -> Seq<char> {
    match kind {
        Record::Series => "no samples found"@,
        Record::Sweep => "no sweep points found"@,
    }
}

/// Refuses a record of `count` values when there are none.
pub fn check_not_empty(kind: Record, count: usize) -> (r: Result<(), String>)
    ensures
        r is Err <==> count == 0,
        r matches Err(e) ==> e@ == empty_record_error(kind),
{
    if count == 0 {
        match kind {
            Record::Series => Err(String::from_str("no samples found")),
            Record::Sweep => Err(String::from_str("no sweep points found")),
        }
    } else {
        Ok(())
    }
}

/// The data lines as plain values.
pub open spec fn lines_view(lines: Seq<(usize, String)>) -> Seq<(nat, Seq<char>)> {
    lines.map_values(|l: (usize, String)| (l.0 as nat, l.1@))
}

/// The samples of the first `k` data lines, given each line's reading as a binary64 pattern
/// (`None` where the line does not read as a number), or the message for the first line that
/// is not a number or not finite.
pub open spec fn series_of(lines: Seq<(nat, Seq<char>)>, parsed: Seq<Option<u64>>, k: int) -> Result<
    Seq<u64>,
    Seq<char>,
>
    decreases k,
{
    if k <= 0 {
        Ok(Seq::empty())
    } else {
        match series_of(lines, parsed, k - 1) {
            Err(e) => Err(e),
            Ok(v) => match parsed[k - 1] {
                None => Err(series_value_error(lines[k - 1].0, lines[k - 1].1)),
                Some(b) => if !crate::binary64::finite_bits(b) {
                    Err(series_infinite_error(lines[k - 1].0, lines[k - 1].1))
                } else {
                    Ok(v.push(b))
                },
            },
        }
    }
}

/// What a time series reads as: one finite value per data line, in order; the first line that
/// is not one is refused by its number; a series with no data lines is refused.
pub open spec fn series_spec(lines: Seq<(nat, Seq<char>)>, parsed: Seq<Option<u64>>) -> Result<
    Seq<u64>,
    Seq<char>,
> {
    match series_of(lines, parsed, lines.len() as int) {
        Err(e) => Err(e),
        Ok(v) => if v.len() == 0 {
            Err(empty_record_error(Record::Series))
        } else {
            Ok(v)
        },
    }
}

/// Gathers a time series from its data lines and each line's reading (`parsed[i]` is the bit
/// pattern line `i` reads as, or `None` when it does not read as a number).
pub fn series_values(lines: &Vec<(usize, String)>, parsed: &Vec<Option<u64>>) -> (r: Result<
    Vec<u64>,
    String,
>)
    requires
        lines@.len() == parsed@.len(),
    ensures
        r matches Ok(v) ==> series_spec(lines_view(lines@), parsed@) == Ok::<Seq<u64>, Seq<char>>(
            v@,
        ),
        r matches Err(e) ==> series_spec(lines_view(lines@), parsed@) == Err::<
            Seq<u64>,
            Seq<char>,
        >(e@),
{
    let ghost lv = lines_view(lines@);
    let mut out: Vec<u64> = Vec::new();
    let mut i: usize = 0;
    while i < lines.len()
        invariant
            lines@.len() == parsed@.len(),
            lv == lines_view(lines@),
            i <= lines@.len(),
            series_of(lv, parsed@, i as int) == Ok::<Seq<u64>, Seq<char>>(out@),
        decreases lines@.len() - i,
    {
        let line = lines[i].0;
        assert(lv[i as int] == (line as nat, lines@[i as int].1@));
        match parsed[i] {
            None => {
                let msg = series_error(line, lines[i].1.as_str());
                proof { lemma_series_error_persists(lv, parsed@, i + 1); }
                return Err(msg);
            },
            Some(b) => {
                if !crate::binary64::is_finite_bits(b) {
                    let q = debug_quote(lines[i].1.as_str());
                    let msg = series_infinite_text(line, q.as_str());
                    proof { lemma_series_error_persists(lv, parsed@, i + 1); }
                    return Err(msg);
                }
                out.push(b);
            },
        }
        i = i + 1;
    }
    match check_not_empty(Record::Series, out.len()) {
        Err(e) => Err(e),
        Ok(()) => Ok(out),
    }
}

/// Once a line is refused, the whole series is refused for it.
proof fn lemma_series_error_persists(lines: Seq<(nat, Seq<char>)>, parsed: Seq<Option<u64>>, k: int)
    requires
        0 <= k <= lines.len(),
        series_of(lines, parsed, k) is Err,
    ensures
        series_of(lines, parsed, lines.len() as int) == series_of(lines, parsed, k),
    decreases lines.len() - k,
{
    if k < lines.len() {
        lemma_series_error_persists(lines, parsed, k + 1);
    }
}

/// A sweep line's point, from its content and the readings of its three fields, or the message
/// for the first thing wrong with it: too few fields, then the first field that is not a
/// number (frequency, gain, phase).
pub open spec fn sweep_point_spec(
    line: nat,
    content: Seq<char>,
    parsed: (Option<u64>, Option<u64>, Option<u64>),
) -> Result<crate::transfer::PointBits, Seq<char>> {
    match sweep_fields_spec(line, content) {
        Err(e) => Err(e),
        Ok(f) => if parsed.0 is None {
            Err(sweep_value_error(line, "frequency"@, f.0))
        } else if parsed.1 is None {
            Err(sweep_value_error(line, "gain"@, f.1))
        } else if parsed.2 is None {
            Err(sweep_value_error(line, "phase"@, f.2))
        } else {
            Ok(
                crate::transfer::PointBits {
                    hz: parsed.0->Some_0,
                    gain_db: parsed.1->Some_0,
                    phase_deg: parsed.2->Some_0,
                },
            )
        },
    }
}

/// The points of the first `k` data lines of a sweep, or the message for the first bad line.
pub open spec fn sweep_of(
    lines: Seq<(nat, Seq<char>)>,
    parsed: Seq<(Option<u64>, Option<u64>, Option<u64>)>,
    k: int,
) -> Result<Seq<crate::transfer::PointBits>, Seq<char>>
    decreases k,
{
    if k <= 0 {
        Ok(Seq::empty())
    } else {
        match sweep_of(lines, parsed, k - 1) {
            Err(e) => Err(e),
            Ok(v) => match sweep_point_spec(lines[k - 1].0, lines[k - 1].1, parsed[k - 1]) {
                Err(e) => Err(e),
                Ok(p) => Ok(v.push(p)),
            },
        }
    }
}

/// What a sweep reads as: one point per data line, in order; the first bad line is refused by
/// its number; a sweep with no data lines is refused.
pub open spec fn sweep_spec(
    lines: Seq<(nat, Seq<char>)>,
    parsed: Seq<(Option<u64>, Option<u64>, Option<u64>)>,
) -> Result<Seq<crate::transfer::PointBits>, Seq<char>> {
    match sweep_of(lines, parsed, lines.len() as int) {
        Err(e) => Err(e),
        Ok(v) => if v.len() == 0 {
            Err(empty_record_error(Record::Sweep))
        } else {
            Ok(v)
        },
    }
}

/// Gathers a sweep from its data lines and the readings of each line's first three fields
/// (`parsed[i]` holds the bit pattern each field reads as, or `None`; it is not looked at for a
/// line with fewer than three fields).
pub fn sweep_points(
    lines: &Vec<(usize, String)>,
    parsed: &Vec<(Option<u64>, Option<u64>, Option<u64>)>,
) -> (r: Result<Vec<crate::transfer::PointBits>, String>)
    requires
        lines@.len() == parsed@.len(),
    ensures
        r matches Ok(v) ==> sweep_spec(lines_view(lines@), parsed@) == Ok::<
            Seq<crate::transfer::PointBits>,
            Seq<char>,
        >(v@),
        r matches Err(e) ==> sweep_spec(lines_view(lines@), parsed@) == Err::<
            Seq<crate::transfer::PointBits>,
            Seq<char>,
        >(e@),
{
    let ghost lv = lines_view(lines@);
    let mut out: Vec<crate::transfer::PointBits> = Vec::new();
    let mut i: usize = 0;
    while i < lines.len()
        invariant
            lines@.len() == parsed@.len(),
            lv == lines_view(lines@),
            i <= lines@.len(),
            sweep_of(lv, parsed@, i as int) == Ok::<Seq<crate::transfer::PointBits>, Seq<char>>(
                out@,
            ),
        decreases lines@.len() - i,
    {
        let line = lines[i].0;
        assert(lv[i as int] == (line as nat, lines@[i as int].1@));
        let step = sweep_point(line, lines[i].1.as_str(), parsed[i]);
        match step {
            Err(e) => {
                proof { lemma_sweep_error_persists(lv, parsed@, i + 1); }
                return Err(e);
            },
            Ok(p) => {
                out.push(p);
            },
        }
        i = i + 1;
    }
    match check_not_empty(Record::Sweep, out.len()) {
        Err(e) => Err(e),
        Ok(()) => Ok(out),
    }
}

/// One sweep line's point, or the message for what is wrong with it.
pub fn sweep_point(line: usize, content: &str, parsed: (Option<u64>, Option<u64>, Option<u64>)) -> (r: Result<
    crate::transfer::PointBits,
    String,
>)
    ensures
        r matches Ok(p) ==> sweep_point_spec(line as nat, content@, parsed) == Ok::<
            crate::transfer::PointBits,
            Seq<char>,
        >(p),
        r matches Err(e) ==> sweep_point_spec(line as nat, content@, parsed) == Err::<
            crate::transfer::PointBits,
            Seq<char>,
        >(e@),
{
    match sweep_fields(line, content) {
        Err(e) => Err(e),
        Ok((hz, gain, phase)) => match parsed {
            (None, _, _) => Err(sweep_error(line, "frequency", hz.as_str())),
            (Some(_), None, _) => Err(sweep_error(line, "gain", gain.as_str())),
            (Some(_), Some(_), None) => Err(sweep_error(line, "phase", phase.as_str())),
            (Some(h), Some(g), Some(p)) => Ok(
                crate::transfer::PointBits { hz: h, gain_db: g, phase_deg: p },
            ),
        },
    }
}

/// Once a line is refused, the whole sweep is refused for it.
proof fn lemma_sweep_error_persists(
    lines: Seq<(nat, Seq<char>)>,
    parsed: Seq<(Option<u64>, Option<u64>, Option<u64>)>,
    k: int,
)
    requires
        0 <= k <= lines.len(),
        sweep_of(lines, parsed, k) is Err,
    ensures
        sweep_of(lines, parsed, lines.len() as int) == sweep_of(lines, parsed, k),
    decreases lines.len() - k,
{
    if k < lines.len() {
        lemma_sweep_error_persists(lines, parsed, k + 1);
    }
}

/// The sample data line `i` reads as, or the message for why it is not one finite value.
pub open spec fn line_sample(lines: Seq<(nat, Seq<char>)>, parsed: Seq<Option<u64>>, i: int) -> Result<
    u64,
    Seq<char>,
> {
    match parsed[i] {
        None => Err(series_value_error(lines[i].0, lines[i].1)),
        Some(b) => if !crate::binary64::finite_bits(b) {
            Err(series_infinite_error(lines[i].0, lines[i].1))
        } else {
            Ok(b)
        },
    }
}

proof fn lemma_series_of_line_by_line(lines: Seq<(nat, Seq<char>)>, parsed: Seq<Option<u64>>, k: int)
    requires
        0 <= k <= lines.len(),
    ensures
        series_of(lines, parsed, k) is Ok <==> forall|i: int|
            0 <= i < k ==> #[trigger] line_sample(lines, parsed, i) is Ok,
        series_of(lines, parsed, k) matches Ok(v) ==> v.len() == k && forall|i: int|
            0 <= i < k ==> Ok::<u64, Seq<char>>(v[i]) == #[trigger] line_sample(lines, parsed, i),
        series_of(lines, parsed, k) matches Err(e) ==> exists|j: int|
            #![trigger line_sample(lines, parsed, j)]
            0 <= j < k && line_sample(lines, parsed, j) == Err::<u64, Seq<char>>(e) && forall|i: int|
                0 <= i < j ==> #[trigger] line_sample(lines, parsed, i) is Ok,
    decreases k,
{
    if k > 0 {
        lemma_series_of_line_by_line(lines, parsed, k - 1);
        match series_of(lines, parsed, k - 1) {
            Err(e) => {},
            Ok(v) => {
                match line_sample(lines, parsed, k - 1) {
                    Err(e) => {},
                    Ok(x) => {
                        let w = v.push(x);
                        assert forall|i: int| 0 <= i < k implies Ok::<u64, Seq<char>>(w[i])
                            == #[trigger] line_sample(lines, parsed, i) by {
                            if i < k - 1 {
                                assert(w[i] == v[i]);
                            }
                        }
                    },
                }
            },
        }
    }
}

/// A time series is read line by line, and the first bad line is the one reported: the series
/// is accepted exactly when it has data lines and each reads as one finite value, and then
/// holds those values in order; otherwise the message is that of the first line that is not a
/// number or not finite, or, with no data lines at all, that no samples were found.
pub proof fn lemma_series_refuses_first_bad_line(lines: Seq<(nat, Seq<char>)>, parsed: Seq<Option<u64>>)
    ensures
        series_spec(lines, parsed) is Ok <==> lines.len() > 0 && forall|i: int|
            0 <= i < lines.len() ==> #[trigger] line_sample(lines, parsed, i) is Ok,
        series_spec(lines, parsed) matches Ok(v) ==> v.len() == lines.len() && forall|i: int|
            0 <= i < lines.len() ==> Ok::<u64, Seq<char>>(v[i]) == #[trigger] line_sample(
                lines,
                parsed,
                i,
            ),
        series_spec(lines, parsed) matches Err(e) ==> {
            ||| lines.len() == 0 && e == empty_record_error(Record::Series)
            ||| exists|j: int|
                #![trigger line_sample(lines, parsed, j)]
                0 <= j < lines.len() && line_sample(lines, parsed, j) == Err::<u64, Seq<char>>(e)
                    && forall|i: int| 0 <= i < j ==> #[trigger] line_sample(lines, parsed, i) is Ok
        },
{
    lemma_series_of_line_by_line(lines, parsed, lines.len() as int);
}

/// The point data line `i` reads as, or the message for what is wrong with it.
pub open spec fn line_point(
    lines: Seq<(nat, Seq<char>)>,
    parsed: Seq<(Option<u64>, Option<u64>, Option<u64>)>,
    i: int,
) -> Result<crate::transfer::PointBits, Seq<char>> {
    sweep_point_spec(lines[i].0, lines[i].1, parsed[i])
}

proof fn lemma_sweep_of_line_by_line(
    lines: Seq<(nat, Seq<char>)>,
    parsed: Seq<(Option<u64>, Option<u64>, Option<u64>)>,
    k: int,
)
    requires
        0 <= k <= lines.len(),
    ensures
        sweep_of(lines, parsed, k) is Ok <==> forall|i: int|
            0 <= i < k ==> #[trigger] line_point(lines, parsed, i) is Ok,
        sweep_of(lines, parsed, k) matches Ok(v) ==> v.len() == k && forall|i: int|
            0 <= i < k ==> Ok::<crate::transfer::PointBits, Seq<char>>(v[i])
                == #[trigger] line_point(lines, parsed, i),
        sweep_of(lines, parsed, k) matches Err(e) ==> exists|j: int|
            #![trigger line_point(lines, parsed, j)]
            0 <= j < k && line_point(lines, parsed, j) == Err::<
                crate::transfer::PointBits,
                Seq<char>,
            >(e) && forall|i: int| 0 <= i < j ==> #[trigger] line_point(lines, parsed, i) is Ok,
    decreases k,
{
    if k > 0 {
        lemma_sweep_of_line_by_line(lines, parsed, k - 1);
        match sweep_of(lines, parsed, k - 1) {
            Err(e) => {},
            Ok(v) => {
                match line_point(lines, parsed, k - 1) {
                    Err(e) => {},
                    Ok(p) => {
                        let w = v.push(p);
                        assert forall|i: int| 0 <= i < k implies Ok::<
                            crate::transfer::PointBits,
                            Seq<char>,
                        >(w[i]) == #[trigger] line_point(lines, parsed, i) by {
                            if i < k - 1 {
                                assert(w[i] == v[i]);
                            }
                        }
                    },
                }
            },
        }
    }
}

/// A sweep is read line by line, and the first bad line is the one reported: the sweep is
/// accepted exactly when it has data lines and each reads as a point, and then holds one point
/// per data line, in order; otherwise the message is that of the first line that does not read
/// (too few fields, else the first of frequency, gain, phase that is not a number), or, with no
/// data lines at all, that no sweep points were found.
pub proof fn lemma_sweep_refuses_first_bad_line(
    lines: Seq<(nat, Seq<char>)>,
    parsed: Seq<(Option<u64>, Option<u64>, Option<u64>)>,
)
    ensures
        sweep_spec(lines, parsed) is Ok <==> lines.len() > 0 && forall|i: int|
            0 <= i < lines.len() ==> #[trigger] line_point(lines, parsed, i) is Ok,
        sweep_spec(lines, parsed) matches Ok(v) ==> v.len() == lines.len() && forall|i: int|
            0 <= i < lines.len() ==> Ok::<crate::transfer::PointBits, Seq<char>>(v[i])
                == #[trigger] line_point(lines, parsed, i),
        sweep_spec(lines, parsed) matches Err(e) ==> {
            ||| lines.len() == 0 && e == empty_record_error(Record::Sweep)
            ||| exists|j: int|
                #![trigger line_point(lines, parsed, j)]
                0 <= j < lines.len() && line_point(lines, parsed, j) == Err::<
                    crate::transfer::PointBits,
                    Seq<char>,
                >(e) && forall|i: int| 0 <= i < j ==> #[trigger] line_point(lines, parsed, i) is Ok
        },
{
    lemma_sweep_of_line_by_line(lines, parsed, lines.len() as int);
}

/// Nothing is silently dropped or reordered: the data lines are exactly the lines with content,
/// in order, each under its own line number and holding that line's content.
pub proof fn lemma_data_lines_are_the_lines_with_content(lines: Seq<Seq<char>>)
    ensures
        forall|i: int, j: int|
            0 <= i < j < data_lines_of(lines).len() ==> (#[trigger] data_lines_of(lines)[i]).0
                < (#[trigger] data_lines_of(lines)[j]).0,
        forall|i: int|
            0 <= i < data_lines_of(lines).len() ==> {
                let d = #[trigger] data_lines_of(lines)[i];
                &&& 1 <= d.0 <= lines.len()
                &&& d.1.len() > 0
                &&& d.1 == line_content(lines[d.0 - 1])
            },
        forall|k: int|
            0 <= k < lines.len() && (#[trigger] line_content(lines[k])).len() > 0 ==> exists|
                i: int,
            |
                0 <= i < data_lines_of(lines).len() && (#[trigger] data_lines_of(lines)[i]).0 == k
                    + 1,
    decreases lines.len(),
{
    if lines.len() > 0 {
        let prev_lines = lines.drop_last();
        lemma_data_lines_are_the_lines_with_content(prev_lines);
        let prev = data_lines_of(prev_lines);
        let cur = data_lines_of(lines);
        let c = line_content(lines.last());
        assert forall|i: int| 0 <= i < prev.len() implies (#[trigger] prev[i]).0 <= prev_lines.len()
            && lines[prev[i].0 - 1] == prev_lines[prev[i].0 - 1] by {}
        if c.len() > 0 {
            assert(cur == prev.push((lines.len(), c)));
        } else {
            assert(cur == prev);
        }
        assert forall|i: int| 0 <= i < cur.len() implies {
            let d = #[trigger] cur[i];
            &&& 1 <= d.0 <= lines.len()
            &&& d.1.len() > 0
            &&& d.1 == line_content(lines[d.0 - 1])
        } by {
            if i < prev.len() {
                assert(cur[i] == prev[i]);
            }
        }
        assert forall|i: int, j: int| 0 <= i < j < cur.len() implies (#[trigger] cur[i]).0
            < (#[trigger] cur[j]).0 by {
            if j < prev.len() {
                assert(cur[i] == prev[i]);
                assert(cur[j] == prev[j]);
            } else {
                assert(cur[i] == prev[i]);
            }
        }
        assert forall|k: int|
            0 <= k < lines.len() && (#[trigger] line_content(lines[k])).len() > 0 implies exists|
            i: int,
        | 0 <= i < cur.len() && (#[trigger] cur[i]).0 == k + 1 by {
            if k < prev_lines.len() {
                assert(lines[k] == prev_lines[k]);
                assert(line_content(prev_lines[k]).len() > 0);
                let i = choose|i: int| 0 <= i < prev.len() && (#[trigger] prev[i]).0 == k + 1;
                assert(cur[i] == prev[i]);
            } else {
                assert(cur[prev.len() as int].0 == k + 1);
            }
        }
    }
}

} // verus!
