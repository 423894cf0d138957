//! StatsD metrics: the lines that Gunicorn, or the application, sends.
//!
//! Understood are
//! - `gunicorn.requests:<count>|c`, with an optional `|@<rate>`,
//! - `gunicorn.request.duration:<milliseconds>|ms`,
//! - `gunicorn.workers:<number>|g`.

use vstd::prelude::*;
use vstd::slice::slice_subrange;
use vstd::utf8::{decode_utf8, valid_utf8};

use crate::text::{
    chars_of, ends_with, find, lemma_position, lemma_position_between, lines, lossy_string,
    lossy_text, position, spells, split_once, string_of, trim, trim_end, trim_start, trimmed, white,
    without_cr,
};

verus! {

/// What a line says. Values are kept as they were sent.
#[derive(Debug)]
pub enum Metric {
    /// So many requests were served, of which only a share was counted, if a rate is given.
    Requests { value: String, rate: Option<String> },
    /// A request took so long.
    Duration { value: String },
    /// So many workers are running.
    Workers { value: String },
    /// Nothing that matters here.
    Ignored,
}

/// The content of a metric.
pub enum MetricView {
    Requests { value: Seq<char>, rate: Option<Seq<char>> },
    Duration { value: Seq<char> },
    Workers { value: Seq<char> },
    Ignored,
}

impl View for Metric {
    type V = MetricView;

    open spec fn view(&self) -> MetricView {
        match self {
            Metric::Requests { value, rate } => MetricView::Requests {
                value: value@,
                rate: match rate {
                    Some(r) => Some(r@),
                    None => None,
                },
            },
            Metric::Duration { value } => MetricView::Duration { value: value@ },
            Metric::Workers { value } => MetricView::Workers { value: value@ },
            Metric::Ignored => MetricView::Ignored,
        }
    }
}

/// Why a line says nothing.
#[derive(Debug, PartialEq, Eq, Structural, Clone, Copy)]
pub enum ParseError {
    /// No colon ends the name.
    NoColon,
    /// No type follows the value.
    NoType,
}

/// The parts of a text between the occurrences of `c`.
pub open spec fn split(s: Seq<char>, c: char) -> Seq<Seq<char>>
    decreases s.len(),
{
    proof {
        lemma_position(s, c);
    }
    let p = position(s, c);
    if p < s.len() {
        seq![s.take(p)] + split(s.skip(p + 1), c)
    } else {
        seq![s]
    }
}

/// The sampling rate: what follows the `@` of the last part that begins with one.
pub open spec fn rate_in(parts: Seq<Seq<char>>) -> Option<Seq<char>>
    decreases parts.len(),
{
    if parts.len() == 0 {
        None
    } else if parts.last().len() > 0 && parts.last()[0] == '@' {
        Some(parts.last().skip(1))
    } else {
        rate_in(parts.drop_last())
    }
}

/// Whether a name is that of a kind of metric: it ends with the kind, after any prefix.
pub open spec fn is_kind(name: Seq<char>, prefix: Seq<char>, kind: Seq<char>) -> bool {
    kind.is_suffix_of(name) || name == prefix + kind
}

/// The metric that a name, a value, a type and a rate make up.
pub open spec fn metric(
    name: Seq<char>,
    prefix: Seq<char>,
    value: Seq<char>,
    typ: Seq<char>,
    rate: Option<Seq<char>>,
) -> MetricView {
    if typ == "c"@ && is_kind(name, prefix, ".requests"@) {
        MetricView::Requests { value, rate }
    } else if (typ == "ms"@ || typ == "h"@) && is_kind(name, prefix, ".request.duration"@) {
        MetricView::Duration { value }
    } else if typ == "g"@ && is_kind(name, prefix, ".workers"@) {
        MetricView::Workers { value }
    } else {
        MetricView::Ignored
    }
}

/// What a line says: a name, a colon, and parts between bars, of which the first is the value,
/// the second the type, and any later one may be a rate.
pub open spec fn parsed(line: Seq<char>, prefix: Seq<char>) -> Result<MetricView, ParseError> {
    match split_once(line, ':') {
        None => Err(ParseError::NoColon),
        Some((name, rest)) => {
            let parts = split(rest, '|');
            if parts.len() < 2 {
                Err(ParseError::NoType)
            } else {
                Ok(metric(trimmed(name), prefix, parts[0], parts[1], rate_in(parts.skip(2))))
            }
        },
    }
}

/// The content of what was parsed.
pub open spec fn outcome(res: Result<Metric, ParseError>) -> Result<MetricView, ParseError> {
    match res {
        Ok(m) => Ok(m@),
        Err(e) => Err(e),
    }
}

/// Tells whether a name is that of a kind of metric.
fn has_kind(name: &[char], prefix: &str, kind: &str) -> (res: bool)
    ensures
        res == is_kind(name@, prefix@, kind@),
{
    if ends_with(name, kind) {
        return true;
    }
    let mut full = prefix.to_owned();
    full.append(kind);
    spells(name, full.as_str())
}

/// Finds the rate among the parts of a text between bars.
fn find_rate(chars: &[char]) -> (res: Option<String>)
    ensures
        match res {
            Some(rate) => rate_in(split(chars@, '|')) == Some(rate@),
            None => rate_in(split(chars@, '|')) is None,
        },
{
    let ghost all = split(chars@, '|');
    let ghost mut done = Seq::<Seq<char>>::empty();
    let mut rest = chars;
    let mut rate: Option<String> = None;
    assert(all =~= done + split(rest@, '|'));
    loop
        invariant_except_break
            all == done + split(rest@, '|'),
        invariant
            match rate {
                Some(r) => rate_in(done) == Some(r@),
                None => rate_in(done) is None,
            },
        ensures
            all == done,
        decreases rest@.len(),
    {
        let p: usize = find(rest, '|');
        let part = slice_subrange(rest, 0, p);
        assert(part@ =~= rest@.take(p as int));
        if part.len() > 0 && part[0] == '@' {
            let r = string_of(slice_subrange(part, 1, part.len()));
            assert(r@ =~= part@.skip(1));
            rate = Some(r);
        }
        proof {
            let next = done.push(part@);
            assert(next.drop_last() =~= done);
            assert(next.last() == part@);
            if p < rest@.len() {
                assert(all =~= next + split(rest@.skip(p + 1), '|'));
            } else {
                assert(rest@.take(p as int) =~= rest@);
                assert(all =~= next);
            }
            done = next;
        }
        if p == rest.len() {
            break;
        }
        assert(rest@.skip(p + 1) =~= rest@.subrange(p + 1, rest@.len() as int));
        rest = slice_subrange(rest, p + 1, rest.len());
    }
    rate
}

/// Reads a line.
fn parse_chars(line: &[char], prefix: &str) -> (res: Result<Metric, ParseError>)
    ensures
        outcome(res) == parsed(line@, prefix@),
{
    let colon: usize = find(line, ':');
    if colon == line.len() {
        return Err(ParseError::NoColon);
    }
    let head = slice_subrange(line, 0, colon);
    assert(head@ =~= line@.take(colon as int));
    let rest = slice_subrange(line, colon + 1, line.len());
    assert(rest@ =~= line@.skip(colon + 1));
    let ghost parts = split(rest@, '|');
    let first: usize = find(rest, '|');
    if first == rest.len() {
        return Err(ParseError::NoType);
    }
    let value = slice_subrange(rest, 0, first);
    assert(value@ =~= rest@.take(first as int));
    let tail = slice_subrange(rest, first + 1, rest.len());
    assert(tail@ =~= rest@.skip(first + 1));
    assert(parts == seq![value@] + split(tail@, '|'));
    let second: usize = find(tail, '|');
    let typ = slice_subrange(tail, 0, second);
    assert(typ@ =~= tail@.take(second as int));
    let rate: Option<String>;
    if second == tail.len() {
        assert(tail@.take(second as int) =~= tail@);
        assert(split(tail@, '|') == seq![typ@]);
        assert(parts =~= seq![value@, typ@]);
        assert(parts.skip(2) =~= Seq::<Seq<char>>::empty());
        rate = None;
    } else {
        let more = slice_subrange(tail, second + 1, tail.len());
        assert(more@ =~= tail@.skip(second + 1));
        assert(split(tail@, '|') == seq![typ@] + split(more@, '|'));
        assert(parts =~= seq![value@, typ@] + split(more@, '|'));
        assert(parts.skip(2) =~= split(more@, '|'));
        rate = find_rate(more);
    }
    let name = trim(head);
    if spells(typ, "c") && has_kind(name, prefix, ".requests") {
        return Ok(Metric::Requests { value: string_of(value), rate });
    }
    if (spells(typ, "ms") || spells(typ, "h")) && has_kind(name, prefix, ".request.duration") {
        return Ok(Metric::Duration { value: string_of(value) });
    }
    if spells(typ, "g") && has_kind(name, prefix, ".workers") {
        return Ok(Metric::Workers { value: string_of(value) });
    }
    Ok(Metric::Ignored)
}

/// Reads a line.
pub fn parse_statsd_line(line: &str, prefix: &str) -> (res: Result<Metric, ParseError>)
    ensures
        outcome(res) == parsed(line@, prefix@),
{
    parse_chars(chars_of(line).as_slice(), prefix)
}

/// What the lines of a text say, one after another.
pub open spec fn parsed_lines(text: Seq<char>, prefix: Seq<char>) -> Seq<
    Result<MetricView, ParseError>,
> {
    lines(text).map_values(|line: Seq<char>| parsed(line, prefix))
}

/// The contents of what was parsed, one after another.
pub open spec fn outcomes(res: Seq<Result<Metric, ParseError>>) -> Seq<
    Result<MetricView, ParseError>,
> {
    res.map_values(|r: Result<Metric, ParseError>| outcome(r))
}

/// Reads the lines of a text.
pub fn parse_text(text: &str, prefix: &str) -> (res: Vec<Result<Metric, ParseError>>)
    ensures
        outcomes(res@) == parsed_lines(text@, prefix@),
{
    let owned = chars_of(text);
    let mut rest = owned.as_slice();
    let mut out: Vec<Result<Metric, ParseError>> = Vec::new();
    let ghost all = parsed_lines(text@, prefix@);
    assert(all =~= outcomes(out@) + parsed_lines(rest@, prefix@));
    while rest.len() > 0
        invariant
            all == outcomes(out@) + parsed_lines(rest@, prefix@),
        decreases rest@.len(),
    {
        let p: usize = find(rest, '\n');
        let ghost before = outcomes(out@);
        let ended: bool = p < rest.len();
        let mut end: usize = p;
        if ended && p > 0 && rest[p - 1] == '\r' {
            end = p - 1;
        }
        let line = slice_subrange(rest, 0, end);
        let next = if ended {
            slice_subrange(rest, p + 1, rest.len())
        } else {
            slice_subrange(rest, p, p)
        };
        proof {
            let raw = rest@.take(p as int);
            if ended {
                assert(p > 0 ==> raw.last() == rest@[p - 1]);
                assert(line@ =~= without_cr(raw));
                assert(next@ =~= rest@.skip(p + 1));
                assert(lines(rest@) == seq![line@] + lines(next@));
            } else {
                assert(line@ =~= rest@);
                assert(next@ =~= Seq::<char>::empty());
                assert(lines(rest@) =~= seq![line@] + lines(next@));
            }
            assert(parsed_lines(rest@, prefix@) =~= seq![parsed(line@, prefix@)] + parsed_lines(
                next@,
                prefix@,
            ));
        }
        let r = parse_chars(line, prefix);
        out.push(r);
        assert(outcomes(out@) =~= before.push(outcome(r)));
        assert(all =~= outcomes(out@) + parsed_lines(next@, prefix@));
        rest = next;
    }
    assert(all =~= outcomes(out@));
    out
}

/// Reads the lines of a datagram, whose bytes need not be valid UTF-8.
pub fn parse_packet(bytes: &[u8], prefix: &str) -> (res: Vec<Result<Metric, ParseError>>)
    ensures
        outcomes(res@) == parsed_lines(lossy_text(bytes@), prefix@),
        valid_utf8(bytes@) ==> outcomes(res@) == parsed_lines(
            decode_utf8(bytes@),
            prefix@,
        ),
{
    let text = lossy_string(bytes);
    parse_text(text.as_str(), prefix)
}

/// A number that was read from a text, and on which side of 0 it lies. `F` is the type of the
/// number; one that is no number lies on neither side.
pub struct Parsed<F> {
    pub value: F,
    pub at_least_zero: bool,
    pub at_most_zero: bool,
}

/// What a metric tells, in numbers.
#[derive(Debug, PartialEq)]
pub enum Reading<F> {
    /// So many requests were counted, at this rate.
    Requests { count: F, rate: F },
    /// A request took so many milliseconds.
    Duration { ms: F },
    /// So many workers are running.
    Workers { number: F },
}

/// The rate to go by: the one that was sent, unless it cannot be read or is not positive; then
/// everything was counted.
pub open spec fn rate_used<F>(rate: Option<Parsed<F>>, one: F) -> F {
    match rate {
        Some(r) => if r.at_most_zero {
            one
        } else {
            r.value
        },
        None => one,
    }
}

/// The value to go by: the one that was sent, unless it cannot be read.
pub open spec fn value_used<F>(value: Option<Parsed<F>>, zero: F) -> F {
    match value {
        Some(v) => v.value,
        None => zero,
    }
}

/// What a metric tells, by its value and its rate, as far as they could be read. A number of
/// workers that cannot be read, or is negative, tells nothing.
pub open spec fn reading<F>(
    metric: MetricView,
    value: Option<Parsed<F>>,
    rate: Option<Parsed<F>>,
    zero: F,
    one: F,
) -> Option<Reading<F>> {
    match metric {
        MetricView::Requests { .. } => Some(
            Reading::Requests { count: value_used(value, zero), rate: rate_used(rate, one) },
        ),
        MetricView::Duration { .. } => Some(Reading::Duration { ms: value_used(value, zero) }),
        MetricView::Workers { .. } => match value {
            Some(v) => if v.at_least_zero {
                Some(Reading::Workers { number: v.value })
            } else {
                None
            },
            None => None,
        },
        MetricView::Ignored => None,
    }
}

impl Metric {
    /// Tells what a metric says in numbers. `value` and `rate` are what its texts were read as,
    /// where they could be read.
    pub fn read<F: Copy>(
        &self,
        value: Option<Parsed<F>>,
        rate: Option<Parsed<F>>,
        zero: F,
        one: F,
    ) -> (res: Option<Reading<F>>)
        ensures
            res == reading(self@, value, rate, zero, one),
    {
        let sent: F = match &value {
            Some(v) => v.value,
            None => zero,
        };
        match self {
            Metric::Requests { .. } => {
                let mut share: F = one;
                if let Some(r) = rate {
                    if !r.at_most_zero {
                        share = r.value;
                    }
                }
                Some(Reading::Requests { count: sent, rate: share })
            },
            Metric::Duration { .. } => Some(Reading::Duration { ms: sent }),
            Metric::Workers { .. } => {
                if let Some(v) = value {
                    if v.at_least_zero {
                        return Some(Reading::Workers { number: v.value });
                    }
                }
                None
            },
            Metric::Ignored => None,
        }
    }
}

/// Each line of a text is read on its own.
pub proof fn law_lines_stand_alone(line: Seq<char>, rest: Seq<char>, prefix: Seq<char>)
    requires
        !line.contains('\n'),
    ensures
        parsed_lines(line + seq!['\n'] + rest, prefix) == seq![
            parsed(without_cr(line), prefix),
        ] + parsed_lines(rest, prefix),
{
    let s = line + seq!['\n'] + rest;
    lemma_position_between(line, '\n', rest);
    assert(s.take(line.len() as int) =~= line);
    assert(s.skip(line.len() as int + 1) =~= rest);
    assert(lines(s) == seq![without_cr(line)] + lines(rest));
    assert(parsed_lines(s, prefix) =~= seq![parsed(without_cr(line), prefix)] + parsed_lines(
        rest,
        prefix,
    ));
}

/// The prefix decides nothing: a name with it ends with the kind anyway.
pub proof fn law_prefix_decides_nothing(line: Seq<char>, prefix: Seq<char>, other: Seq<char>)
    ensures
        parsed(line, prefix) == parsed(line, other),
{
    assert forall|name: Seq<char>, p: Seq<char>, kind: Seq<char>| #[trigger]
        is_kind(name, p, kind) == kind.is_suffix_of(name) by {
        let full = p + kind;
        assert(full.subrange(full.len() - kind.len(), full.len() as int) =~= kind);
    }
}

/// A text without `c` is not split.
proof fn lemma_split_none(s: Seq<char>, c: char)
    requires
        !s.contains(c),
    ensures
        split(s, c) == seq![s],
        position(s, c) == s.len(),
{
    lemma_position(s, c);
}

/// A text is split at a `c` that stands between its parts.
proof fn lemma_split_at(before: Seq<char>, c: char, after: Seq<char>)
    requires
        !before.contains(c),
    ensures
        split(before + seq![c] + after, c) == seq![before] + split(after, c),
{
    let s = before + seq![c] + after;
    lemma_position_between(before, c, after);
    assert(s.take(before.len() as int) =~= before);
    assert(s.skip(before.len() as int + 1) =~= after);
}

/// Trimming keeps what ends a name, where neither its first nor its last character is white
/// space.
proof fn lemma_trim_keeps_end(head: Seq<char>, end: Seq<char>)
    requires
        end.len() > 0,
        !white(end[0]),
        !white(end.last()),
    ensures
        end.is_suffix_of(trimmed(head + end)),
    decreases head.len(),
{
    let s = head + end;
    if head.len() > 0 && white(head[0]) {
        lemma_trim_keeps_end(head.skip(1), end);
        assert(s.skip(1) =~= head.skip(1) + end);
    } else {
        assert(trim_start(s) == s);
        assert(s.last() == end.last());
        assert(trim_end(s) == s);
        assert(s.subrange(head.len() as int, s.len() as int) =~= end);
    }
}

/// A line of a known kind of metric is read as such, with its value and its rate.
proof fn lemma_line(
    head: Seq<char>,
    kind: Seq<char>,
    value: Seq<char>,
    typ: Seq<char>,
    rate: Option<Seq<char>>,
    prefix: Seq<char>,
)
    requires
        kind.len() > 0,
        !white(kind[0]),
        !white(kind.last()),
        !(head + kind).contains(':'),
        !value.contains('|'),
        !typ.contains('|'),
        rate matches Some(r) ==> !r.contains('|'),
    ensures
        ({
            let line = head + kind + seq![':'] + value + seq!['|'] + typ + match rate {
                Some(r) => seq!['|', '@'] + r,
                None => Seq::empty(),
            };
            parsed(line, prefix) == Ok::<MetricView, ParseError>(
                metric(trimmed(head + kind), prefix, value, typ, rate),
            )
        }),
        is_kind(trimmed(head + kind), prefix, kind),
{
    let name = head + kind;
    let end = match rate {
        Some(r) => seq!['|', '@'] + r,
        None => Seq::<char>::empty(),
    };
    let rest = value + seq!['|'] + typ + end;
    let line = head + kind + seq![':'] + value + seq!['|'] + typ + end;
    assert(line =~= name + seq![':'] + rest);
    lemma_position_between(name, ':', rest);
    assert(line.take(name.len() as int) =~= name);
    assert(line.skip(name.len() as int + 1) =~= rest);
    assert(rest =~= value + seq!['|'] + (typ + end));
    lemma_split_at(value, '|', typ + end);
    let parts = split(rest, '|');
    match rate {
        Some(r) => {
            let last = seq!['@'] + r;
            assert(typ + end =~= typ + seq!['|'] + last);
            lemma_split_at(typ, '|', last);
            assert(!last.contains('|')) by {
                if last.contains('|') {
                    let i = choose|i: int| 0 <= i < last.len() && last[i] == '|';
                    assert(r[i - 1] == '|');
                }
            }
            lemma_split_none(last, '|');
            assert(parts =~= seq![value, typ, last]);
            assert(parts.skip(2) =~= seq![last]);
            assert(last.skip(1) =~= r);
        },
        None => {
            assert(typ + end =~= typ);
            lemma_split_none(typ, '|');
            assert(parts =~= seq![value, typ]);
            assert(parts.skip(2) =~= Seq::<Seq<char>>::empty());
        },
    }
    lemma_trim_keeps_end(head, kind);
}

/// The lines that Gunicorn documents are understood: whatever the prefix, a count of requests
/// with or without a rate, a duration, and a number of workers come through as they were sent.
pub proof fn law_understands_gunicorn(
    head: Seq<char>,
    value: Seq<char>,
    rate: Seq<char>,
    prefix: Seq<char>,
)
    requires
        !head.contains(':'),
        !value.contains('|'),
        !rate.contains('|'),
    ensures
        parsed(head + ".requests"@ + seq![':'] + value + seq!['|'] + "c"@, prefix) == Ok::<
            MetricView,
            ParseError,
        >(MetricView::Requests { value, rate: None }),
        parsed(
            head + ".requests"@ + seq![':'] + value + seq!['|'] + "c"@ + (seq!['|', '@'] + rate),
            prefix,
        ) == Ok::<MetricView, ParseError>(MetricView::Requests { value, rate: Some(rate) }),
        parsed(head + ".request.duration"@ + seq![':'] + value + seq!['|'] + "ms"@, prefix) == Ok::<
            MetricView,
            ParseError,
        >(MetricView::Duration { value }),
        parsed(head + ".workers"@ + seq![':'] + value + seq!['|'] + "g"@, prefix) == Ok::<
            MetricView,
            ParseError,
        >(MetricView::Workers { value }),
{
    reveal_strlit(".requests");
    reveal_strlit(".request.duration");
    reveal_strlit(".workers");
    reveal_strlit("c");
    reveal_strlit("ms");
    reveal_strlit("h");
    reveal_strlit("g");
    let kinds = seq![".requests"@, ".request.duration"@, ".workers"@];
    assert forall|k: int| 0 <= k < 3 implies !(head + #[trigger] kinds[k]).contains(':') by {
        let name = head + kinds[k];
        if name.contains(':') {
            let i = choose|i: int| 0 <= i < name.len() && name[i] == ':';
            if i < head.len() {
                assert(head[i] == ':');
            } else {
                assert(kinds[k][i - head.len()] == ':');
            }
        }
    }
    assert(kinds[0] == ".requests"@ && kinds[1] == ".request.duration"@ && kinds[2]
        == ".workers"@);
    let none = None::<Seq<char>>;
    lemma_line(head, ".requests"@, value, "c"@, none, prefix);
    lemma_line(head, ".requests"@, value, "c"@, Some(rate), prefix);
    lemma_line(head, ".request.duration"@, value, "ms"@, none, prefix);
    lemma_line(head, ".workers"@, value, "g"@, none, prefix);
    let empty = Seq::<char>::empty();
    assert(head + ".requests"@ + seq![':'] + value + seq!['|'] + "c"@ + empty =~= head
        + ".requests"@ + seq![':'] + value + seq!['|'] + "c"@);
    assert(head + ".request.duration"@ + seq![':'] + value + seq!['|'] + "ms"@ + empty =~= head
        + ".request.duration"@ + seq![':'] + value + seq!['|'] + "ms"@);
    assert(head + ".workers"@ + seq![':'] + value + seq!['|'] + "g"@ + empty =~= head + ".workers"@
        + seq![':'] + value + seq!['|'] + "g"@);
    assert("ms"@ != "c"@ && "g"@ != "c"@ && "g"@ != "ms"@ && "g"@ != "h"@) by {
        assert("ms"@.len() == 2 && "c"@.len() == 1 && "g"@.len() == 1);
        assert("c"@[0] == 'c' && "g"@[0] == 'g' && "h"@[0] == 'h');
    }
}

/// A text with one more part at its end is split into the same parts and that one.
proof fn lemma_split_more(s: Seq<char>, c: char, part: Seq<char>)
    requires
        !part.contains(c),
    ensures
        split(s + seq![c] + part, c) == split(s, c).push(part),
    decreases s.len(),
{
    let whole = s + seq![c] + part;
    lemma_position(s, c);
    let p = position(s, c);
    if p < s.len() {
        let (before, after) = (s.take(p), s.skip(p + 1));
        assert(!before.contains(c)) by {
            if before.contains(c) {
                let i = choose|i: int| 0 <= i < before.len() && before[i] == c;
                assert(s[i] == c);
            }
        }
        assert(whole =~= before + seq![c] + (after + seq![c] + part));
        lemma_split_at(before, c, after + seq![c] + part);
        lemma_split_more(after, c, part);
        assert(split(whole, c) =~= split(s, c).push(part));
    } else {
        assert(!s.contains(c)) by {
            if s.contains(c) {
                let i = choose|i: int| 0 <= i < s.len() && s[i] == c;
                assert(s[i] != c);
            }
        }
        lemma_split_at(s, c, part);
        lemma_split_none(part, c);
        lemma_split_none(s, c);
        assert(split(whole, c) =~= split(s, c).push(part));
    }
}

/// A line is made of what stands before its first colon, and the parts after it.
proof fn lemma_line_parts(name: Seq<char>, rest: Seq<char>, prefix: Seq<char>)
    requires
        !name.contains(':'),
    ensures
        parsed(name + seq![':'] + rest, prefix) == if split(rest, '|').len() < 2 {
            Err::<MetricView, ParseError>(ParseError::NoType)
        } else {
            Ok(
                metric(
                    trimmed(name),
                    prefix,
                    split(rest, '|')[0],
                    split(rest, '|')[1],
                    rate_in(split(rest, '|').skip(2)),
                ),
            )
        },
{
    let line = name + seq![':'] + rest;
    lemma_position_between(name, ':', rest);
    assert(line.take(name.len() as int) =~= name);
    assert(line.skip(name.len() as int + 1) =~= rest);
}

/// The first two parts of what follows the colon.
proof fn lemma_value_and_type(value: Seq<char>, typ: Seq<char>, tail: Seq<char>)
    requires
        !value.contains('|'),
        !typ.contains('|'),
        tail.len() == 0 || tail[0] == '|',
    ensures
        ({
            let parts = split(value + seq!['|'] + typ + tail, '|');
            &&& parts.len() >= 2
            &&& parts[0] == value
            &&& parts[1] == typ
            &&& tail.len() == 0 ==> parts.len() == 2
        }),
{
    let rest = value + seq!['|'] + typ + tail;
    assert(rest =~= value + seq!['|'] + (typ + tail));
    lemma_split_at(value, '|', typ + tail);
    if tail.len() == 0 {
        assert(typ + tail =~= typ);
        lemma_split_none(typ, '|');
    } else {
        assert(typ + tail =~= typ + seq!['|'] + tail.skip(1));
        lemma_split_at(typ, '|', tail.skip(1));
        lemma_position(tail.skip(1), '|');
    }
}

/// A line without a colon has no name, and one without a bar after its first colon has no type;
/// both are refused, and every other line is read.
pub proof fn law_lines_that_are_refused(name: Seq<char>, rest: Seq<char>, prefix: Seq<char>)
    requires
        !name.contains(':'),
    ensures
        parsed(name, prefix) == Err::<MetricView, ParseError>(ParseError::NoColon),
        !rest.contains('|') ==> parsed(name + seq![':'] + rest, prefix) == Err::<
            MetricView,
            ParseError,
        >(ParseError::NoType),
        rest.contains('|') ==> parsed(name + seq![':'] + rest, prefix) is Ok,
{
    lemma_position(name, ':');
    lemma_line_parts(name, rest, prefix);
    if rest.contains('|') {
        lemma_position(rest, '|');
        let i = choose|i: int| 0 <= i < rest.len() && rest[i] == '|';
        let p = position(rest, '|');
        assert(p <= i);
        lemma_position(rest.skip(p + 1), '|');
        assert(split(rest.skip(p + 1), '|').len() >= 1);
    } else {
        lemma_split_none(rest, '|');
    }
}

/// What a line tells is decided by the end of its name and by its type, and by nothing else:
/// requests by `.requests` and `c`, a duration by `.request.duration` and `ms` or `h`, workers by
/// `.workers` and `g`. Every other line that has a colon and a type is ignored. The value is what
/// stands between the first colon and the next bar, as it stands.
pub proof fn law_name_and_type_decide(
    name: Seq<char>,
    value: Seq<char>,
    typ: Seq<char>,
    tail: Seq<char>,
    prefix: Seq<char>,
)
    requires
        !name.contains(':'),
        !value.contains('|'),
        !typ.contains('|'),
        tail.len() == 0 || tail[0] == '|',
    ensures
        ({
            let full = trimmed(name);
            let requests = typ == seq!['c'] && ".requests"@.is_suffix_of(full);
            let duration = (typ == seq!['m', 's'] || typ == seq!['h'])
                && ".request.duration"@.is_suffix_of(full);
            let workers = typ == seq!['g'] && ".workers"@.is_suffix_of(full);
            match parsed(name + seq![':'] + value + seq!['|'] + typ + tail, prefix) {
                Ok(MetricView::Requests { value: v, .. }) => requests && v == value,
                Ok(MetricView::Duration { value: v }) => duration && v == value,
                Ok(MetricView::Workers { value: v }) => workers && v == value,
                Ok(MetricView::Ignored) => !requests && !duration && !workers,
                Err(_) => false,
            }
        }),
{
    reveal_strlit("c");
    reveal_strlit("ms");
    reveal_strlit("h");
    reveal_strlit("g");
    let rest = value + seq!['|'] + typ + tail;
    assert(name + seq![':'] + value + seq!['|'] + typ + tail =~= name + seq![':'] + rest);
    lemma_line_parts(name, rest, prefix);
    lemma_value_and_type(value, typ, tail);
    assert("c"@ =~= seq!['c'] && "ms"@ =~= seq!['m', 's'] && "h"@ =~= seq!['h'] && "g"@ =~= seq![
        'g',
    ]);
    assert(seq!['c'][0] != seq!['g'][0] && seq!['c'][0] != seq!['h'][0] && seq!['g'][0] != seq![
        'h',
    ][0]);
    assert(seq!['m', 's'].len() == 2);
    lemma_kind_is_the_end(trimmed(name), prefix, ".requests"@);
    lemma_kind_is_the_end(trimmed(name), prefix, ".request.duration"@);
    lemma_kind_is_the_end(trimmed(name), prefix, ".workers"@);
}

/// The end of a name alone decides its kind.
proof fn lemma_kind_is_the_end(name: Seq<char>, prefix: Seq<char>, kind: Seq<char>)
    ensures
        is_kind(name, prefix, kind) == kind.is_suffix_of(name),
{
    let full = prefix + kind;
    assert(full.subrange(full.len() - kind.len(), full.len() as int) =~= kind);
}

/// The rate of requests is what the last part after the type that begins with `@` says: without
/// further parts there is none, a further part with `@` gives it, and any other further part
/// changes nothing of what the line tells.
pub proof fn law_last_rate_counts(
    name: Seq<char>,
    value: Seq<char>,
    typ: Seq<char>,
    tail: Seq<char>,
    part: Seq<char>,
    prefix: Seq<char>,
)
    requires
        !name.contains(':'),
        !value.contains('|'),
        !typ.contains('|'),
        tail.len() == 0 || tail[0] == '|',
        !part.contains('|'),
    ensures
        ({
            let line = name + seq![':'] + value + seq!['|'] + typ;
            &&& parsed(line, prefix) matches Ok(MetricView::Requests { rate, .. }) ==> rate is None
            &&& part.len() > 0 && part[0] == '@' ==> (parsed(
                line + tail + seq!['|'] + part,
                prefix,
            ) matches Ok(MetricView::Requests { rate, .. }) ==> rate == Some(
                part.subrange(1, part.len() as int),
            ))
            &&& part.len() == 0 || part[0] != '@' ==> parsed(
                line + tail + seq!['|'] + part,
                prefix,
            ) == parsed(line + tail, prefix)
        }),
{
    let line = name + seq![':'] + value + seq!['|'] + typ;
    let none = Seq::<char>::empty();
    let plain = value + seq!['|'] + typ + none;
    let rest = value + seq!['|'] + typ + tail;
    let more = rest + seq!['|'] + part;
    assert(line =~= name + seq![':'] + plain);
    assert(line + tail =~= name + seq![':'] + rest);
    assert(line + tail + seq!['|'] + part =~= name + seq![':'] + more);
    lemma_line_parts(name, plain, prefix);
    lemma_line_parts(name, rest, prefix);
    lemma_line_parts(name, more, prefix);
    lemma_value_and_type(value, typ, none);
    lemma_value_and_type(value, typ, tail);
    lemma_split_more(rest, '|', part);
    let (few, many) = (split(rest, '|').skip(2), split(more, '|').skip(2));
    assert(split(plain, '|').skip(2) =~= Seq::<Seq<char>>::empty());
    assert(many =~= few.push(part));
    assert(many.drop_last() =~= few);
    assert(many.last() == part);
    if part.len() > 0 {
        assert(part.skip(1) =~= part.subrange(1, part.len() as int));
    }
}

/// A text tells what its lines tell, each for itself and in their order.
pub proof fn law_every_line_is_read(text: Seq<char>, prefix: Seq<char>)
    ensures
        parsed_lines(text, prefix).len() == lines(text).len(),
        forall|i: int|
            0 <= i < lines(text).len() ==> #[trigger] parsed_lines(text, prefix)[i] == parsed(
                lines(text)[i],
                prefix,
            ),
{
}

/// What was read is seen as it is: the kind of a metric, its value and its rate.
pub proof fn law_metrics_are_seen_as_they_are(value: String, rate: String, e: ParseError)
    ensures
        outcome(Ok(Metric::Requests { value, rate: Some(rate) })) == Ok::<MetricView, ParseError>(
            MetricView::Requests { value: value@, rate: Some(rate@) },
        ),
        outcome(Ok(Metric::Requests { value, rate: None })) == Ok::<MetricView, ParseError>(
            MetricView::Requests { value: value@, rate: None },
        ),
        outcome(Ok(Metric::Duration { value })) == Ok::<MetricView, ParseError>(
            MetricView::Duration { value: value@ },
        ),
        outcome(Ok(Metric::Workers { value })) == Ok::<MetricView, ParseError>(
            MetricView::Workers { value: value@ },
        ),
        outcome(Ok(Metric::Ignored)) == Ok::<MetricView, ParseError>(MetricView::Ignored),
        outcome(Err(e)) == Err::<MetricView, ParseError>(e),
{
}

/// Of what was read one after another, each is seen as it is.
pub proof fn law_all_outcomes_are_seen(res: Seq<Result<Metric, ParseError>>)
    ensures
        outcomes(res).len() == res.len(),
        forall|i: int| 0 <= i < res.len() ==> #[trigger] outcomes(res)[i] == outcome(res[i]),
{
}

/// What a count of requests tells in numbers: the count as it was sent, or zero where it cannot be
/// read; and the rate as it was sent, or one where there is none that can be read, or where it is
/// at most zero.
pub proof fn law_requests_in_numbers<F>(
    m: MetricView,
    value: Option<Parsed<F>>,
    rate: Option<Parsed<F>>,
    zero: F,
    one: F,
)
    requires
        m is Requests,
    ensures
        ({
            let res = reading(m, value, rate, zero, one);
            &&& res matches Some(Reading::Requests { .. })
            &&& value matches Some(v) ==> res->Some_0->Requests_count == v.value
            &&& value is None ==> res->Some_0->Requests_count == zero
            &&& rate matches Some(r) ==> res->Some_0->Requests_rate == if r.at_most_zero {
                one
            } else {
                r.value
            }
            &&& rate is None ==> res->Some_0->Requests_rate == one
        }),
{
}

/// What other metrics tell in numbers: a duration as it was sent, or zero where it cannot be read;
/// a number of workers as it was sent, where it can be read and is not negative, and otherwise
/// nothing; and what is ignored tells nothing.
pub proof fn law_other_metrics_in_numbers<F>(
    m: MetricView,
    v: Parsed<F>,
    rate: Option<Parsed<F>>,
    zero: F,
    one: F,
)
    ensures
        m is Duration ==> reading(m, Some(v), rate, zero, one) == Some(
            Reading::Duration { ms: v.value },
        ),
        m is Duration ==> reading(m, None, rate, zero, one) == Some(Reading::Duration { ms: zero }),
        m is Workers && v.at_least_zero ==> reading(m, Some(v), rate, zero, one) == Some(
            Reading::Workers { number: v.value },
        ),
        m is Workers && !v.at_least_zero ==> reading(m, Some(v), rate, zero, one) is None,
        m is Workers ==> reading(m, None, rate, zero, one) is None,
        m is Ignored ==> reading(m, Some(v), rate, zero, one) is None,
        m is Ignored ==> reading(m, None, rate, zero, one) is None,
{
}

} // verus!
