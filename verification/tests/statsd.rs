use gunicorn_autoscaler::statsd::{
    parse_packet, parse_statsd_line, parse_text, Metric, ParseError, Parsed, Reading,
};

/// A metric as a short text.
fn shown(res: &Result<Metric, ParseError>) -> String {
    match res {
        Ok(Metric::Requests { value, rate: None }) => format!("requests {value}"),
        Ok(Metric::Requests { value, rate: Some(r) }) => format!("requests {value} at {r}"),
        Ok(Metric::Duration { value }) => format!("duration {value}"),
        Ok(Metric::Workers { value }) => format!("workers {value}"),
        Ok(Metric::Ignored) => "ignored".to_string(),
        Err(e) => format!("{e:?}"),
    }
}

fn line(text: &str) -> String {
    shown(&parse_statsd_line(text, "gunicorn"))
}

#[test]
fn documented_lines_are_understood() {
    assert_eq!(line("gunicorn.requests:1|c"), "requests 1");
    assert_eq!(line("gunicorn.requests:1|c|@0.5"), "requests 1 at 0.5");
    assert_eq!(line("gunicorn.request.duration:123|ms"), "duration 123");
    assert_eq!(line("gunicorn.workers:4|g"), "workers 4");
}

#[test]
fn durations_may_be_histograms() {
    assert_eq!(line("gunicorn.request.duration:1.5|h"), "duration 1.5");
}

#[test]
fn kind_and_type_must_match() {
    assert_eq!(line("gunicorn.requests:1|g"), "ignored");
    assert_eq!(line("gunicorn.request.duration:1|c"), "ignored");
    assert_eq!(line("gunicorn.workers:1|c"), "ignored");
    assert_eq!(line("gunicorn.log.info:1|c"), "ignored");
    assert_eq!(line("requests:1|c"), "ignored");
    assert_eq!(line("gunicorn.requests:1|C"), "ignored");
    assert_eq!(line("gunicorn.requests:1|c "), "ignored");
}

#[test]
fn prefix_decides_nothing() {
    for prefix in ["gunicorn", "", "other", "gunicorn.requests"] {
        let res = parse_statsd_line("web.requests:2|c", prefix);
        assert_eq!(shown(&res), "requests 2");
        assert_eq!(shown(&parse_statsd_line("requests:2|c", prefix)), "ignored");
    }
}

#[test]
fn broken_lines_are_refused() {
    assert_eq!(line("gunicorn.requests"), "NoColon");
    assert_eq!(line(""), "NoColon");
    assert_eq!(line("gunicorn.requests:1"), "NoType");
    assert_eq!(line("gunicorn.requests:"), "NoType");
    assert_eq!(line("gunicorn.requests:|"), "ignored");
}

#[test]
fn the_last_rate_counts() {
    assert_eq!(line("a.requests:1|c|@0.5|@0.25"), "requests 1 at 0.25");
    assert_eq!(line("a.requests:1|c|@0.5|#tag"), "requests 1 at 0.5");
    assert_eq!(line("a.requests:1|c|#tag"), "requests 1");
    assert_eq!(line("a.requests:1|c|@"), "requests 1 at ");
    assert_eq!(line("a.requests:@9|c"), "requests @9");
}

#[test]
fn names_are_trimmed_and_values_are_not() {
    assert_eq!(line(" \ta.requests :  7 |c"), "requests   7 ");
    assert_eq!(line("a.requests:1:2|c"), "requests 1:2");
}

#[test]
fn each_line_of_a_text_stands_alone() {
    let res = parse_text("a.requests:1|c\r\nbroken\n\na.workers:3|g\r", "a");
    let got: Vec<String> = res.iter().map(shown).collect();
    assert_eq!(got, vec!["requests 1", "NoColon", "NoColon", "ignored"]);
    assert!(parse_text("", "a").is_empty());
    assert_eq!(parse_text("\n", "a").len(), 1);
    assert_eq!(parse_text("a.workers:3|g\n", "a").len(), 1);
}

#[test]
fn lines_are_those_of_the_standard_library() {
    for text in ["", "\n", "a", "a\n", "a\r\n", "a\r", "\r\n\r", "a\n\nb", "\r\r\n", "x\u{85}y\n"] {
        assert_eq!(parse_text(text, "p").len(), text.lines().count(), "{text:?}");
    }
}

#[test]
fn packets_need_not_be_utf8() {
    let res = parse_packet(b"gunicorn.requests:1|c\n\xff\xfe.workers:2|g", "gunicorn");
    let got: Vec<String> = res.iter().map(shown).collect();
    assert_eq!(got, vec!["requests 1", "workers 2"]);
    let res = parse_packet("a.requests:é|c".as_bytes(), "a");
    assert_eq!(shown(&res[0]), "requests é");
    let res = parse_packet(b"a.requests:\xff|c", "a");
    assert_eq!(shown(&res[0]), "requests \u{fffd}");
}

fn number(value: f64) -> Option<Parsed<f64>> {
    Some(Parsed { value, at_least_zero: value >= 0.0, at_most_zero: value <= 0.0 })
}

fn metric(text: &str) -> Metric {
    parse_statsd_line(text, "gunicorn").unwrap()
}

#[test]
fn counts_come_with_a_usable_rate() {
    let m = metric("gunicorn.requests:3|c|@0.5");
    let told = |value, rate| m.read(value, rate, 0.0, 1.0);
    let want = |count, rate| Some(Reading::Requests { count, rate });
    assert_eq!(told(number(3.0), number(0.5)), want(3.0, 0.5));
    assert_eq!(told(number(3.0), number(0.0)), want(3.0, 1.0));
    assert_eq!(told(number(3.0), number(-2.0)), want(3.0, 1.0));
    assert_eq!(told(number(-3.0), None), want(-3.0, 1.0));
    assert_eq!(told(None, number(0.5)), want(0.0, 0.5));
    match told(number(3.0), number(f64::NAN)) {
        Some(Reading::Requests { count, rate }) => assert!(count == 3.0 && rate.is_nan()),
        _ => panic!("no requests"),
    }
}

#[test]
fn durations_that_cannot_be_read_are_zero() {
    let m = metric("gunicorn.request.duration:3|ms");
    assert_eq!(m.read(number(3.5), None, 0.0, 1.0), Some(Reading::Duration { ms: 3.5 }));
    assert_eq!(m.read(number(-3.5), None, 0.0, 1.0), Some(Reading::Duration { ms: -3.5 }));
    assert_eq!(m.read(None, None, 0.0, 1.0), Some(Reading::Duration { ms: 0.0 }));
}

#[test]
fn workers_must_not_be_negative() {
    let m = metric("gunicorn.workers:3|g");
    assert_eq!(m.read(number(3.0), None, 0.0, 1.0), Some(Reading::Workers { number: 3.0 }));
    assert_eq!(m.read(number(0.0), None, 0.0, 1.0), Some(Reading::Workers { number: 0.0 }));
    assert_eq!(m.read(number(-1.0), None, 0.0, 1.0), None);
    assert_eq!(m.read(number(f64::NAN), None, 0.0, 1.0), None);
    assert_eq!(m.read(None, None, 0.0, 1.0), None);
    assert_eq!(metric("gunicorn.log:3|g").read(number(3.0), None, 0.0, 1.0), None);
}
