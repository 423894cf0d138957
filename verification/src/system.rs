//! What the operating system's files say: the processor quota, and Gunicorn's process number.

use vstd::prelude::*;

use crate::number::{number_within, parse_u32};
use crate::text::{
    chars_of, law_one_word, law_white_space_sets_words_apart, spells, split_words, string_of, trim,
    trimmed, views, white, words,
};

verus! {

/// The quota and the period in the content of `cpu.max`, where it limits anything: two words, of
/// which the first is not `max`.
pub open spec fn quota_in(content: Seq<char>) -> Option<(Seq<char>, Seq<char>)> {
    let parts = words(content);
    if parts.len() == 2 && parts[0] != "max"@ {
        Some((parts[0], parts[1]))
    } else {
        None
    }
}

/// A quota and a period, as they were written.
#[derive(Debug)]
pub struct CpuQuota {
    pub quota: String,
    pub period: String,
}

/// Reads the content of `cpu.max`.
pub fn read_cpu_max(content: &str) -> (res: Option<CpuQuota>)
    ensures
        match res {
            Some(q) => quota_in(content@) == Some((q.quota@, q.period@)),
            None => quota_in(content@) is None,
        },
{
    let parts = split_words(content);
    let ghost all = words(content@);
    assert(parts@.len() == views(parts@).len());
    if parts.len() == 2 {
        assert(all[0] == parts@[0]@ && all[1] == parts@[1]@);
        if !spells(chars_of(parts[0].as_str()).as_slice(), "max") {
            return Some(CpuQuota { quota: parts[0].clone(), period: parts[1].clone() });
        }
    }
    None
}

/// A number that was read, and whether it is positive. `F` is the type of the number.
pub struct Amount<F> {
    pub value: F,
    pub positive: bool,
}

/// Which quota and period give the number of processors: those of `cpu.max`, unless it limits
/// nothing or its period is not positive; then those of the files of the older version, where
/// both are positive. One that cannot be read leaves the number of processors unknown.
pub open spec fn quota_chosen<F>(
    cpu_max: Option<(Option<Amount<F>>, Option<Amount<F>>)>,
    cfs_quota: Option<Amount<F>>,
    cfs_period: Option<Amount<F>>,
) -> Option<(F, F)> {
    let older = match (cfs_quota, cfs_period) {
        (Some(q), Some(p)) => if q.positive && p.positive {
            Some((q.value, p.value))
        } else {
            None
        },
        _ => None,
    };
    match cpu_max {
        None => older,
        Some((Some(q), Some(p))) => if p.positive {
            Some((q.value, p.value))
        } else {
            older
        },
        Some(_) => None,
    }
}

/// Chooses the quota and the period whose ratio is the number of processors. `cpu_max` holds the
/// two numbers of `cpu.max`, where it limits anything, as far as they could be read.
pub fn effective_cores<F: Copy>(
    cpu_max: Option<(Option<Amount<F>>, Option<Amount<F>>)>,
    cfs_quota: Option<Amount<F>>,
    cfs_period: Option<Amount<F>>,
) -> (res: Option<(F, F)>)
    ensures
        res == quota_chosen(cpu_max, cfs_quota, cfs_period),
{
    if let Some((quota, period)) = cpu_max {
        match (quota, period) {
            (Some(q), Some(p)) => {
                if p.positive {
                    return Some((q.value, p.value));
                }
            },
            _ => {
                return None;
            },
        }
    }
    match (cfs_quota, cfs_period) {
        (Some(q), Some(p)) => {
            if q.positive && p.positive {
                Some((q.value, p.value))
            } else {
                None
            }
        },
        _ => None,
    }
}

/// Reads a process number from the content of a file.
pub fn parse_pid(content: &str) -> (res: Option<u32>)
    ensures
        match res {
            Some(pid) => number_within(trimmed(content@), 0, u32::MAX as int) == Some(pid as int),
            None => number_within(trimmed(content@), 0, u32::MAX as int) is None,
        },
{
    let owned = chars_of(content);
    parse_u32(string_of(trim(owned.as_slice())).as_str())
}

/// Two words limit the processors, unless the first is `max`: they are the quota and the period,
/// whatever white space stands around and between them.
pub proof fn law_two_words_are_quota_and_period(
    before: Seq<char>,
    quota: Seq<char>,
    between: Seq<char>,
    period: Seq<char>,
    after: Seq<char>,
)
    requires
        forall|i: int| 0 <= i < before.len() ==> white(#[trigger] before[i]),
        forall|i: int| 0 <= i < between.len() ==> white(#[trigger] between[i]),
        forall|i: int| 0 <= i < after.len() ==> white(#[trigger] after[i]),
        forall|i: int| 0 <= i < quota.len() ==> !white(#[trigger] quota[i]),
        forall|i: int| 0 <= i < period.len() ==> !white(#[trigger] period[i]),
        quota.len() > 0,
        period.len() > 0,
        between.len() > 0,
    ensures
        quota_in(before + quota + between + period + after) == if quota == "max"@ {
            None
        } else {
            Some((quota, period))
        },
{
    let content = before + quota + between + period + after;
    let tail = period + after;
    let middle = quota + between + tail;
    assert(content =~= before + middle);
    lemma_blank_in_front(before, middle);
    law_one_word(quota);
    law_one_word(period);
    let c = between[0];
    let rest = between.skip(1);
    assert forall|i: int| 0 <= i < rest.len() implies white(#[trigger] rest[i]) by {
        assert(rest[i] == between[i + 1]);
    }
    assert(middle =~= quota + seq![c] + (rest + tail));
    law_white_space_sets_words_apart(quota, c, rest + tail);
    lemma_blank_in_front(rest, tail);
    if after.len() > 0 {
        let d = after[0];
        let end = after.skip(1);
        assert forall|i: int| 0 <= i < end.len() implies white(#[trigger] end[i]) by {
            assert(end[i] == after[i + 1]);
        }
        assert(tail =~= period + seq![d] + end);
        law_white_space_sets_words_apart(period, d, end);
        lemma_blank_in_front(end, Seq::empty());
        assert(end + Seq::<char>::empty() =~= end);
        law_one_word(Seq::empty());
    } else {
        assert(tail =~= period);
    }
    assert(words(content) =~= seq![quota, period]);
}

/// White space in front of a text adds no words.
proof fn lemma_blank_in_front(blank: Seq<char>, rest: Seq<char>)
    requires
        forall|i: int| 0 <= i < blank.len() ==> white(#[trigger] blank[i]),
    ensures
        words(blank + rest) == words(rest),
    decreases blank.len(),
{
    if blank.len() > 0 {
        let less = blank.skip(1);
        assert forall|i: int| 0 <= i < less.len() implies white(#[trigger] less[i]) by {
            assert(less[i] == blank[i + 1]);
        }
        let none = Seq::<char>::empty();
        assert(blank + rest =~= none + seq![blank[0]] + (less + rest));
        law_white_space_sets_words_apart(none, blank[0], less + rest);
        law_one_word(none);
        assert(words(none) + words(less + rest) =~= words(less + rest));
        lemma_blank_in_front(less, rest);
    } else {
        assert(blank + rest =~= rest);
    }
}

/// Any other number of words limits nothing.
pub proof fn law_other_content_limits_nothing(content: Seq<char>)
    ensures
        words(content).len() != 2 ==> quota_in(content) is None,
        words(content).len() == 2 ==> (quota_in(content) is None <==> words(content)[0] == "max"@),
        quota_in(content) matches Some((q, p)) ==> words(content) == seq![q, p],
{
    if words(content).len() == 2 {
        assert(words(content) =~= seq![words(content)[0], words(content)[1]]);
    }
}

/// Where the number of processors comes from. A limit in `cpu.max` decides alone where its period
/// is positive, and where one of its numbers cannot be read: then the number is unknown. In every
/// other case the older files decide, which must both be readable and positive.
pub proof fn law_where_the_processors_come_from<F>(
    quota: Amount<F>,
    period: Amount<F>,
    maybe: Option<Amount<F>>,
    cfs_quota: Option<Amount<F>>,
    cfs_period: Option<Amount<F>>,
)
    ensures
        period.positive ==> quota_chosen(Some((Some(quota), Some(period))), cfs_quota, cfs_period)
            == Some((quota.value, period.value)),
        !period.positive ==> quota_chosen(Some((Some(quota), Some(period))), cfs_quota, cfs_period)
            == quota_chosen(None, cfs_quota, cfs_period),
        quota_chosen(Some((None, maybe)), cfs_quota, cfs_period) is None,
        quota_chosen(Some((maybe, None)), cfs_quota, cfs_period) is None,
        quota.positive && period.positive ==> quota_chosen(None, Some(quota), Some(period)) == Some(
            (quota.value, period.value),
        ),
        !quota.positive || !period.positive ==> quota_chosen(None, Some(quota), Some(period))
            is None,
        quota_chosen(None, None::<Amount<F>>, maybe) is None,
        quota_chosen(None, maybe, None::<Amount<F>>) is None,
{
}

} // verus!
