//! Text of the measured samples: raw sample files and the cells of the summary table.
use crate::text::{decimal, push_decimal, string_from_chars};
use vstd::prelude::*;

verus! {

/// A raw sample file: each duration in whole microseconds, one per line.
pub open spec fn raw_samples_text(samples: Seq<u128>) -> Seq<char>
    decreases samples.len(),
{
    if samples.len() == 0 {
        seq![]
    } else {
        raw_samples_text(samples.drop_last()) + decimal((samples.last() / 1000) as nat).push('\n')
    }
}

/// The text of a raw sample file for durations given in nanoseconds.
pub fn raw_samples(samples: &Vec<u128>) -> (r: String)
    ensures
        r@ == raw_samples_text(samples@),
{
    let mut out: Vec<char> = Vec::new();
    let mut i: usize = 0;
    while i < samples.len()
        invariant
            0 <= i <= samples.len(),
            out@ == raw_samples_text(samples@.subrange(0, i as int)),
        decreases samples.len() - i,
    {
        let ghost cur = samples@.subrange(0, i + 1);
        assert(cur.drop_last() =~= samples@.subrange(0, i as int));
        push_decimal(&mut out, samples[i] / 1000);
        out.push('\n');
        assert(out@ =~= raw_samples_text(cur));
        i = i + 1;
    }
    assert(samples@.subrange(0, samples.len() as int) =~= samples@);
    string_from_chars(&out)
}

pub open spec fn seq_sum(s: Seq<u128>) -> nat
    decreases s.len(),
{
    if s.len() == 0 {
        0
    } else {
        seq_sum(s.drop_last()) + s.last() as nat
    }
}

proof fn lemma_sum_prefix(s: Seq<u128>, i: int)
    requires
        0 <= i <= s.len(),
    ensures
        seq_sum(s.subrange(0, i)) <= seq_sum(s),
    decreases s.len() - i,
{
    if i < s.len() {
        lemma_sum_prefix(s, i + 1);
        assert(s.subrange(0, i + 1).drop_last() =~= s.subrange(0, i));
    } else {
        assert(s.subrange(0, i) =~= s);
    }
}

/// The mean of the samples, rounded down; `None` when there are none, or when their sum
/// does not fit in 128 bits.
pub fn mean_nanos(samples: &Vec<u128>) -> (r: Option<u128>)
    ensures
        r is None <==> samples@.len() == 0 || seq_sum(samples@) > u128::MAX,
        r matches Some(m) ==> m == seq_sum(samples@) / samples@.len(),
{
    if samples.len() == 0 {
        return None;
    }
    let mut acc: u128 = 0;
    let mut i: usize = 0;
    while i < samples.len()
        invariant
            0 <= i <= samples.len(),
            acc == seq_sum(samples@.subrange(0, i as int)),
        decreases samples.len() - i,
    {
        let ghost cur = samples@.subrange(0, i + 1);
        assert(cur.drop_last() =~= samples@.subrange(0, i as int));
        if samples[i] > u128::MAX - acc {
            proof {
                lemma_sum_prefix(samples@, i + 1);
            }
            return None;
        }
        acc = acc + samples[i];
        i = i + 1;
    }
    assert(samples@.subrange(0, samples.len() as int) =~= samples@);
    Some(acc / (samples.len() as u128))
}

/// One cell of the summary table: the mean duration in nanoseconds at a reached size, or
/// `>` and the threshold in nanoseconds where the size was not reached; `None` for a
/// reached size whose mean `mean_nanos` cannot give.
pub fn table_cell(reached: bool, samples: &Vec<u128>, threshold_nanos: u128) -> (r: Option<String>)
    ensures
        !reached ==> (r matches Some(t) && t@ == seq!['>'] + decimal(threshold_nanos as nat)),
        reached ==> (r is None <==> samples@.len() == 0 || seq_sum(samples@) > u128::MAX),
        reached ==> (r matches Some(t) ==> t@ == decimal(seq_sum(samples@) / samples@.len())),
{
    let mut out: Vec<char> = Vec::new();
    if !reached {
        out.push('>');
        push_decimal(&mut out, threshold_nanos);
        assert(out@ =~= seq!['>'] + decimal(threshold_nanos as nat));
        return Some(string_from_chars(&out));
    }
    match mean_nanos(samples) {
        Some(m) => {
            push_decimal(&mut out, m);
            assert(out@ =~= decimal(m as nat));
            Some(string_from_chars(&out))
        },
        None => None,
    }
}

} // verus!
