use crate::trace::optimised::backtrace::BacktraceID;
use crate::trace::optimised::sample::Sample;
use crate::trace::optimised::trace::Trace;
use std::collections::HashMap;
use vstd::prelude::*;

verus! {

/// The number of samples that name the backtrace `id`.
pub open spec fn occurrences(samples: Seq<Sample>, id: BacktraceID) -> nat {
    samples.filter(|sample: Sample| sample.backtrace == id).len()
}

/// The frequency of each backtrace among `samples`: a backtrace that some
/// sample names is mapped, under the number of its identifier, to the number
/// of samples that name it; no other backtrace has an entry.
pub open spec fn histogram(samples: Seq<Sample>) -> Map<u64, usize> {
    Map::new(
        |id: u64| occurrences(samples, BacktraceID(id)) > 0,
        |id: u64| occurrences(samples, BacktraceID(id)) as usize,
    )
}

/// The sum of the counts of a finite frequency map.
pub open spec fn sum_of_counts(counts: Map<u64, usize>) -> nat
    decreases counts.dom().len(),
    when counts.dom().finite()
{
    if counts.dom().len() == 0 {
        0
    } else {
        let id = counts.dom().choose();
        counts[id] as nat + sum_of_counts(counts.remove(id))
    }
}

/// The samples that do not name the backtrace `id`.
pub open spec fn without(samples: Seq<Sample>, id: BacktraceID) -> Seq<Sample> {
    samples.filter(|sample: Sample| sample.backtrace != id)
}

/// One more sample counts once, for the backtrace it names.
pub proof fn lemma_occurrences_push(samples: Seq<Sample>, sample: Sample, id: BacktraceID)
    ensures
        occurrences(samples.push(sample), id) == occurrences(samples, id) + if sample.backtrace
            == id {
            1nat
        } else {
            0nat
        },
        occurrences(samples, id) <= samples.len(),
{
    let names = |sample: Sample| sample.backtrace == id;
    samples.lemma_filter_push(sample, names);
    samples.lemma_filter_len(names);
}

/// A backtrace has an entry in the histogram exactly when a sample names it.
pub proof fn lemma_histogram_keys(samples: Seq<Sample>, id: BacktraceID)
    ensures
        histogram(samples).contains_key(id.0) <==> exists|i: int|
            0 <= i < samples.len() && (#[trigger] samples[i]).backtrace == id,
    decreases samples.len(),
{
    if samples.len() > 0 {
        let front = samples.drop_last();
        assert(front.push(samples.last()) =~= samples);
        lemma_occurrences_push(front, samples.last(), id);
        lemma_histogram_keys(front, id);
        if histogram(front).contains_key(id.0) {
            let i = choose|i: int| 0 <= i < front.len() && (#[trigger] front[i]).backtrace == id;
            assert(samples[i].backtrace == id);
        }
        if exists|i: int| 0 <= i < samples.len() && (#[trigger] samples[i]).backtrace == id {
            let i = choose|i: int|
                0 <= i < samples.len() && (#[trigger] samples[i]).backtrace == id;
            if i < front.len() {
                assert(front[i].backtrace == id);
            }
        }
    } else {
        reveal(Seq::filter);
    }
}

/// The histogram of one more sample: the count of the backtrace it names
/// goes up by one, and every other entry stays.
pub proof fn lemma_histogram_push(samples: Seq<Sample>, sample: Sample)
    requires
        samples.len() < usize::MAX,
    ensures
        histogram(samples.push(sample)) == histogram(samples).insert(
            sample.backtrace.0,
            (occurrences(samples, sample.backtrace) + 1) as usize,
        ),
{
    let longer = histogram(samples.push(sample));
    let expected = histogram(samples).insert(
        sample.backtrace.0,
        (occurrences(samples, sample.backtrace) + 1) as usize,
    );
    assert forall|id: u64| #[trigger]
        longer.contains_key(id) == expected.contains_key(id) && (longer.contains_key(id)
            ==> longer[id] == expected[id]) by {
        lemma_occurrences_push(samples, sample, BacktraceID(id));
    }
    assert(longer =~= expected);
}

/// Counts how many samples of an optimised trace name each backtrace.
///
/// The result has one entry for each backtrace that a sample names, under
/// the number of its identifier, and none for a backtrace that no sample
/// names. The counts add up to the number of samples.
pub fn backtrace_by_frequency(optimised_trace: &Trace) -> (frequencies: HashMap<u64, usize>)
    ensures
        frequencies@ == histogram(optimised_trace.samples@),
        sum_of_counts(frequencies@) == optimised_trace.samples@.len(),
{
    let mut frequencies = HashMap::<u64, usize>::new();
    let ghost samples = optimised_trace.samples@;
    let mut i: usize = 0;
    proof {
        reveal(Seq::filter);
        assert(frequencies@ =~= histogram(samples.take(0)));
    }
    while i < optimised_trace.samples.len()
        invariant
            i <= samples.len(),
            samples == optimised_trace.samples@,
            frequencies@ == histogram(samples.take(i as int)),
        decreases samples.len() - i,
    {
        let id: u64 = optimised_trace.samples[i].backtrace.0;
        let count: usize = match frequencies.get(&id) {
            Some(count) => *count,
            None => 0,
        };
        proof {
            let sample = samples[i as int];
            assert(samples.take(i + 1) =~= samples.take(i as int).push(sample));
            lemma_occurrences_push(samples.take(i as int), sample, sample.backtrace);
            lemma_histogram_push(samples.take(i as int), sample);
        }
        frequencies.insert(id, count + 1);
        i = i + 1;
    }
    proof {
        assert(samples.take(i as int) =~= samples);
        lemma_counts_are_conserved(samples);
    }
    frequencies
}

/// Leaving out the samples of one backtrace leaves none of its own and all
/// of every other, and the samples left out are as many as it had.
pub proof fn lemma_occurrences_without(samples: Seq<Sample>, id: BacktraceID, other: BacktraceID)
    ensures
        occurrences(without(samples, id), other) == if other == id {
            0
        } else {
            occurrences(samples, other)
        },
        without(samples, id).len() + occurrences(samples, id) == samples.len(),
    decreases samples.len(),
{
    if samples.len() == 0 {
        reveal(Seq::filter);
    } else {
        let front = samples.drop_last();
        let last = samples.last();
        assert(front.push(last) =~= samples);
        lemma_occurrences_without(front, id, other);
        front.lemma_filter_push(last, |sample: Sample| sample.backtrace != id);
        lemma_occurrences_push(front, last, id);
        lemma_occurrences_push(front, last, other);
        lemma_occurrences_push(without(front, id), last, other);
    }
}

/// Leaving out the samples of one backtrace takes its entry out of the
/// histogram and changes no other.
pub proof fn lemma_histogram_without(samples: Seq<Sample>, id: BacktraceID)
    ensures
        histogram(without(samples, id)) == histogram(samples).remove(id.0),
{
    let left = histogram(without(samples, id));
    let right = histogram(samples).remove(id.0);
    assert forall|other: u64| #[trigger]
        left.contains_key(other) == right.contains_key(other) && (left.contains_key(other)
            ==> left[other] == right[other]) by {
        lemma_occurrences_without(samples, id, BacktraceID(other));
    }
    assert(left =~= right);
}

/// The histogram of finitely many samples has finitely many entries.
pub proof fn lemma_histogram_is_finite(samples: Seq<Sample>)
    ensures
        histogram(samples).dom().finite(),
{
    let ids = samples.map_values(|sample: Sample| sample.backtrace.0).to_set();
    vstd::seq_lib::seq_to_set_is_finite(samples.map_values(|sample: Sample| sample.backtrace.0));
    assert forall|id: u64| histogram(samples).dom().contains(id) implies ids.contains(id) by {
        lemma_histogram_keys(samples, BacktraceID(id));
        let i = choose|i: int|
            0 <= i < samples.len() && (#[trigger] samples[i]).backtrace == BacktraceID(id);
        assert(samples.map_values(|sample: Sample| sample.backtrace.0)[i] == id);
    }
    vstd::set_lib::lemma_len_subset(histogram(samples).dom(), ids);
}

/// Counts are conserved: the counts of the histogram add up to the number of
/// samples.
pub proof fn lemma_counts_are_conserved(samples: Seq<Sample>)
    requires
        samples.len() <= usize::MAX,
    ensures
        sum_of_counts(histogram(samples)) == samples.len(),
    decreases histogram(samples).dom().len(),
{
    let counts = histogram(samples);
    lemma_histogram_is_finite(samples);
    if counts.dom().len() == 0 {
        if samples.len() > 0 {
            lemma_histogram_keys(samples, samples[0].backtrace);
            assert(counts.dom().contains(samples[0].backtrace.0));
        }
    } else {
        let id = counts.dom().choose();
        let rest = without(samples, BacktraceID(id));
        lemma_histogram_without(samples, BacktraceID(id));
        lemma_occurrences_without(samples, BacktraceID(id), BacktraceID(id));
        lemma_occurrences_push(samples, samples[0], BacktraceID(id));
        lemma_counts_are_conserved(rest);
    }
}

} // verus!
