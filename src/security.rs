use vstd::prelude::*;
use crate::errors::Error;

verus! {

/// The longest a guarded operation may take, in seconds.
pub const MAX_GUARDED_SECONDS: u64 = 5;

/// Checks how long the guarded operation `name` took: more than
/// `MAX_GUARDED_SECONDS` seconds counts as tampering (a debugger or a frozen
/// process), reported with the name and the seconds.
pub fn check_tampering(name: String, elapsed_secs: u64) -> (r: Result<(), Error>)
    ensures
        elapsed_secs > MAX_GUARDED_SECONDS ==> r == Err::<(), Error>(
            Error::TimedExecutionTamperingError(name, elapsed_secs),
        ),
        elapsed_secs <= MAX_GUARDED_SECONDS ==> r == Ok::<(), Error>(()),
{
    if elapsed_secs > MAX_GUARDED_SECONDS {
        Err(Error::TimedExecutionTamperingError(name, elapsed_secs))
    } else {
        Ok(())
    }
}

/// The samples, summed.
pub open spec fn sum_samples(s: Seq<u64>) -> nat
    decreases s.len(),
{
    if s.len() == 0 {
        0
    } else {
        sum_samples(s.drop_last()) + s.last() as nat
    }
}

/// The average of the timing samples (rounded down), or 0 for none: the
/// baseline of the execution-timing detector.
pub fn average_duration(samples: &Vec<u64>) -> (r: u64)
    requires
        samples@.len() <= u64::MAX,
    ensures
        samples@.len() == 0 ==> r == 0,
        samples@.len() > 0 ==> r == sum_samples(samples@) / (samples@.len() as nat),
{
    let mut sum: u128 = 0;
    let mut i: usize = 0;
    assert(samples@.subrange(0, 0) =~= Seq::<u64>::empty());
    while i < samples.len()
        invariant
            i <= samples@.len(),
            sum == sum_samples(samples@.subrange(0, i as int)),
            sum <= i * u64::MAX,
        decreases samples@.len() - i,
    {
        proof {
            assert(samples@.subrange(0, i + 1).drop_last() =~= samples@.subrange(0, i as int));
            assert(i * u64::MAX + u64::MAX == (i + 1) * u64::MAX) by (nonlinear_arith);
            assert((i + 1) * u64::MAX <= u64::MAX * u64::MAX) by (nonlinear_arith)
                requires i + 1 <= u64::MAX;
        }
        sum = sum + samples[i] as u128;
        i = i + 1;
    }
    assert(samples@.subrange(0, i as int) =~= samples@);
    if samples.len() == 0 {
        return 0;
    }
    let avg = sum / (samples.len() as u128);
    proof {
        assert(avg <= sum);
        assert(sum <= samples@.len() * u64::MAX);
        let n = samples@.len() as int;
        vstd::arithmetic::div_mod::lemma_div_is_ordered(sum as int, n * u64::MAX, n);
        vstd::arithmetic::div_mod::lemma_div_multiples_vanish(u64::MAX as int, n);
        assert(n * (u64::MAX as int) == (u64::MAX as int) * n) by (nonlinear_arith);
    }
    avg as u64
}

/// Whether a measured duration exceeds the baseline: the heuristic of the
/// execution-timing detector.
pub fn execution_tampered(elapsed: u64, baseline: u64) -> (r: bool)
    ensures
        r == (elapsed > baseline),
{
    elapsed > baseline
}

} // verus!
