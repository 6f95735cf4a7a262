use vstd::prelude::*;

verus! {

/// A source of uniformly random indices. The allocator draws through
/// this trait so that a deterministic source can be injected for
/// testing, while production code draws from the process-wide system
/// generator.
pub trait RandomSource {
    /// One draw: an index in `[0, n)`.
    fn pick(&mut self, n: usize) -> (r: usize)
        requires
            n > 0,
        ensures
            r < n,
    ;
}

/// Relies on rand::Rng::gen_range over rand::thread_rng: a uniformly
/// random value in the half-open range `0..n`. gen_range panics only on
/// an empty range, which the precondition rules out.
#[verifier::external_body]
fn random_below(n: usize) -> (r: usize)
    requires
        n > 0,
    ensures
        r < n,
{
    rand::Rng::gen_range(&mut rand::thread_rng(), 0..n)
}

/// The unseeded process-wide generator.
pub struct SystemRng;

impl RandomSource for SystemRng {
    fn pick(&mut self, n: usize) -> (r: usize) {
        random_below(n)
    }
}

/// A deterministic source for tests: serves the given values in order,
/// each reduced modulo the requested bound, and starts over when they
/// run out. With no values at all it always picks index 0.
pub struct FixedRng {
    pub values: Vec<usize>,
    pub next: usize,
}

impl FixedRng {
    /// A fixed source that will serve `values` from the start.
    pub fn new(values: Vec<usize>) -> (r: FixedRng)
        ensures
            r.values@ == values@,
            r.next == 0,
    {
        FixedRng { values, next: 0 }
    }
}

impl RandomSource for FixedRng {
    fn pick(&mut self, n: usize) -> (r: usize) {
        if self.values.len() == 0 {
            0
        } else {
            let i = if self.next < self.values.len() {
                self.next
            } else {
                0
            };
            let v = self.values[i];
            self.next = i + 1;
            v % n
        }
    }
}

} // verus!
