//! One batch of the brute-force search for seeds whose derived address ends
//! with a suffix.

use vstd::prelude::*;
use rand::distr::{Alphanumeric, SampleString};
use crate::address::{
    derive_text, derived_text, ends_with, is_alphanumeric, is_vanity, text_ends_with, valid_seed,
    PublicKey, SEED_LEN,
};

verus! {

/// The view of a `(seed, address)` pair.
pub open spec fn pair_view(p: (String, String)) -> (Seq<char>, Seq<char>) {
    (p.0@, p.1@)
}

/// The pairs found after trying `seed`: the pair of `seed` and its address
/// is added when derivation succeeds and the address ends with `suffix`.
pub open spec fn step_found(
    authority: Seq<u8>,
    namespace: Seq<u8>,
    suffix: Seq<char>,
    found: Seq<(Seq<char>, Seq<char>)>,
    seed: Seq<char>,
) -> Seq<(Seq<char>, Seq<char>)> {
    match derived_text(authority, seed, namespace) {
        Ok(t) => if ends_with(t, suffix) {
            found.push((seed, t))
        } else {
            found
        },
        Err(_) => found,
    }
}

/// The pairs found after trying each of `seeds` in turn.
pub open spec fn tried(
    authority: Seq<u8>,
    namespace: Seq<u8>,
    suffix: Seq<char>,
    found: Seq<(Seq<char>, Seq<char>)>,
    seeds: Seq<Seq<char>>,
) -> Seq<(Seq<char>, Seq<char>)>
    decreases seeds.len(),
{
    if seeds.len() == 0 {
        found
    } else {
        step_found(authority, namespace, suffix, tried(authority, namespace, suffix, found, seeds.drop_last()), seeds.last())
    }
}

/// Relies on rand's `Alphanumeric::sample_string` on the thread-local
/// generator: `len` characters, each an ASCII letter or digit.
#[verifier::external_body]
fn random_seed(len: usize) -> (r: String)
    ensures
        r@.len() == len,
        forall|i: int| 0 <= i < r@.len() ==> is_alphanumeric(#[trigger] r@[i]),
{
    Alphanumeric.sample_string(&mut rand::rng(), len)
}

/// A search for up to `needed` seeds, bounded by an attempt ceiling.
///
/// Every pair it has found derives, under its authority and namespace, an
/// address that ends with its suffix. Once closed it makes no more attempts.
pub struct SearchBatch {
    authority: PublicKey,
    namespace: PublicKey,
    suffix: String,
    needed: usize,
    max_attempts: u64,
    attempts: u64,
    closed: bool,
    found: Vec<(String, String)>,
}

impl SearchBatch {
    pub closed spec fn authority(&self) -> Seq<u8> {
        self.authority.bytes@
    }

    pub closed spec fn namespace(&self) -> Seq<u8> {
        self.namespace.bytes@
    }

    pub closed spec fn suffix(&self) -> Seq<char> {
        self.suffix@
    }

    pub closed spec fn needed(&self) -> nat {
        self.needed as nat
    }

    pub closed spec fn max_attempts(&self) -> nat {
        self.max_attempts as nat
    }

    pub closed spec fn attempts(&self) -> nat {
        self.attempts as nat
    }

    pub closed spec fn closed(&self) -> bool {
        self.closed
    }

    /// The pairs found so far, in the order found.
    pub closed spec fn found(&self) -> Seq<(Seq<char>, Seq<char>)> {
        self.found@.map_values(|p: (String, String)| pair_view(p))
    }

    /// The batch's invariant: at most `needed` pairs, each a vanity pair of
    /// the batch, and no more attempts than the ceiling.
    pub open spec fn wf(&self) -> bool {
        &&& self.found().len() <= self.needed()
        &&& self.attempts() <= self.max_attempts()
        &&& forall|i: int| 0 <= i < self.found().len() ==> is_vanity(
            self.authority(),
            self.namespace(),
            self.suffix(),
            #[trigger] self.found()[i].0,
            self.found()[i].1,
        )
    }

    /// The batch makes no more attempts.
    pub open spec fn done(&self) -> bool {
        self.closed() || self.found().len() >= self.needed() || self.attempts() >= self.max_attempts()
    }

    /// A batch that has found nothing and made no attempt.
    pub fn new(authority: PublicKey, namespace: PublicKey, suffix: String, needed: usize, max_attempts: u64) -> (r: SearchBatch)
        ensures
            r.wf(),
            r.authority() == authority.bytes@,
            r.namespace() == namespace.bytes@,
            r.suffix() == suffix@,
            r.needed() == needed,
            r.max_attempts() == max_attempts,
            r.attempts() == 0,
            !r.closed(),
            r.found() == Seq::<(Seq<char>, Seq<char>)>::empty(),
    {
        let r = SearchBatch {
            authority,
            namespace,
            suffix,
            needed,
            max_attempts,
            attempts: 0,
            closed: false,
            found: Vec::new(),
        };
        assert(r.found() =~= Seq::<(Seq<char>, Seq<char>)>::empty());
        r
    }

    /// Whether the batch makes no more attempts.
    pub fn is_done(&self) -> (r: bool)
        ensures
            r == self.done(),
    {
        self.closed || self.found.len() >= self.needed || self.attempts >= self.max_attempts
    }

    /// Number of pairs found so far.
    pub fn found_count(&self) -> (r: usize)
        ensures
            r == self.found().len(),
    {
        self.found.len()
    }

    /// Tries one seed. Once the batch is done nothing changes. Otherwise the
    /// attempt is counted, and the pair of `seed` and its address is added
    /// when derivation succeeds and the address ends with the suffix.
    pub fn try_seed(&mut self, seed: String)
        requires
            old(self).wf(),
        ensures
            final(self).wf(),
            final(self).authority() == old(self).authority(),
            final(self).namespace() == old(self).namespace(),
            final(self).suffix() == old(self).suffix(),
            final(self).needed() == old(self).needed(),
            final(self).max_attempts() == old(self).max_attempts(),
            final(self).closed() == old(self).closed(),
            old(self).done() ==> final(self).attempts() == old(self).attempts()
                && final(self).found() == old(self).found(),
            !old(self).done() ==> final(self).attempts() == old(self).attempts() + 1,
            !old(self).done() ==> final(self).found() == step_found(
                old(self).authority(),
                old(self).namespace(),
                old(self).suffix(),
                old(self).found(),
                seed@,
            ),
    {
        if self.is_done() {
            return;
        }
        self.attempts = self.attempts + 1;
        match derive_text(&self.authority, seed.as_str(), &self.namespace) {
            Ok(t) => {
                if text_ends_with(t.as_str(), self.suffix.as_str()) {
                    self.found.push((seed, t));
                    assert(self.found() =~= old(self).found().push((seed@, t@)));
                }
            },
            Err(_) => {},
        }
    }

    /// Draws one random seed and tries it.
    pub fn attempt(&mut self)
        requires
            old(self).wf(),
        ensures
            final(self).wf(),
            final(self).authority() == old(self).authority(),
            final(self).namespace() == old(self).namespace(),
            final(self).suffix() == old(self).suffix(),
            final(self).needed() == old(self).needed(),
            final(self).max_attempts() == old(self).max_attempts(),
            final(self).closed() == old(self).closed(),
            old(self).done() ==> final(self).attempts() == old(self).attempts()
                && final(self).found() == old(self).found(),
            !old(self).done() ==> final(self).attempts() == old(self).attempts() + 1,
            !old(self).done() ==> exists|s: Seq<char>|
                valid_seed(s) && final(self).found() == #[trigger] step_found(
                    old(self).authority(),
                    old(self).namespace(),
                    old(self).suffix(),
                    old(self).found(),
                    s,
                ),
            old(self).found().is_prefix_of(final(self).found()),
            final(self).found().len() <= old(self).found().len() + 1,
    {
        let seed = random_seed(SEED_LEN);
        let ghost s = seed@;
        self.try_seed(seed);
        proof {
            if !old(self).done() {
                assert(valid_seed(s));
                assert(self.found() == step_found(
                    old(self).authority(),
                    old(self).namespace(),
                    old(self).suffix(),
                    old(self).found(),
                    s,
                ));
            }
        }
    }

    /// Closes the batch and hands out what it found, in the order found.
    /// Every pair handed out is a vanity pair of the batch, and there are at
    /// most `needed` of them.
    pub fn take_found(&mut self) -> (r: Vec<(String, String)>)
        requires
            old(self).wf(),
        ensures
            final(self).wf(),
            final(self).authority() == old(self).authority(),
            final(self).namespace() == old(self).namespace(),
            final(self).suffix() == old(self).suffix(),
            final(self).needed() == old(self).needed(),
            final(self).max_attempts() == old(self).max_attempts(),
            final(self).attempts() == old(self).attempts(),
            final(self).closed(),
            final(self).found() == Seq::<(Seq<char>, Seq<char>)>::empty(),
            r@.map_values(|p: (String, String)| pair_view(p)) == old(self).found(),
            r@.len() <= old(self).needed(),
            forall|i: int| 0 <= i < r@.len() ==> is_vanity(
                old(self).authority(),
                old(self).namespace(),
                old(self).suffix(),
                #[trigger] r@[i].0@,
                r@[i].1@,
            ),
    {
        let mut r: Vec<(String, String)> = Vec::new();
        std::mem::swap(&mut r, &mut self.found);
        self.closed = true;
        assert(self.found() =~= Seq::<(Seq<char>, Seq<char>)>::empty());
        assert forall|i: int| 0 <= i < r@.len() implies is_vanity(
            old(self).authority(),
            old(self).namespace(),
            old(self).suffix(),
            #[trigger] r@[i].0@,
            r@[i].1@,
        ) by {
            assert(old(self).found()[i] == pair_view(r@[i]));
            assert(is_vanity(
                old(self).authority(),
                old(self).namespace(),
                old(self).suffix(),
                old(self).found()[i].0,
                old(self).found()[i].1,
            ));
        }
        r
    }

    /// Makes up to `steps` attempts, stopping early once the batch is done.
    /// Each attempt tries a freshly drawn valid seed.
    pub fn run(&mut self, steps: u64)
        requires
            old(self).wf(),
        ensures
            final(self).wf(),
            final(self).authority() == old(self).authority(),
            final(self).namespace() == old(self).namespace(),
            final(self).suffix() == old(self).suffix(),
            final(self).needed() == old(self).needed(),
            final(self).max_attempts() == old(self).max_attempts(),
            final(self).closed() == old(self).closed(),
            old(self).found().is_prefix_of(final(self).found()),
            final(self).attempts() <= old(self).attempts() + steps,
            final(self).done() || final(self).attempts() == old(self).attempts() + steps,
            exists|ss: Seq<Seq<char>>|
                ss.len() == final(self).attempts() - old(self).attempts()
                && (forall|k: int| 0 <= k < ss.len() ==> valid_seed(#[trigger] ss[k]))
                && final(self).found() == #[trigger] tried(
                    old(self).authority(),
                    old(self).namespace(),
                    old(self).suffix(),
                    old(self).found(),
                    ss,
                ),
    {
        let mut i: u64 = 0;
        let ghost mut ss: Seq<Seq<char>> = Seq::empty();
        while i < steps && !self.is_done()
            invariant
                ss.len() == i,
                forall|k: int| 0 <= k < ss.len() ==> valid_seed(#[trigger] ss[k]),
                self.found() == tried(
                    old(self).authority(),
                    old(self).namespace(),
                    old(self).suffix(),
                    old(self).found(),
                    ss,
                ),
                self.wf(),
                self.authority() == old(self).authority(),
                self.namespace() == old(self).namespace(),
                self.suffix() == old(self).suffix(),
                self.needed() == old(self).needed(),
                self.max_attempts() == old(self).max_attempts(),
                self.closed() == old(self).closed(),
                old(self).found().is_prefix_of(self.found()),
                i <= steps,
                self.attempts() == old(self).attempts() + i,
            decreases steps - i,
        {
            let ghost before = self.found();
            self.attempt();
            proof {
                let s = choose|s: Seq<char>|
                    valid_seed(s) && self.found() == #[trigger] step_found(
                        old(self).authority(),
                        old(self).namespace(),
                        old(self).suffix(),
                        before,
                        s,
                    );
                assert(ss.push(s).drop_last() =~= ss);
                ss = ss.push(s);
                assert(old(self).found().is_prefix_of(self.found())) by {
                    assert forall|j: int| 0 <= j < old(self).found().len() implies
                        old(self).found()[j] == self.found()[j] by {
                        assert(before[j] == self.found()[j]);
                    }
                }
            }
            i = i + 1;
        }
        proof {
            assert(ss.len() == self.attempts() - old(self).attempts());
            assert(self.found() == tried(
                old(self).authority(),
                old(self).namespace(),
                old(self).suffix(),
                old(self).found(),
                ss,
            ));
        }
    }
}

}
