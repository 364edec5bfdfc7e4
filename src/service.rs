//! The vanity pool: an authority key, a suffix, a target capacity and the
//! pairs found so far, each re-derivable from its seed.

use vstd::prelude::*;
use solana_sdk::signature::Keypair;
use solana_sdk::signer::Signer;
use crate::address::{
    derive_text, derived_text, ends_with, illegal_owner, is_vanity, key_text, lemma_token_program_legal,
    text_ends_with, token_program_bytes, token_program_id, base58_text, DerivationError, PublicKey,
};
use crate::search::{pair_view, SearchBatch};

verus! {

#[verifier::external_type_specification]
#[verifier::external_body]
pub struct ExKeypair(Keypair);

/// Relies on solana-keypair's `Keypair::new`: a fresh keypair drawn from the
/// operating system's generator.
#[verifier::external_body]
fn fresh_keypair() -> (r: Keypair) {
    Keypair::new()
}

/// Relies on `Signer::pubkey` of solana-keypair's `Keypair`: the public half
/// of the keypair, as 32 bytes.
#[verifier::external_body]
fn public_key_of(k: &Keypair) -> (r: PublicKey) {
    PublicKey { bytes: k.pubkey().to_bytes() }
}

/// What the refill loop does next.
#[derive(Clone, Copy, PartialEq, Eq, Debug, Structural)]
pub enum RefillAction {
    /// The pool is full: wait and look again.
    Idle,
    /// Search for this many more pairs.
    Search { needed: usize },
}

/// The refill decision for a pool of `size` pairs and the given capacity.
pub open spec fn refill_spec(size: nat, capacity: nat) -> RefillAction {
    if size >= capacity {
        RefillAction::Idle
    } else {
        RefillAction::Search { needed: (capacity - size) as usize }
    }
}

/// Taking one pair: the last one added leaves the pool; nothing leaves an
/// empty pool.
pub open spec fn take_spec<E>(s: Seq<E>) -> (Option<E>, Seq<E>) {
    if s.len() == 0 {
        (None, s)
    } else {
        (Some(s.last()), s.drop_last())
    }
}

/// The refill decision for a pool of `size` pairs and the given capacity.
pub fn refill_plan(size: usize, capacity: usize) -> (r: RefillAction)
    ensures
        r == refill_spec(size as nat, capacity as nat),
{
    if size >= capacity {
        RefillAction::Idle
    } else {
        RefillAction::Search { needed: capacity - size }
    }
}

/// A pool of vanity pairs `(seed, address)` for one authority key and suffix.
pub struct VanityService {
    pool: Vec<(String, String)>,
    suffix: String,
    pool_size: usize,
    authority: PublicKey,
    namespace: PublicKey,
    authority_keypair: Keypair,
}

impl VanityService {
    pub closed spec fn entries(&self) -> Seq<(Seq<char>, Seq<char>)> {
        self.pool@.map_values(|p: (String, String)| pair_view(p))
    }

    pub closed spec fn suffix(&self) -> Seq<char> {
        self.suffix@
    }

    pub closed spec fn capacity(&self) -> nat {
        self.pool_size as nat
    }

    pub closed spec fn authority(&self) -> Seq<u8> {
        self.authority.bytes@
    }

    pub closed spec fn namespace(&self) -> Seq<u8> {
        self.namespace.bytes@
    }

    /// The authority keypair, fixed when the pool is made.
    pub closed spec fn keypair(&self) -> Keypair {
        self.authority_keypair
    }

    /// Whether a pair belongs in this pool: its address is the one derived
    /// from its seed, and it ends with the suffix.
    pub open spec fn accepts(&self, p: (Seq<char>, Seq<char>)) -> bool {
        is_vanity(self.authority(), self.namespace(), self.suffix(), p.0, p.1)
    }

    /// The pool's invariant: it derives within the token program, and every
    /// pair in it is one that it accepts.
    pub open spec fn wf(&self) -> bool {
        &&& self.namespace() == token_program_bytes()
        &&& forall|i: int| 0 <= i < self.entries().len() ==> self.accepts(#[trigger] self.entries()[i])
    }

    /// An empty pool under a fresh authority key, deriving within the token
    /// program.
    pub fn new(suffix: String, pool_size: usize) -> (r: VanityService)
        ensures
            r.wf(),
            r.entries() == Seq::<(Seq<char>, Seq<char>)>::empty(),
            r.suffix() == suffix@,
            r.capacity() == pool_size,
            r.namespace() == token_program_bytes(),
            !illegal_owner(r.namespace()),
    {
        let authority_keypair = fresh_keypair();
        let authority = public_key_of(&authority_keypair);
        let namespace = token_program_id();
        proof {
            lemma_token_program_legal(namespace);
        }
        let r = VanityService { pool: Vec::new(), suffix, pool_size, authority, namespace, authority_keypair };
        assert(r.entries() =~= Seq::<(Seq<char>, Seq<char>)>::empty());
        r
    }

    /// Removes and returns one pair, or `None` when the pool is empty. A
    /// pair handed out is one that the pool accepts.
    pub fn get_next_vanity(&mut self) -> (r: Option<(String, String)>)
        requires
            old(self).wf(),
        ensures
            final(self).wf(),
            final(self).suffix() == old(self).suffix(),
            final(self).capacity() == old(self).capacity(),
            final(self).authority() == old(self).authority(),
            final(self).namespace() == old(self).namespace(),
            final(self).keypair() == old(self).keypair(),
            (match r {
                Some(p) => Some(pair_view(p)),
                None => None,
            }, final(self).entries()) == take_spec(old(self).entries()),
            r is Some ==> old(self).accepts(pair_view(r->Some_0)),
    {
        let r = self.pool.pop();
        proof {
            if old(self).entries().len() > 0 {
                assert(self.entries() =~= old(self).entries().drop_last());
            } else {
                assert(self.entries() =~= old(self).entries());
            }
            if r is Some {
                assert(pair_view(r->Some_0) == old(self).entries()[old(self).entries().len() - 1]);
            }
        }
        r
    }

    /// Number of pairs in the pool.
    pub fn pool_size(&self) -> (r: usize)
        ensures
            r == self.entries().len(),
    {
        self.pool.len()
    }

    /// The capacity the refill loop aims at.
    pub fn capacity_target(&self) -> (r: usize)
        ensures
            r == self.capacity(),
    {
        self.pool_size
    }

    /// The keypair whose public key every address is derived from.
    pub fn get_authority_keypair(&self) -> (r: &Keypair)
        ensures
            *r == self.keypair(),
    {
        &self.authority_keypair
    }

    /// The authority's public key.
    pub fn authority_public_key(&self) -> (r: PublicKey)
        ensures
            r.bytes@ == self.authority(),
    {
        self.authority
    }

    /// The namespace key that addresses are derived within.
    pub fn namespace_key(&self) -> (r: PublicKey)
        ensures
            r.bytes@ == self.namespace(),
    {
        self.namespace
    }

    /// The base58 text of the authority's public key.
    pub fn authority_text(&self) -> (r: String)
        ensures
            r@ == base58_text(self.authority()),
    {
        key_text(&self.authority)
    }

    /// What the refill loop does next for this pool.
    pub fn next_refill(&self) -> (r: RefillAction)
        ensures
            r == refill_spec(self.entries().len(), self.capacity()),
    {
        refill_plan(self.pool.len(), self.pool_size)
    }

    /// A search batch for this pool's authority, namespace and suffix.
    pub fn start_batch(&self, needed: usize, max_attempts: u64) -> (r: SearchBatch)
        ensures
            r.wf(),
            r.authority() == self.authority(),
            r.namespace() == self.namespace(),
            r.suffix() == self.suffix(),
            r.needed() == needed,
            r.max_attempts() == max_attempts,
            r.attempts() == 0,
            !r.closed(),
            r.found() == Seq::<(Seq<char>, Seq<char>)>::empty(),
    {
        SearchBatch::new(self.authority, self.namespace, self.suffix.clone(), needed, max_attempts)
    }

    /// Whether this pool accepts the pair `(seed, address)`.
    pub fn accepts_pair(&self, seed: &String, address: &String) -> (r: bool)
        ensures
            r == self.accepts((seed@, address@)),
    {
        match derive_text(&self.authority, seed.as_str(), &self.namespace) {
            Ok(t) => t == *address && text_ends_with(address.as_str(), self.suffix.as_str()),
            Err(_) => false,
        }
    }

    /// Adds the pairs of `found` that this pool accepts, in order, and drops
    /// the others.
    pub fn merge_found(&mut self, found: Vec<(String, String)>)
        requires
            old(self).wf(),
        ensures
            final(self).wf(),
            final(self).suffix() == old(self).suffix(),
            final(self).capacity() == old(self).capacity(),
            final(self).authority() == old(self).authority(),
            final(self).namespace() == old(self).namespace(),
            final(self).keypair() == old(self).keypair(),
            final(self).entries() == old(self).entries() + found@.map_values(|p: (String, String)| pair_view(p)).filter(
                |p: (Seq<char>, Seq<char>)| old(self).accepts(p),
            ),
    {
        let ghost fv = found@.map_values(|p: (String, String)| pair_view(p));
        let ghost pred = |p: (Seq<char>, Seq<char>)| old(self).accepts(p);
        let mut i: usize = 0;
        while i < found.len()
            invariant
                self.wf(),
                self.suffix() == old(self).suffix(),
                self.capacity() == old(self).capacity(),
                self.authority() == old(self).authority(),
                self.namespace() == old(self).namespace(),
                self.keypair() == old(self).keypair(),
                fv == found@.map_values(|p: (String, String)| pair_view(p)),
                pred == (|p: (Seq<char>, Seq<char>)| old(self).accepts(p)),
                i <= found.len(),
                self.entries() == old(self).entries() + fv.take(i as int).filter(pred),
            decreases found.len() - i,
        {
            let ghost before = self.entries();
            proof {
                reveal(Seq::filter);
                assert(fv.take(i + 1).drop_last() =~= fv.take(i as int));
                assert(fv.take(i + 1).last() == fv[i as int]);
                assert(fv[i as int] == pair_view(found@[i as int]));
            }
            let ok = self.accepts_pair(&found[i].0, &found[i].1);
            if ok {
                let p = (found[i].0.clone(), found[i].1.clone());
                self.pool.push(p);
                proof {
                    assert(self.entries() =~= before.push(fv[i as int]));
                    assert(fv.take(i + 1).filter(pred) == fv.take(i as int).filter(pred).push(fv[i as int]));
                }
            } else {
                proof {
                    assert(fv.take(i + 1).filter(pred) == fv.take(i as int).filter(pred));
                }
            }
            i += 1;
        }
        proof {
            assert(fv.take(found@.len() as int) =~= fv);
        }
    }
}

/// `n` takes in a row from a pool holding `s`: what each returned, and
/// what is left.
pub open spec fn drain_spec<E>(s: Seq<E>, n: nat) -> (Seq<Option<E>>, Seq<E>)
    decreases n,
{
    if n == 0 {
        (Seq::empty(), s)
    } else {
        let prev = drain_spec(s, (n - 1) as nat);
        let step = take_spec(prev.1);
        (prev.0.push(step.0), step.1)
    }
}

proof fn lemma_drain_prefix<E>(s: Seq<E>, n: nat)
    requires
        n <= s.len(),
    ensures
        drain_spec(s, n).0.len() == n,
        drain_spec(s, n).1 == s.take(s.len() - n),
        forall|i: int| 0 <= i < n ==> #[trigger] drain_spec(s, n).0[i] == Some(s[s.len() - 1 - i]),
    decreases n,
{
    if n == 0 {
        assert(s.take(s.len() as int) =~= s);
    } else {
        lemma_drain_prefix(s, (n - 1) as nat);
        let prev = drain_spec(s, (n - 1) as nat);
        assert(prev.1.len() > 0);
        assert(prev.1.drop_last() =~= s.take(s.len() - n));
        assert(prev.1.last() == s[s.len() - n]);
        assert forall|i: int| 0 <= i < n implies #[trigger] drain_spec(s, n).0[i] == Some(s[s.len() - 1 - i]) by {
            if i < n - 1 {
                assert(drain_spec(s, n).0[i] == prev.0[i]);
            }
        }
    }
}

/// Taking from a pool of `s.len()` pairs as many times as it holds pairs
/// hands out every pair exactly once (the last added first): what comes out
/// is, as a multiset, what the pool held. The pool is then empty, and the
/// next take returns nothing.
pub proof fn lemma_take_each_once<E>(s: Seq<E>)
    ensures
        drain_spec(s, s.len()).0.len() == s.len(),
        forall|i: int| 0 <= i < s.len() ==> #[trigger] drain_spec(s, s.len()).0[i] == Some(s[s.len() - 1 - i]),
        drain_spec(s, s.len()).1.len() == 0,
        take_spec(drain_spec(s, s.len()).1).0 is None,
        Seq::new(s.len(), |i: int| drain_spec(s, s.len()).0[i]->Some_0).to_multiset() == s.to_multiset(),
{
    lemma_drain_prefix(s, s.len());
    let delivered = Seq::new(s.len(), |i: int| drain_spec(s, s.len()).0[i]->Some_0);
    assert(delivered =~= s.reverse());
    s.lemma_reverse_to_multiset();
}

proof fn lemma_filter_all<E>(s: Seq<E>, pred: spec_fn(E) -> bool)
    requires
        forall|i: int| 0 <= i < s.len() ==> pred(#[trigger] s[i]),
    ensures
        s.filter(pred) == s,
    decreases s.len(),
{
    reveal(Seq::filter);
    if s.len() > 0 {
        lemma_filter_all(s.drop_last(), pred);
        assert(s.drop_last().push(s.last()) =~= s);
    }
}

/// One refill cycle: the plan for the pool when it held `planned` pairs is
/// a search for `needed` pairs, the batch hands back at most `needed` pairs
/// that the pool accepts, and by the time they are merged takes may have
/// shrunk the pool to `current`. Merging grows the pool by exactly their
/// number and never past the capacity; with no take in between, and a batch
/// that found all it was asked for, the pool reaches the capacity.
pub proof fn lemma_refill_converges(
    planned: VanityService,
    current: VanityService,
    needed: usize,
    found: Seq<(Seq<char>, Seq<char>)>,
    after: Seq<(Seq<char>, Seq<char>)>,
)
    requires
        refill_spec(planned.entries().len(), planned.capacity()) == (RefillAction::Search { needed }),
        current.entries().len() <= planned.entries().len(),
        current.authority() == planned.authority(),
        current.namespace() == planned.namespace(),
        current.suffix() == planned.suffix(),
        current.capacity() == planned.capacity(),
        found.len() <= needed,
        forall|i: int| 0 <= i < found.len() ==> planned.accepts(#[trigger] found[i]),
        after == current.entries() + found.filter(|p: (Seq<char>, Seq<char>)| current.accepts(p)),
    ensures
        after.len() == current.entries().len() + found.len(),
        current.entries().len() <= after.len(),
        after.len() <= current.capacity(),
        found.len() == needed && current.entries().len() == planned.entries().len()
            ==> after.len() == current.capacity(),
{
    assert forall|i: int| 0 <= i < found.len() implies current.accepts(#[trigger] found[i]) by {
        assert(planned.accepts(found[i]));
    }
    lemma_filter_all(found, |p: (Seq<char>, Seq<char>)| current.accepts(p));
}

/// Every pair in a well-formed pool re-derives from its seed: deriving the
/// seed under the pool's authority and namespace gives back the pair's
/// address, which ends with the pool's suffix.
pub proof fn lemma_entries_rederive(pool: VanityService, i: int)
    requires
        pool.wf(),
        0 <= i < pool.entries().len(),
    ensures
        derived_text(pool.authority(), pool.entries()[i].0, pool.namespace())
            == Ok::<Seq<char>, DerivationError>(pool.entries()[i].1),
        ends_with(pool.entries()[i].1, pool.suffix()),
{
    assert(pool.accepts(pool.entries()[i]));
}

}
