//! An emitter of choices that shuffles its order internally afterwards.
//!
//! A [`Dispenser`] owns a permutation of the indices `[0, n)` together with a
//! random source. Every hand it mints freezes the permutation as it stands and
//! reshuffles the internal one for the next mint, so hands are independent of
//! the dispenser's later state. A [`Hand`] pairs one frozen permutation with a
//! borrowed deck of elements and resolves logical positions through it.
use vstd::prelude::*;

verus! {

/// The identity permutation `0, 1, ..., n-1`.
pub open spec fn identity_seq(n: nat) -> Seq<usize> {
    Seq::new(n, |i: int| i as usize)
}

/// `s` holds each index of `[0, n)` exactly once: it has the same multiset of
/// values as the identity permutation of length `n`.
pub open spec fn is_permutation_of(s: Seq<usize>, n: nat) -> bool {
    s.to_multiset() == identity_seq(n).to_multiset()
}

/// Each value occurs in the identity permutation of length `n` exactly once
/// when it is below `n`, and not at all otherwise.
proof fn lemma_identity_seq_count(n: nat, v: usize)
    requires
        n <= usize::MAX,
    ensures
        identity_seq(n).to_multiset().count(v) == if (v as nat) < n {
            1nat
        } else {
            0nat
        },
    decreases n,
{
    broadcast use vstd::seq_lib::group_to_multiset_ensures;
    broadcast use vstd::multiset::group_multiset_axioms;

    if n == 0 {
        assert(identity_seq(0) =~= Seq::<usize>::empty());
    } else {
        let m = (n - 1) as nat;
        lemma_identity_seq_count(m, v);
        assert(identity_seq(n) =~= identity_seq(m).push(m as usize));
    }
}

/// The permutation invariant spelled out: a sequence with the same multiset of
/// values as the identity permutation of `[0, n)` has length `n`, stays within
/// `[0, n)`, repeats no value, and omits none.
pub proof fn lemma_permutation_properties(s: Seq<usize>, n: nat)
    requires
        is_permutation_of(s, n),
        n <= usize::MAX,
    ensures
        s.len() == n,
        forall|i: int| 0 <= i < s.len() ==> (#[trigger] s[i] as nat) < n,
        forall|i: int, j: int|
            0 <= i < s.len() && 0 <= j < s.len() && i != j ==> s[i] != s[j],
        forall|v: usize| (v as nat) < n ==> s.contains(v),
{
    broadcast use vstd::seq_lib::group_to_multiset_ensures;
    broadcast use vstd::multiset::group_multiset_axioms;

    assert forall|v: usize|
        #[trigger] s.to_multiset().count(v) == (if (v as nat) < n {
            1nat
        } else {
            0nat
        }) by {
        lemma_identity_seq_count(n, v);
    }
    assert(identity_seq(n).len() == n);
    assert(s.len() == s.to_multiset().len());
    assert(identity_seq(n).len() == identity_seq(n).to_multiset().len());
    assert(s.len() == n);
    assert forall|i: int| 0 <= i < s.len() implies (#[trigger] s[i] as nat) < n by {
        assert(s.contains(s[i]));
        assert(s.to_multiset().count(s[i]) > 0);
    }
    assert forall|v: usize| (v as nat) < n implies s.contains(v) by {
        assert(s.to_multiset().count(v) == 1);
    }
    s.lemma_multiset_has_no_duplicates_conv();
    assert(s.no_duplicates());
}

/// Declares rand's thread-local generator so that a dispenser can own one.
#[verifier::external_type_specification]
#[verifier::external_body]
pub struct ExThreadRng(rand::rngs::ThreadRng);

/// Relies on rand::thread_rng: returns a handle to the thread-local random
/// generator. Nothing is assumed of the values it will produce.
#[verifier::external_body]
fn fresh_rng() -> rand::rngs::ThreadRng {
    rand::thread_rng()
}

/// Relies on rand::seq::SliceRandom::shuffle: a Fisher-Yates shuffle that
/// rearranges the slice in place by swapping elements, so the multiset of
/// values (and with it the length) is unchanged. Which rearrangement comes out
/// depends on the random generator, so nothing more is assumed of the result.
#[verifier::external_body]
fn shuffle_in_place(v: &mut Vec<usize>, rng: &mut rand::rngs::ThreadRng)
    ensures
        final(v)@.len() == old(v)@.len(),
        final(v)@.to_multiset() == old(v)@.to_multiset(),
{
    rand::seq::SliceRandom::shuffle(v.as_mut_slice(), rng);
}

/// A struct that holds a hidden shuffled permutation, dispenses [`Hand`]s with
/// a lock on its current state, and reshuffles afterward.
#[derive(Debug)]
pub struct Dispenser {
    indices: Vec<usize>,
    rng: rand::rngs::ThreadRng,
}

impl View for Dispenser {
    type V = Seq<usize>;

    closed spec fn view(&self) -> Seq<usize> {
        self.indices@
    }
}

impl Dispenser {
    /// The dispenser's invariant: its sequence holds exactly the indices
    /// `[0, len)`, each once, in some order.
    pub open spec fn wf(&self) -> bool {
        is_permutation_of(self@, self@.len())
    }

    /// Creates a new [`Dispenser`], initializing it with choices for a slice
    /// of a given `len` and shuffling them once immediately.
    pub fn new(len: usize) -> (r: Dispenser)
        ensures
            r@.len() == len,
            r.wf(),
    {
        let mut indices: Vec<usize> = Vec::new();
        let mut i: usize = 0;
        while i < len
            invariant
                i <= len,
                indices@.len() == i,
                forall|k: int| 0 <= k < i ==> #[trigger] indices@[k] == k as usize,
            decreases len - i,
        {
            indices.push(i);
            i += 1;
        }
        assert(indices@ =~= identity_seq(len as nat));
        let mut d = Dispenser { indices, rng: fresh_rng() };
        shuffle_in_place(&mut d.indices, &mut d.rng);
        d
    }

    /// Returns the effective `len` argument given to [`new`](Dispenser::new)
    /// for this dispenser; it never changes.
    pub fn len(&self) -> (r: usize)
        ensures
            r == self@.len(),
    {
        self.indices.len()
    }

    /// Creates a [`Hand`] from `deck` and the internal permutation, then
    /// reshuffles the permutation.
    ///
    /// Returns `None` when `deck.len()` differs from the dispenser's own
    /// `len`, in which case nothing is mutated — no reshuffle happens. Returns
    /// `Some` when the lengths agree; the hand then freezes the permutation
    /// exactly as it stood before the reshuffle, so every choice lands on an
    /// element of `deck`.
    pub fn make_hand<'h, T>(&mut self, deck: &'h [T]) -> (r: Option<Hand<'h, T>>)
        requires
            old(self).wf(),
        ensures
            final(self).wf(),
            final(self)@.len() == old(self)@.len(),
            deck@.len() != old(self)@.len() ==> r is None && final(self)@ == old(self)@,
            deck@.len() == old(self)@.len() ==> (r matches Some(h)
                && h.choices() == old(self)@
                && h.elements() == deck@),
    {
        if deck.len() != self.len() {
            None
        } else {
            Some(self.make_hand_unchecked(deck))
        }
    }

    /// Creates a [`Hand`], similar to [`make_hand`](Dispenser::make_hand), but
    /// without the check that every choice can land on an element of `deck`.
    ///
    /// The hand freezes the permutation exactly as it stood before the
    /// reshuffle; a mismatched deck only means the hand's own bounds check
    /// reports absence later.
    pub fn make_hand_unchecked<'h, T>(&mut self, deck: &'h [T]) -> (r: Hand<'h, T>)
        requires
            old(self).wf(),
        ensures
            final(self).wf(),
            final(self)@.len() == old(self)@.len(),
            r.choices() == old(self)@,
            r.elements() == deck@,
    {
        let frozen: Vec<usize> = self.indices.clone();
        shuffle_in_place(&mut self.indices, &mut self.rng);
        Hand::new(frozen, deck)
    }
}

/// A lock on a frozen slice of choices, with a borrowed slice of elements to
/// match them against.
#[derive(Debug)]
pub struct Hand<'h, T> {
    frozen_choices: Vec<usize>,
    deck: &'h [T],
}

impl<'h, T> Hand<'h, T> {
    /// The frozen choice sequence, fixed at construction.
    pub closed spec fn choices(&self) -> Seq<usize> {
        self.frozen_choices@
    }

    /// The deck of elements this hand was bound to.
    pub closed spec fn elements(&self) -> Seq<T> {
        self.deck@
    }

    /// Creates a new hand from a sequence of choices and a slice of elements.
    ///
    /// Slice length equivalence isn't checked: a hand built directly can later
    /// report absence where a choice points beyond the deck.
    pub fn new(choices: Vec<usize>, elements: &'h [T]) -> (r: Hand<'h, T>)
        ensures
            r.choices() == choices@,
            r.elements() == elements@,
    {
        Hand { frozen_choices: choices, deck: elements }
    }

    /// Resolves the logical position `idx` through the frozen choices to an
    /// element of the deck.
    ///
    /// With choices `[2,3,1,0,4]` and elements `[a,b,c,d,e]`, position `1`
    /// uses choice `3` to pick `d`.
    ///
    /// Returns `None` if `idx` is at or beyond the number of choices, or if
    /// the stored choice points beyond the deck (reachable only through the
    /// unchecked paths); both bounds must pass for an element to come back.
    /// The result depends on nothing but the hand's frozen state and `idx`,
    /// so repeated calls at the same position resolve to the same element.
    pub fn pick(&self, idx: usize) -> (r: Option<&T>)
        ensures
            r is Some <==> (idx < self.choices().len()
                && (self.choices()[idx as int] as int) < self.elements().len()),
            r matches Some(e) ==> *e == self.elements()[self.choices()[idx as int] as int],
    {
        if idx < self.frozen_choices.len() {
            let u: usize = self.frozen_choices[idx];
            if u < self.deck.len() {
                return Some(&self.deck[u]);
            }
        }
        None
    }

    /// Returns the amount of choices that this hand has (not necessarily the
    /// deck's length, when built through an unchecked path).
    pub fn len(&self) -> (r: usize)
        ensures
            r == self.choices().len(),
    {
        self.frozen_choices.len()
    }
}

/// A hand whose frozen choices are a permutation of `[0, n)` bound to a deck
/// of length `n` — what the checked mint path produces — resolves every
/// position below `n`: both of `pick`'s bounds checks pass, so absence is
/// reachable only through the unchecked paths.
pub proof fn lemma_checked_hand_resolves<'h, T>(h: &Hand<'h, T>)
    requires
        is_permutation_of(h.choices(), h.elements().len()),
        h.elements().len() <= usize::MAX,
    ensures
        h.choices().len() == h.elements().len(),
        forall|idx: int|
            0 <= idx < h.choices().len() ==> (#[trigger] h.choices()[idx] as int)
                < h.elements().len(),
{
    lemma_permutation_properties(h.choices(), h.elements().len());
}

} // verus!
