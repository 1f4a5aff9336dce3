//! Counter-based anti-replay protection for Noise transport messages.
//!
//! Every direction of a v3 session uses a monotonically increasing `u64`
//! counter as its AEAD nonce. The receiver remembers a sliding window so a
//! packet may arrive out of order, but an authenticated counter can never be
//! accepted twice.

use vstd::prelude::*;

verus! {

pub const DEFAULT_WINDOW_SIZE: usize = 4096;

const WORD_BITS: usize = 64;

const WINDOW_WORDS: usize = 64;

/// What a replay window remembers: the highest counter recorded so far, and
/// every recorded counter less than `DEFAULT_WINDOW_SIZE` below it.
pub struct ReplayHistory {
    pub highest: Option<u64>,
    pub recorded: Set<u64>,
}

impl ReplayHistory {
    /// The history of a window that has recorded nothing.
    pub open spec fn fresh() -> ReplayHistory {
        ReplayHistory { highest: None, recorded: Set::empty() }
    }

    /// Whether `counter` is new: above the highest, or inside the window and
    /// not recorded.
    pub open spec fn accepts(self, counter: u64) -> bool {
        match self.highest {
            None => true,
            Some(highest) => counter > highest || (highest - counter < DEFAULT_WINDOW_SIZE
                && !self.recorded.contains(counter)),
        }
    }

    /// The history after `counter` has been recorded: counters that fall out
    /// of the window below the new highest are forgotten.
    pub open spec fn record(self, counter: u64) -> ReplayHistory {
        let highest = match self.highest {
            Some(highest) if counter <= highest => highest,
            _ => counter,
        };
        ReplayHistory {
            highest: Some(highest),
            recorded: Set::new(
                |c: u64|
                    highest - c < DEFAULT_WINDOW_SIZE && (c == counter || self.recorded.contains(
                        c,
                    )),
            ),
        }
    }

    /// The history after an authenticated packet: unchanged if its counter is
    /// not accepted.
    pub open spec fn mark(self, counter: u64) -> ReplayHistory {
        if self.accepts(counter) {
            self.record(counter)
        } else {
            self
        }
    }

    /// Every recorded counter lies inside the window that ends at the highest,
    /// and the highest is recorded.
    pub open spec fn is_window(self) -> bool {
        match self.highest {
            None => self.recorded == Set::<u64>::empty(),
            Some(highest) => self.recorded.contains(highest) && forall|c: u64|
                #[trigger] self.recorded.contains(c) ==> c <= highest && highest - c
                    < DEFAULT_WINDOW_SIZE,
        }
    }

    /// The history after a sequence of authenticated packets.
    pub open spec fn mark_all(self, counters: Seq<u64>) -> ReplayHistory
        decreases counters.len(),
    {
        if counters.len() == 0 {
            self
        } else {
            self.mark_all(counters.drop_last()).mark(counters.last())
        }
    }
}

/// Whether bit `i` of `word` is set.
spec fn word_bit(word: u64, i: int) -> bool {
    word & (1u64 << (i as u64)) != 0
}

/// Whether the bit at `distance` is set in a window's words.
spec fn window_bit(bits: Seq<u64>, distance: int) -> bool {
    word_bit(bits[distance / 64], distance % 64)
}

proof fn lemma_zero_word(i: int)
    requires
        0 <= i < 64,
    ensures
        !word_bit(0, i),
{
    let k = i as u64;
    assert(0u64 & (1u64 << k) == 0) by (bit_vector);
}

proof fn lemma_set_word_bit(word: u64, bit: int, i: int)
    requires
        0 <= bit < 64,
        0 <= i < 64,
    ensures
        word_bit(word | (1u64 << (bit as u64)), i) == (i == bit || word_bit(word, i)),
{
    let k = i as u64;
    let b = bit as u64;
    assert(((word | (1u64 << b)) & (1u64 << k) != 0) == (k == b || word & (1u64 << k) != 0))
        by (bit_vector)
        requires
            k < 64,
            b < 64,
    ;
}

proof fn lemma_word_or(a: u64, b: u64, i: int)
    requires
        0 <= i < 64,
    ensures
        word_bit(a | b, i) == (word_bit(a, i) || word_bit(b, i)),
{
    let k = i as u64;
    assert(((a | b) & (1u64 << k) != 0) == (a & (1u64 << k) != 0 || b & (1u64 << k) != 0))
        by (bit_vector)
        requires
            k < 64,
    ;
}

proof fn lemma_word_shl(word: u64, shift: int, i: int)
    requires
        0 <= i < 64,
        0 <= shift < 64,
    ensures
        word_bit(word << (shift as u64), i) == (i >= shift && word_bit(word, i - shift)),
{
    let k = i as u64;
    let s = shift as u64;
    if i >= shift {
        let d = (i - shift) as u64;
        assert(((word << s) & (1u64 << k) != 0) == (word & (1u64 << d) != 0)) by (bit_vector)
            requires
                k < 64,
                s < 64,
                k >= s,
                d == k - s,
        ;
    } else {
        assert((word << s) & (1u64 << k) == 0) by (bit_vector)
            requires
                s < 64,
                k < s,
        ;
    }
}

proof fn lemma_word_shr(word: u64, shift: int, i: int)
    requires
        0 <= i < 64,
        0 <= shift < 64,
    ensures
        word_bit(word >> (shift as u64), i) == (i + shift < 64 && word_bit(word, i + shift)),
{
    let k = i as u64;
    let s = shift as u64;
    if i + shift < 64 {
        let d = (i + shift) as u64;
        assert(((word >> s) & (1u64 << k) != 0) == (word & (1u64 << d) != 0)) by (bit_vector)
            requires
                k < 64,
                s < 64,
                d < 64,
                d == k + s,
        ;
    } else {
        assert((word >> s) & (1u64 << k) == 0) by (bit_vector)
            requires
                k < 64,
                s < 64,
                k + s >= 64,
        ;
    }
}

/// A 4096-packet replay window. Bit zero represents `highest`, bit one
/// `highest - 1`, and so on.
pub struct ReplayWindow {
    highest: Option<u64>,
    bits: [u64; WINDOW_WORDS],
}

impl View for ReplayWindow {
    type V = ReplayHistory;

    closed spec fn view(&self) -> ReplayHistory {
        ReplayHistory {
            highest: self.highest,
            recorded: Set::new(
                |c: u64|
                    match self.highest {
                        None => false,
                        Some(highest) => c <= highest && highest - c < DEFAULT_WINDOW_SIZE
                            && window_bit(self.bits@, highest - c),
                    },
            ),
        }
    }
}

impl ReplayWindow {
    /// No bit is set before the first counter.
    #[verifier::type_invariant]
    closed spec fn empty_until_first(self) -> bool {
        self.highest is None ==> forall|d: int|
            0 <= d < 4096 ==> !#[trigger] window_bit(self.bits@, d)
    }

    pub fn new() -> (window: ReplayWindow)
        ensures
            window@ == ReplayHistory::fresh(),
    {
        let bits: [u64; WINDOW_WORDS] = [0u64;WINDOW_WORDS];
        proof {
            assert forall|d: int| 0 <= d < 4096 implies !#[trigger] window_bit(bits@, d) by {
                lemma_zero_word(d % 64);
            }
        }
        let window = ReplayWindow { highest: None, bits };
        assert(window@.recorded =~= Set::empty());
        window
    }

    /// Cheap pre-authentication check. This never mutates state: a forged
    /// packet with a very large counter therefore cannot advance the window
    /// and discard legitimate packets.
    pub fn would_accept(&self, counter: u64) -> (accepted: bool)
        ensures
            accepted == self@.accepts(counter),
    {
        let highest: u64 = match self.highest {
            None => {
                return true;
            },
            Some(highest) => highest,
        };
        if counter > highest {
            return true;
        }
        let distance: u64 = highest - counter;
        if distance >= DEFAULT_WINDOW_SIZE as u64 {
            return false;
        }
        !self.bit_is_set(distance as usize)
    }

    /// Record a counter only after its AEAD tag has authenticated. Returns
    /// false if it was already recorded or is too old.
    pub fn mark_authenticated(&mut self, counter: u64) -> (accepted: bool)
        ensures
            accepted == old(self)@.accepts(counter),
            final(self)@ == old(self)@.mark(counter),
    {
        proof {
            use_type_invariant(&*self);
        }
        let ghost before = self@;
        let ghost old_bits = self.bits@;
        if !self.would_accept(counter) {
            return false;
        }
        match self.highest {
            None => {
                self.highest = Some(counter);
                self.set_bit(0);
            },
            Some(highest) => if counter > highest {
                let shifted = shifted_older(&self.bits, counter - highest);
                self.highest = Some(counter);
                self.bits = shifted;
                self.set_bit(0);
            } else {
                self.set_bit((highest - counter) as usize);
            },
        }
        assert(self@.recorded =~= before.record(counter).recorded) by {
            assert(self@.highest == before.record(counter).highest);
        }
        true
    }

    /// The highest counter recorded so far.
    pub fn highest(&self) -> (highest: Option<u64>)
        ensures
            highest == self@.highest,
    {
        self.highest
    }

    fn bit_is_set(&self, distance: usize) -> (set: bool)
        requires
            distance < DEFAULT_WINDOW_SIZE,
        ensures
            set == window_bit(self.bits@, distance as int),
    {
        let word: usize = distance / WORD_BITS;
        let bit: usize = distance % WORD_BITS;
        self.bits[word] & (1u64 << (bit as u64)) != 0
    }

    fn set_bit(&mut self, distance: usize)
        requires
            distance < DEFAULT_WINDOW_SIZE,
            old(self).highest is Some,
        ensures
            final(self).highest == old(self).highest,
            forall|d: int|
                0 <= d < 4096 ==> #[trigger] window_bit(final(self).bits@, d) == (d == distance
                    || window_bit(old(self).bits@, d)),
    {
        let word: usize = distance / WORD_BITS;
        let bit: usize = distance % WORD_BITS;
        let value: u64 = self.bits[word] | (1u64 << (bit as u64));
        proof {
            assert forall|i: int| 0 <= i < 64 implies word_bit(value, i) == (i == bit || word_bit(
                self.bits@[word as int],
                i,
            )) by {
                lemma_set_word_bit(self.bits@[word as int], bit as int, i);
            }
        }
        self.bits[word] = value;
    }
}

impl Clone for ReplayWindow {
    fn clone(&self) -> (copy: ReplayWindow)
        ensures
            copy@ == self@,
    {
        proof {
            use_type_invariant(self);
        }
        ReplayWindow { highest: self.highest, bits: self.bits }
    }
}

impl Default for ReplayWindow {
    fn default() -> (window: ReplayWindow)
        ensures
            window@ == ReplayHistory::fresh(),
    {
        ReplayWindow::new()
    }
}

/// The words with every bit moved `amount` places away from the newest end;
/// bits that leave the window are dropped.
fn shifted_older(bits: &[u64; WINDOW_WORDS], amount: u64) -> (shifted: [u64; WINDOW_WORDS])
    ensures
        forall|d: int|
            0 <= d < 4096 ==> #[trigger] window_bit(shifted@, d) == (d >= amount && window_bit(
                bits@,
                d - amount,
            )),
{
    let mut shifted: [u64; WINDOW_WORDS] = [0u64;WINDOW_WORDS];
    if amount >= DEFAULT_WINDOW_SIZE as u64 {
        proof {
            assert forall|d: int| 0 <= d < 4096 implies !#[trigger] window_bit(shifted@, d) by {
                lemma_zero_word(d % 64);
            }
        }
        return shifted;
    }
    let word_shift: usize = amount as usize / WORD_BITS;
    let bit_shift: usize = amount as usize % WORD_BITS;
    let mut target: usize = word_shift;
    while target < WINDOW_WORDS
        invariant
            word_shift <= target <= WINDOW_WORDS,
            word_shift == amount / 64,
            bit_shift == amount % 64,
            amount < 4096,
            forall|w: int|
                #![trigger shifted@[w]]
                0 <= w < word_shift || target <= w < WINDOW_WORDS ==> shifted@[w] == 0,
            forall|w: int|
                #![trigger shifted@[w]]
                word_shift <= w < target ==> shifted@[w] == shifted_word(
                    bits@,
                    w - word_shift,
                    bit_shift as int,
                ),
        decreases WINDOW_WORDS - target,
    {
        let source: usize = target - word_shift;
        let mut value: u64 = bits[source] << (bit_shift as u64);
        if bit_shift != 0 && source > 0 {
            value = value | (bits[source - 1] >> ((WORD_BITS - bit_shift) as u64));
        }
        shifted[target] = value;
        target = target + 1;
    }
    proof {
        assert forall|d: int| 0 <= d < 4096 implies #[trigger] window_bit(shifted@, d) == (d
            >= amount && window_bit(bits@, d - amount)) by {
            let w = d / 64;
            if w < word_shift {
                assert(shifted@[w] == 0);
                lemma_zero_word(d % 64);
            } else {
                assert(shifted@[w] == shifted_word(bits@, w - word_shift, bit_shift as int));
                lemma_shifted_word(bits@, w - word_shift, bit_shift as int, d % 64);
                if d % 64 >= bit_shift {
                    assert((d - amount) / 64 == w - word_shift);
                    assert((d - amount) % 64 == d % 64 - bit_shift);
                } else if w > word_shift {
                    assert((d - amount) / 64 == w - word_shift - 1);
                    assert((d - amount) % 64 == d % 64 + 64 - bit_shift);
                }
            }
        }
    }
    shifted
}

/// Word `w` of `bits` moved up by `bit_shift` places, with what spills over
/// from the word below.
spec fn shifted_word(bits: Seq<u64>, w: int, bit_shift: int) -> u64 {
    let high = bits[w] << (bit_shift as u64);
    if bit_shift != 0 && w > 0 {
        high | (bits[w - 1] >> ((64 - bit_shift) as u64))
    } else {
        high
    }
}

proof fn lemma_shifted_word(bits: Seq<u64>, w: int, bit_shift: int, i: int)
    requires
        bits.len() == 64,
        0 <= w < 64,
        0 <= bit_shift < 64,
        0 <= i < 64,
    ensures
        word_bit(shifted_word(bits, w, bit_shift), i) == if i >= bit_shift {
            word_bit(bits[w], i - bit_shift)
        } else {
            w > 0 && word_bit(bits[w - 1], i + 64 - bit_shift)
        },
{
    lemma_word_shl(bits[w], bit_shift, i);
    if bit_shift != 0 && w > 0 {
        lemma_word_shr(bits[w - 1], 64 - bit_shift, i);
        lemma_word_or(
            bits[w] << (bit_shift as u64),
            bits[w - 1] >> ((64 - bit_shift) as u64),
            i,
        );
    }
}

/// Whatever counters arrive, the window stays a window: it holds its highest
/// counter and nothing outside the range below it.
pub proof fn history_is_always_a_window(counters: Seq<u64>)
    ensures
        ReplayHistory::fresh().mark_all(counters).is_window(),
    decreases counters.len(),
{
    if counters.len() > 0 {
        history_is_always_a_window(counters.drop_last());
    } else {
        assert(ReplayHistory::fresh().recorded == Set::<u64>::empty());
    }
}

/// A recorded counter is never accepted again, whatever arrives after it.
pub proof fn recorded_counter_is_never_accepted_again(
    history: ReplayHistory,
    counter: u64,
    later: Seq<u64>,
)
    ensures
        !history.record(counter).mark_all(later).accepts(counter),
    decreases later.len(),
{
    if later.len() > 0 {
        recorded_counter_is_never_accepted_again(history, counter, later.drop_last());
    }
}

/// Over any sequence of authenticated packets a counter is accepted at most
/// once: after `counters` have been marked, none of them is accepted.
pub proof fn no_counter_is_accepted_twice(history: ReplayHistory, counters: Seq<u64>, i: int)
    requires
        0 <= i < counters.len(),
    ensures
        !history.mark_all(counters).accepts(counters[i]),
    decreases counters.len(),
{
    if i < counters.len() - 1 {
        no_counter_is_accepted_twice(history, counters.drop_last(), i);
    }
}

/// A counter inside the window that has not been marked is accepted, in
/// whatever order the others arrived.
pub proof fn unseen_counter_in_the_window_is_accepted(counters: Seq<u64>, counter: u64)
    requires
        !counters.contains(counter),
        ReplayHistory::fresh().mark_all(counters).highest matches Some(highest) ==> counter
            > highest || highest - counter < DEFAULT_WINDOW_SIZE,
    ensures
        ReplayHistory::fresh().mark_all(counters).accepts(counter),
{
    lemma_only_marked_counters_are_recorded(counters, counter);
}

proof fn lemma_only_marked_counters_are_recorded(counters: Seq<u64>, counter: u64)
    requires
        !counters.contains(counter),
    ensures
        !ReplayHistory::fresh().mark_all(counters).recorded.contains(counter),
    decreases counters.len(),
{
    if counters.len() > 0 {
        assert(!counters.drop_last().contains(counter)) by {
            if counters.drop_last().contains(counter) {
                let i = counters.drop_last().index_of(counter);
                assert(counters[i] == counter);
            }
        }
        lemma_only_marked_counters_are_recorded(counters.drop_last(), counter);
        assert(counters[counters.len() - 1] == counters.last());
    }
}

proof fn lemma_highest_is_greatest(counters: Seq<u64>)
    ensures
        match ReplayHistory::fresh().mark_all(counters).highest {
            Some(highest) => counters.contains(highest) && forall|i: int|
                #![trigger counters[i]]
                0 <= i < counters.len() ==> counters[i] <= highest,
            None => counters.len() == 0,
        },
    decreases counters.len(),
{
    if counters.len() > 0 {
        let before = counters.drop_last();
        lemma_highest_is_greatest(before);
        let history = ReplayHistory::fresh().mark_all(before);
        let after = ReplayHistory::fresh().mark_all(counters);
        assert(counters[counters.len() - 1] == counters.last());
        if let Some(highest) = history.highest {
            let at = before.index_of(highest);
            assert(counters[at] == highest);
        }
        let highest = after.highest->0;
        assert(after.highest is Some);
        assert forall|i: int| #![trigger counters[i]] 0 <= i < counters.len() implies counters[i]
            <= highest by {
            if i < before.len() {
                assert(counters[i] == before[i]);
            }
        }
    }
}

/// A counter that has not arrived yet is accepted as long as none has arrived
/// that is 4096 or more above it, and refused as soon as one has.
pub proof fn packets_may_be_late_by_the_window(counters: Seq<u64>, counter: u64, i: int)
    requires
        !counters.contains(counter),
    ensures
        (forall|j: int| #![trigger counters[j]] 0 <= j < counters.len() ==> counters[j] - counter
            < 4096) ==> ReplayHistory::fresh().mark_all(counters).accepts(counter),
        0 <= i < counters.len() && counters[i] - counter >= 4096 ==> !ReplayHistory::fresh().mark_all(
            counters,
        ).accepts(counter),
{
    lemma_highest_is_greatest(counters);
    lemma_only_marked_counters_are_recorded(counters, counter);
    if let Some(highest) = ReplayHistory::fresh().mark_all(counters).highest {
        let at = counters.index_of(highest);
        assert(counters[at] == highest);
    }
}

} // verus!
