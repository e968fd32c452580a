//! Floating-point values. Floating-point arithmetic is not modelled here, so
//! the value of a word as an `f64` is not computed by this library: it is supplied by the
//! caller as the bit pattern that `f64::to_bits` gives, one entry per word.
//! Comparisons of such values follow IEEE-754 and are computed from the bits.
use vstd::prelude::*;

use crate::numbers::compare_ints;
use crate::text::same_text;

verus! {

pub const SIGN_BIT: u64 = 0x8000_0000_0000_0000;

pub const INFINITY_BITS: u64 = 0x7ff0_0000_0000_0000;

/// The bits of the absolute value.
pub open spec fn float_magnitude(bits: u64) -> int {
    if bits >= SIGN_BIT {
        bits - SIGN_BIT
    } else {
        bits as int
    }
}

/// Not-a-number: all exponent bits set and a non-zero mantissa.
pub open spec fn float_is_nan(bits: u64) -> bool {
    float_magnitude(bits) > INFINITY_BITS
}

/// An integer that orders the non-NaN doubles as their values are ordered;
/// `-0.0` and `+0.0` get the same key.
pub open spec fn float_key(bits: u64) -> int {
    if bits >= SIGN_BIT {
        -float_magnitude(bits)
    } else {
        float_magnitude(bits)
    }
}

/// The IEEE-754 comparison of two doubles given by their bits: `None` when
/// either is NaN (unordered), else -1, 0 or 1.
pub open spec fn float_order(a: u64, b: u64) -> Option<int> {
    if float_is_nan(a) || float_is_nan(b) {
        None
    } else {
        Some(compare_ints(float_key(a), float_key(b)))
    }
}

/// The IEEE-754 comparison of two doubles given by their bits.
pub fn compare_floats(a: u64, b: u64) -> (r: Option<i8>)
    ensures
        r matches Some(x) ==> float_order(a, b) == Some(x as int),
        r is None ==> float_order(a, b) is None,
{
    let ma = if a >= SIGN_BIT {
        a - SIGN_BIT
    } else {
        a
    };
    let mb = if b >= SIGN_BIT {
        b - SIGN_BIT
    } else {
        b
    };
    if ma > INFINITY_BITS || mb > INFINITY_BITS {
        return None;
    }
    let ka: i128 = if a >= SIGN_BIT {
        -(ma as i128)
    } else {
        ma as i128
    };
    let kb: i128 = if b >= SIGN_BIT {
        -(mb as i128)
    } else {
        mb as i128
    };
    if ka < kb {
        Some(-1)
    } else if ka > kb {
        Some(1)
    } else {
        Some(0)
    }
}

/// A word and the bits of its value as a double.
pub struct FloatEntry {
    pub word: String,
    pub bits: u64,
}

/// The most recent entry for `word` among the first `n` entries.
pub open spec fn lookup_entries(entries: Seq<FloatEntry>, word: Seq<char>, n: int) -> Option<u64>
    decreases n,
{
    if n <= 0 || n > entries.len() {
        None
    } else if entries[n - 1].word@ == word {
        Some(entries[n - 1].bits)
    } else {
        lookup_entries(entries, word, n - 1)
    }
}

proof fn lemma_lookup_push(entries: Seq<FloatEntry>, e: FloatEntry, word: Seq<char>, n: int)
    requires
        0 <= n <= entries.len(),
    ensures
        lookup_entries(entries.push(e), word, n) == lookup_entries(entries, word, n),
    decreases n,
{
    if n > 0 {
        assert(entries.push(e)[n - 1] == entries[n - 1]);
        lemma_lookup_push(entries, e, word, n - 1);
    }
}

/// The values of words as doubles, for the words that are floats.
pub struct FloatValues {
    entries: Vec<FloatEntry>,
}

impl FloatValues {
    /// The bits of the double that `word` denotes, if it was given one.
    pub closed spec fn value_of(&self, word: Seq<char>) -> Option<u64> {
        lookup_entries(self.entries@, word, self.entries@.len() as int)
    }

    /// No word has a value.
    pub fn new() -> (r: Self)
        ensures
            forall|w: Seq<char>| #[trigger] r.value_of(w) is None,
    {
        FloatValues { entries: Vec::new() }
    }

    /// Gives `word` the double with bits `bits`.
    pub fn insert(&mut self, word: &str, bits: u64)
        ensures
            forall|w: Seq<char>|
                #[trigger] final(self).value_of(w) == if w == word@ {
                    Some(bits)
                } else {
                    old(self).value_of(w)
                },
    {
        let ghost before = self.entries@;
        let entry = FloatEntry { word: word.to_owned(), bits };
        self.entries.push(entry);
        assert forall|w: Seq<char>|
            #[trigger] self.value_of(w) == if w == word@ {
                Some(bits)
            } else {
                lookup_entries(before, w, before.len() as int)
            } by {
            lemma_lookup_push(before, entry, w, before.len() as int);
        }
    }

    /// The bits of the double that `word` denotes, if it was given one.
    pub fn get(&self, word: &str) -> (r: Option<u64>)
        ensures
            r == self.value_of(word@),
    {
        let mut n: usize = self.entries.len();
        while n > 0
            invariant
                0 <= n <= self.entries.len(),
                self.value_of(word@) == lookup_entries(self.entries@, word@, n as int),
            decreases n,
        {
            if same_text(self.entries[n - 1].word.as_str(), word) {
                return Some(self.entries[n - 1].bits);
            }
            n = n - 1;
        }
        None
    }
}

} // verus!
