//! A wide accumulator: sums of binary64 magnitudes, kept exactly.
//!
//! The accumulator is a natural number of 36 words of 64 bits. It is wide
//! enough to hold a few of the largest binary64 numbers, each times a
//! 46-bit weight, in units of 2^-1088, so that a time given in beats or
//! seconds becomes a count of samples without a bit being rounded away on
//! the way.

use vstd::arithmetic::div_mod::*;
use vstd::arithmetic::mul::*;
use vstd::arithmetic::power2::*;
use vstd::bits::{lemma_u64_pow2_no_overflow, lemma_u64_shl_is_mul};
use vstd::prelude::*;

verus! {

/// Words in an accumulator.
pub const WORDS: usize = 36;

/// Words below the binary point.
pub const POINT: usize = 17;

/// Two to the 64th.
pub const WORD_BASE: u128 = 0x1_0000_0000_0000_0000;

/// Exclusive bound on the weighted significand of a term: 2^100.
pub const TERM_BOUND: u128 = 0x10_0000_0000_0000_0000_0000_0000;

/// Highest bit position at which a term may be placed.
pub const TOP_POSITION: usize = 2111;

/// The weight of word `i`: 2^(64 i).
pub open spec fn place_value(i: int) -> int {
    pow2((64 * i) as nat) as int
}

/// The number that the first `n` words stand for, the lowest word first.
pub open spec fn value_below(words: Seq<u64>, n: int) -> int
    decreases n,
{
    if n <= 0 {
        0
    } else {
        value_below(words, n - 1) + words[n - 1] * place_value(n - 1)
    }
}

/// The number that the words from `from` up to `n` stand for, with word
/// `from` as the lowest.
pub open spec fn value_from(words: Seq<u64>, from: int, n: int) -> int
    decreases n - from,
{
    if n <= from {
        0
    } else {
        value_from(words, from, n - 1) + words[n - 1] * place_value(n - 1 - from)
    }
}

/// A quotient that is rounded down, or up to the next whole number.
pub open spec fn quotient(dividend: int, divisor: int, round_up: bool) -> int {
    if round_up && dividend % divisor != 0 {
        dividend / divisor + 1
    } else {
        dividend / divisor
    }
}

/// A natural number below 2^2304.
pub struct Accumulator {
    words: Vec<u64>,
}

impl Accumulator {
    #[verifier::type_invariant]
    spec fn full_width(self) -> bool {
        self.words@.len() == WORDS
    }

    /// The number.
    pub closed spec fn value(self) -> int {
        value_below(self.words@, WORDS as int)
    }

    /// The accumulator at 0.
    pub fn new() -> (accumulator: Accumulator)
        ensures
            accumulator.value() == 0,
    {
        let mut words: Vec<u64> = Vec::new();
        let mut i: usize = 0;
        while i < WORDS
            invariant
                i <= WORDS,
                words@.len() == i,
                forall|j: int| 0 <= j < i ==> words@[j] == 0,
            decreases WORDS - i,
        {
            words.push(0);
            i += 1;
        }
        proof {
            lemma_zero_words(words@, WORDS as int);
        }
        Accumulator { words }
    }

    /// Adds `word * 2^(64 index)`.
    fn add_word(&mut self, word: u64, index: usize)
        requires
            index < WORDS,
            old(self).value() + word * place_value(index as int) < place_value(WORDS as int),
        ensures
            final(self).value() == old(self).value() + word * place_value(index as int),
    {
        proof {
            use_type_invariant(&*self);
        }
        let ghost target = self.value() + word * place_value(index as int);
        let mut carry: u64 = word;
        let mut i: usize = index;
        while carry != 0 && i < WORDS
            invariant
                index <= i <= WORDS,
                self.words@.len() == WORDS,
                value_below(self.words@, WORDS as int) + carry * place_value(i as int) == target,
                target < place_value(WORDS as int),
            decreases WORDS - i,
        {
            let ghost before = self.words@;
            let sum: u128 = self.words[i] as u128 + carry as u128;
            let low: u64 = (sum % WORD_BASE) as u64;
            let high: u64 = (sum / WORD_BASE) as u64;
            self.words[i] = low;
            proof {
                lemma_word_replaced(before, self.words@, i as int, WORDS as int);
                lemma_next_place(i as int);
                let w = place_value(i as int);
                assert((low + high * WORD_BASE) * w == low * w + high * (WORD_BASE * w)) by {
                    lemma_mul_is_distributive_add_other_way(w, low as int, high * WORD_BASE);
                    lemma_mul_is_associative(high as int, WORD_BASE as int, w);
                }
                assert((before[i as int] + carry) * w == before[i as int] * w + carry * w) by {
                    lemma_mul_is_distributive_add_other_way(w, before[i as int] as int, carry as int);
                }
            }
            carry = high;
            i += 1;
        }
        proof {
            if carry != 0 {
                assert(carry * place_value(WORDS as int) >= place_value(WORDS as int)) by {
                    lemma_next_place(WORDS as int);
                    lemma_mul_increases(carry as int, place_value(WORDS as int));
                }
                lemma_value_not_negative(self.words@, WORDS as int);
            }
        }
    }

    /// Adds `term * 2^position`.
    pub fn add_term(&mut self, term: u128, position: usize)
        requires
            term < TERM_BOUND,
            position <= TOP_POSITION,
            old(self).value() + term * pow2(position as nat) < place_value(WORDS as int),
        ensures
            final(self).value() == old(self).value() + term * pow2(position as nat),
    {
        let index: usize = position / 64;
        let offset: u64 = (position % 64) as u64;
        let low: u64 = (term % WORD_BASE) as u64;
        let high: u64 = (term / WORD_BASE) as u64;
        proof {
            lemma_u64_pow2_no_overflow(offset as nat);
            lemma_u64_shl_is_mul(1, offset);
        }
        let scale: u64 = 1u64 << offset;
        assert(low * scale < 0x1_0000_0000_0000_0000_0000_0000_0000_0000 && high * scale
            < 0x1_0000_0000_0000_0000_0000_0000_0000_0000) by (nonlinear_arith)
            requires
                low <= 0xFFFF_FFFF_FFFF_FFFF,
                high <= 0xFFFF_FFFF_FFFF_FFFF,
                scale <= 0xFFFF_FFFF_FFFF_FFFF,
        ;
        let lower: u128 = low as u128 * scale as u128;
        let upper: u128 = high as u128 * scale as u128;
        let a0: u64 = (lower % WORD_BASE) as u64;
        let a1: u64 = (lower / WORD_BASE) as u64;
        let b0: u64 = (upper % WORD_BASE) as u64;
        let b1: u64 = (upper / WORD_BASE) as u64;
        proof {
            lemma_term_in_words(
                term as int,
                position as int,
                a0 as int,
                a1 as int,
                b0 as int,
                b1 as int,
            );
            assert(a0 * place_value(index as int) >= 0 && a1 * place_value(index + 1) >= 0 && b0
                * place_value(index + 1) >= 0 && b1 * place_value(index + 2) >= 0) by {
                lemma_mul_nonnegative(a0 as int, place_value(index as int));
                lemma_mul_nonnegative(a1 as int, place_value(index + 1));
                lemma_mul_nonnegative(b0 as int, place_value(index + 1));
                lemma_mul_nonnegative(b1 as int, place_value(index + 2));
            }
        }
        self.add_word(a0, index);
        self.add_word(a1, index + 1);
        self.add_word(b0, index + 1);
        self.add_word(b1, index + 2);
    }

    /// The number divided by `2^1088 * divisor`, rounded down, or up if
    /// `round_up`; a quotient that does not fit in 64 bits gives the largest
    /// number that does.
    pub fn quotient(&self, divisor: u64, round_up: bool) -> (result: u64)
        requires
            divisor > 0,
        ensures
            result == if quotient(self.value(), place_value(POINT as int) * divisor, round_up)
                <= u64::MAX {
                quotient(self.value(), place_value(POINT as int) * divisor, round_up)
            } else {
                u64::MAX as int
            },
    {
        proof {
            use_type_invariant(self);
        }
        let ghost words = self.words@;
        let ghost point = place_value(POINT as int);
        // the part below the point
        let mut fraction = false;
        let mut i: usize = 0;
        while i < POINT
            invariant
                i <= POINT,
                self.words@ == words,
                words.len() == WORDS,
                fraction == (value_below(words, i as int) != 0),
            decreases POINT - i,
        {
            if self.words[i] != 0 {
                fraction = true;
            }
            proof {
                lemma_mul_nonzero(words[i as int] as int, place_value(i as int));
                lemma_value_not_negative(words, i as int);
                lemma_mul_nonnegative(words[i as int] as int, place_value(i as int));
                lemma_pow2_pos((64 * i) as nat);
            }
            i += 1;
        }
        // the words above the two that a quotient of 64 bits can come from
        let mut beyond = false;
        let mut j: usize = POINT + 2;
        while j < WORDS
            invariant
                POINT + 2 <= j <= WORDS,
                self.words@ == words,
                words.len() == WORDS,
                beyond == (value_from(words, POINT + 2, j as int) != 0),
            decreases WORDS - j,
        {
            if self.words[j] != 0 {
                beyond = true;
            }
            proof {
                lemma_mul_nonzero(words[j as int] as int, place_value(j as int - (POINT + 2)));
                lemma_from_not_negative(words, POINT + 2, j as int);
                lemma_mul_nonnegative(words[j as int] as int, place_value(j as int - (POINT + 2)));
                lemma_pow2_pos((64 * (j as int - (POINT + 2))) as nat);
            }
            j += 1;
        }
        let whole: u128 = self.words[POINT] as u128 + self.words[POINT + 1] as u128 * WORD_BASE;
        proof {
            lemma_split(words, POINT as int, WORDS as int);
            lemma_split_from(words, POINT as int, POINT + 2, WORDS as int);
            lemma_value_bound(words, POINT as int);
            lemma_next_place(0);
            lemma_next_place(1);
            assert(place_value(0) == 1) by {
                lemma2_to64();
            }
            assert(value_from(words, POINT as int, POINT + 2) == whole) by {
                assert(value_from(words, POINT as int, POINT as int) == 0);
                assert(value_from(words, POINT as int, POINT + 1) == words[POINT as int]
                    * place_value(0));
            }
            // the number is fraction + point * (whole + 2^128 * beyond)
            let above = value_from(words, POINT + 2, WORDS as int);
            let integer = whole + place_value(2) * above;
            assert(self.value() == value_below(words, POINT as int) + point * integer);
            lemma_value_not_negative(words, POINT as int);
            lemma_value_not_negative(words, WORDS as int);
            lemma_mul_is_commutative(point, integer);
            lemma_fundamental_div_mod_converse(
                self.value(),
                point,
                integer,
                value_below(words, POINT as int),
            );
            lemma_pow2_pos((64 * POINT) as nat);
            lemma_quotient_in_steps(self.value(), point, divisor as int, round_up);
            assert(self.value() / point == integer);
            assert(self.value() % point == value_below(words, POINT as int));
            let first = quotient(self.value(), point, round_up);
            assert(first == if round_up && fraction {
                integer + 1
            } else {
                integer
            });
            lemma_from_not_negative(words, POINT + 2, WORDS as int);
            lemma_mul_nonnegative(place_value(2), above);
            lemma_rounded_up(integer, divisor as int);
            lemma_div_is_ordered(integer, first, divisor as int);
            if above != 0 {
                lemma_from_not_negative(words, POINT + 2, WORDS as int);
                assert(place_value(2) * above >= place_value(2)) by {
                    lemma_mul_increases(above, place_value(2));
                    lemma_mul_is_commutative(above, place_value(2));
                }
                assert(place_value(2) == WORD_BASE * WORD_BASE) by {
                    lemma_pow2_adds(64, 64);
                    lemma2_to64_rest();
                }
                lemma_large_quotient(integer, divisor as int);
            } else {
                lemma_mul_basics(place_value(2));
            }
        }
        if beyond {
            return u64::MAX;
        }
        let rounded: u128 = whole / (divisor as u128);
        let exact: bool = whole % (divisor as u128) == 0 && !fraction;
        if round_up && !exact {
            if rounded >= u64::MAX as u128 {
                u64::MAX
            } else {
                (rounded + 1) as u64
            }
        } else if rounded > u64::MAX as u128 {
            u64::MAX
        } else {
            rounded as u64
        }
    }
}

/// Words stand for a number that is not negative.
proof fn lemma_value_not_negative(words: Seq<u64>, n: int)
    ensures
        value_below(words, n) >= 0,
    decreases n,
{
    if n > 0 {
        lemma_value_not_negative(words, n - 1);
        lemma_mul_nonnegative(words[n - 1] as int, place_value(n - 1));
    }
}

/// Words stand for a number that is not negative.
proof fn lemma_from_not_negative(words: Seq<u64>, from: int, n: int)
    ensures
        value_from(words, from, n) >= 0,
    decreases n - from,
{
    if n > from {
        lemma_from_not_negative(words, from, n - 1);
        lemma_mul_nonnegative(words[n - 1] as int, place_value(n - 1 - from));
    }
}

/// Words that are all 0 stand for 0.
proof fn lemma_zero_words(words: Seq<u64>, n: int)
    requires
        0 <= n <= words.len(),
        forall|j: int| 0 <= j < n ==> words[j] == 0,
    ensures
        value_below(words, n) == 0,
    decreases n,
{
    if n > 0 {
        lemma_zero_words(words, n - 1);
    }
}

/// The next word weighs 2^64 times as much.
proof fn lemma_next_place(i: int)
    requires
        0 <= i,
    ensures
        place_value(i + 1) == WORD_BASE * place_value(i),
        place_value(i) > 0,
{
    lemma_pow2_adds(64, (64 * i) as nat);
    lemma2_to64_rest();
    lemma_pow2_pos((64 * i) as nat);
}

/// Replacing word `i` changes the number by the difference of the words
/// times the weight of the place.
proof fn lemma_word_replaced(before: Seq<u64>, after: Seq<u64>, i: int, n: int)
    requires
        0 <= i < before.len(),
        after == before.update(i, after[i]),
        0 <= n <= before.len(),
    ensures
        n <= i ==> value_below(after, n) == value_below(before, n),
        n > i ==> value_below(after, n) + before[i] * place_value(i) == value_below(before, n)
            + after[i] * place_value(i),
    decreases n,
{
    if n > 0 {
        lemma_word_replaced(before, after, i, n - 1);
    }
}

/// The first `n` words stand for a number below 2^(64 n).
proof fn lemma_value_bound(words: Seq<u64>, n: int)
    requires
        0 <= n <= words.len(),
    ensures
        value_below(words, n) < place_value(n),
    decreases n,
{
    if n > 0 {
        lemma_value_bound(words, n - 1);
        lemma_next_place(n - 1);
        let w = place_value(n - 1);
        assert(words[n - 1] * w <= (WORD_BASE - 1) * w) by {
            lemma_mul_inequality(words[n - 1] as int, WORD_BASE - 1, w);
        }
        assert((WORD_BASE - 1) * w == WORD_BASE * w - w) by {
            lemma_mul_is_distributive_sub_other_way(w, WORD_BASE as int, 1);
        }
    } else {
        lemma2_to64();
    }
}

/// The words up to `n` are the words below `from` and, `from` places up,
/// the words from there on.
proof fn lemma_split(words: Seq<u64>, from: int, n: int)
    requires
        0 <= from <= n <= words.len(),
    ensures
        value_below(words, n) == value_below(words, from) + place_value(from) * value_from(
            words,
            from,
            n,
        ),
    decreases n - from,
{
    if n > from {
        lemma_split(words, from, n - 1);
        let p = place_value(from);
        let rest = value_from(words, from, n - 1);
        let word = words[n - 1] as int;
        let w = place_value(n - 1 - from);
        assert(place_value(n - 1) == p * w) by {
            lemma_pow2_adds((64 * from) as nat, (64 * (n - 1 - from)) as nat);
        }
        assert(p * (rest + word * w) == p * rest + word * (p * w)) by {
            lemma_mul_is_distributive_add(p, rest, word * w);
            lemma_mul_is_associative(p, word, w);
            lemma_mul_is_commutative(p, word);
            lemma_mul_is_associative(word, p, w);
        }
    } else {
        lemma_mul_basics(place_value(from));
    }
}

/// The words from `from` up to `n` are those up to `middle` and, that many
/// places up, the words from there on.
proof fn lemma_split_from(words: Seq<u64>, from: int, middle: int, n: int)
    requires
        0 <= from <= middle <= n <= words.len(),
    ensures
        value_from(words, from, n) == value_from(words, from, middle) + place_value(middle - from)
            * value_from(words, middle, n),
    decreases n - middle,
{
    if n > middle {
        lemma_split_from(words, from, middle, n - 1);
        let p = place_value(middle - from);
        let rest = value_from(words, middle, n - 1);
        let word = words[n - 1] as int;
        let w = place_value(n - 1 - middle);
        assert(place_value(n - 1 - from) == p * w) by {
            lemma_pow2_adds((64 * (middle - from)) as nat, (64 * (n - 1 - middle)) as nat);
        }
        assert(p * (rest + word * w) == p * rest + word * (p * w)) by {
            lemma_mul_is_distributive_add(p, rest, word * w);
            lemma_mul_is_associative(p, word, w);
            lemma_mul_is_commutative(p, word);
            lemma_mul_is_associative(word, p, w);
        }
    } else {
        lemma_mul_basics(place_value(middle - from));
    }
}

/// A term at a bit position is four words at three places.
proof fn lemma_term_in_words(term: int, position: int, a0: int, a1: int, b0: int, b1: int)
    requires
        0 <= term,
        0 <= position,
        a0 + a1 * WORD_BASE == (term % (WORD_BASE as int)) * pow2((position % 64) as nat),
        b0 + b1 * WORD_BASE == (term / (WORD_BASE as int)) * pow2((position % 64) as nat),
    ensures
        term * pow2(position as nat) == a0 * place_value(position / 64) + a1 * place_value(
            position / 64 + 1,
        ) + b0 * place_value(position / 64 + 1) + b1 * place_value(position / 64 + 2),
{
    let index = position / 64;
    let base = WORD_BASE as int;
    let scale = pow2((position % 64) as nat) as int;
    let w = place_value(index);
    let low = term % base;
    let high = term / base;
    lemma_fundamental_div_mod(term, base);
    lemma_fundamental_div_mod(position, 64);
    lemma_next_place(index);
    lemma_next_place(index + 1);
    assert(pow2(position as nat) == scale * w) by {
        lemma_pow2_adds((position % 64) as nat, (64 * index) as nat);
    }
    // term * 2^position = (low + base * high) * scale * w
    assert(term * (scale * w) == (low * scale) * w + ((high * scale) * base) * w) by {
        lemma_mul_is_associative(term, scale, w);
        assert(term * scale == low * scale + (high * scale) * base) by {
            lemma_mul_is_distributive_add_other_way(scale, base * high, low);
            lemma_mul_is_associative(base, high, scale);
            lemma_mul_is_commutative(base, high * scale);
        }
        lemma_mul_is_distributive_add_other_way(w, low * scale, (high * scale) * base);
    }
    assert((low * scale) * w == a0 * w + a1 * (base * w)) by {
        lemma_mul_is_distributive_add_other_way(w, a0, a1 * base);
        lemma_mul_is_associative(a1, base, w);
    }
    assert(((high * scale) * base) * w == b0 * (base * w) + b1 * (base * (base * w))) by {
        lemma_mul_is_associative(high * scale, base, w);
        lemma_mul_is_distributive_add_other_way(base * w, b0, b1 * base);
        lemma_mul_is_associative(b1, base, base * w);
    }
}

/// Dividing by a product can be done in two steps, and so can rounding up.
pub proof fn lemma_quotient_in_steps(dividend: int, first: int, second: int, round_up: bool)
    requires
        dividend >= 0,
        first > 0,
        second > 0,
    ensures
        first * second > 0,
        quotient(dividend, first * second, round_up) == quotient(
            quotient(dividend, first, round_up),
            second,
            round_up,
        ),
{
    let a = dividend;
    let b = first;
    let c = second;
    lemma_mul_strictly_positive(b, c);
    lemma_div_denominator(a, b, c);
    lemma_fundamental_div_mod(a, b);
    lemma_fundamental_div_mod(a / b, c);
    lemma_fundamental_div_mod(a, b * c);
    lemma_mod_bound(a, b);
    lemma_mod_bound(a / b, c);
    lemma_mod_bound(a, b * c);
    let q = a / b;
    let r = a % b;
    let qq = q / c;
    let rr = q % c;
    // a = b * (c * qq + rr) + r, so a % (b * c) = b * rr + r
    assert(a == (b * c) * qq + (b * rr + r)) by {
        lemma_mul_is_distributive_add(b, c * qq, rr);
        lemma_mul_is_associative(b, c, qq);
    }
    assert(0 <= b * rr + r < b * c) by {
        lemma_mul_nonnegative(b, rr);
        lemma_mul_inequality(rr + 1, c, b);
        lemma_mul_is_commutative(b, rr + 1);
        lemma_mul_is_commutative(b, c);
        lemma_mul_is_distributive_add(b, rr, 1);
    }
    lemma_fundamental_div_mod_converse(a, b * c, qq, b * rr + r);
    if round_up {
        if r != 0 {
            // the first step rounds up to q + 1
            lemma_fundamental_div_mod(q + 1, c);
            lemma_mod_bound(q + 1, c);
            if rr + 1 < c {
                lemma_fundamental_div_mod_converse(q + 1, c, qq, rr + 1);
            } else {
                assert(q + 1 == c * (qq + 1) + 0) by {
                    lemma_mul_is_distributive_add(c, qq, 1);
                }
                lemma_fundamental_div_mod_converse(q + 1, c, qq + 1, 0);
            }
            assert(b * rr + r != 0) by {
                lemma_mul_nonnegative(b, rr);
            }
        } else {
            assert(b * rr + r == 0 <==> rr == 0) by {
                if rr != 0 {
                    lemma_mul_strictly_positive(b, rr);
                }
            }
        }
    }
}

/// One more than a number, divided and rounded up, is one more than the
/// number divided and rounded down.
proof fn lemma_rounded_up(number: int, divisor: int)
    requires
        number >= 0,
        divisor > 0,
    ensures
        quotient(number + 1, divisor, true) == number / divisor + 1,
        quotient(number, divisor, true) == if number % divisor == 0 {
            number / divisor
        } else {
            number / divisor + 1
        },
        quotient(number, divisor, false) == number / divisor,
{
    lemma_fundamental_div_mod(number, divisor);
    lemma_mod_bound(number, divisor);
    let q = number / divisor;
    let r = number % divisor;
    lemma_mul_is_commutative(divisor, q);
    if r + 1 < divisor {
        lemma_fundamental_div_mod_converse(number + 1, divisor, q, r + 1);
    } else {
        assert(number + 1 == (q + 1) * divisor + 0) by {
            lemma_mul_is_distributive_add_other_way(divisor, q, 1);
        }
        lemma_fundamental_div_mod_converse(number + 1, divisor, q + 1, 0);
    }
}

/// A number of 2^128 or more, divided by a divisor of 64 bits, is more than
/// 64 bits can hold.
proof fn lemma_large_quotient(dividend: int, divisor: int)
    requires
        0 < divisor <= u64::MAX,
        dividend >= WORD_BASE * WORD_BASE,
    ensures
        dividend / divisor > u64::MAX,
{
    let base = WORD_BASE as int;
    assert(base * base >= base * divisor) by {
        lemma_mul_left_inequality(base, divisor, base);
    }
    lemma_div_is_ordered(base * divisor, dividend, divisor);
    lemma_div_multiples_vanish(base, divisor);
}

} // verus!
