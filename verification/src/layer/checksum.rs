//! The Internet checksum (RFC 1071) used by the IP and transport headers.
use vstd::prelude::*;

verus! {

/// Modulus of ones'-complement arithmetic on 16-bit words.
pub open spec fn ones_modulus() -> int {
    0xffff
}

/// The `k`-th big-endian 16-bit word of `s`; a missing low byte counts as zero.
pub open spec fn word_at(s: Seq<u8>, k: int) -> nat {
    let hi = s[2 * k] as nat;
    let lo = if 2 * k + 1 < s.len() {
        s[2 * k + 1] as nat
    } else {
        0nat
    };
    hi * 256 + lo
}

/// Number of 16-bit words that cover `s`.
pub open spec fn word_count(s: Seq<u8>) -> nat {
    ((s.len() + 1) / 2) as nat
}

/// Sum of the first `n` words of `s`, without any folding.
pub open spec fn words_sum(s: Seq<u8>, n: nat) -> nat
    decreases n,
{
    if n == 0 {
        0
    } else {
        words_sum(s, (n - 1) as nat) + word_at(s, n - 1)
    }
}

/// The ones'-complement sum of a non-negative total: carries folded back until
/// it fits in 16 bits (zero only for a zero total).
pub open spec fn folded(x: nat) -> nat {
    if x == 0 {
        0
    } else {
        (((x - 1) as int % ones_modulus()) + 1) as nat
    }
}

/// The Internet checksum of `s`: the complement of the ones'-complement sum of its words.
pub open spec fn internet_checksum(s: Seq<u8>) -> u16 {
    (0xffff - folded(words_sum(s, word_count(s)))) as u16
}

proof fn lemma_word_bound(s: Seq<u8>, k: int)
    requires
        0 <= k,
        2 * k < s.len(),
    ensures
        word_at(s, k) <= 0xffff,
{
    let hi = s[2 * k] as nat;
    assert(hi * 256 <= 255 * 256) by (nonlinear_arith)
        requires
            hi <= 255,
    ;
}

/// Adding one word to a folded sum and folding once more gives the fold of the new total.
proof fn lemma_fold_step(x: nat, w: nat)
    requires
        w <= 0xffff,
    ensures
        folded(x + w) as int == (if folded(x) + w > 0xffff {
            folded(x) + w - 0xffff
        } else {
            folded(x) + w as int
        }),
{
    let m = ones_modulus();
    if x == 0 {
        if w > 0 {
            vstd::arithmetic::div_mod::lemma_small_mod((w - 1) as nat, m as nat);
        }
    } else {
        let f = folded(x);
        vstd::arithmetic::div_mod::lemma_mod_bound((x - 1) as int, m);
        vstd::arithmetic::div_mod::lemma_add_mod_noop((x - 1) as int, w as int, m);
        if w == 0xffff {
            vstd::arithmetic::div_mod::lemma_mod_self_0(m);
            vstd::arithmetic::div_mod::lemma_mod_twice((x - 1) as int, m);
        } else {
            vstd::arithmetic::div_mod::lemma_small_mod(w, m as nat);
            if f + w > 0xffff {
                vstd::arithmetic::div_mod::lemma_mod_sub_multiples_vanish((f - 1 + w) as int, m);
                vstd::arithmetic::div_mod::lemma_small_mod((f - 1 + w - m) as nat, m as nat);
            } else {
                vstd::arithmetic::div_mod::lemma_small_mod((f - 1 + w) as nat, m as nat);
            }
        }
    }
}

/// Compute the Internet checksum of `data`.
pub fn checksum(data: &[u8]) -> (r: u16)
    ensures
        r == internet_checksum(data@),
{
    let len = data.len();
    let n = len / 2 + len % 2;
    let mut acc: u32 = 0;
    let mut k: usize = 0;
    while k < n
        invariant
            len == data@.len(),
            n == word_count(data@),
            k <= n,
            acc <= 0xffff,
            acc == folded(words_sum(data@, k as nat)),
        decreases n - k,
    {
        let hi = data[2 * k] as u32;
        let lo: u32 = if 2 * k + 1 < len {
            data[2 * k + 1] as u32
        } else {
            0
        };
        let w = hi * 256 + lo;
        proof {
            lemma_word_bound(data@, k as int);
            assert(w == word_at(data@, k as int));
            lemma_fold_step(words_sum(data@, k as nat), w as nat);
        }
        acc = acc + w;
        if acc > 0xffff {
            acc = acc - 0xffff;
        }
        k = k + 1;
    }
    (0xffff - acc) as u16
}

/// The data with word `k` set to `c`.
pub open spec fn with_word(s: Seq<u8>, k: int, c: u16) -> Seq<u8> {
    s.update(2 * k, (c / 256) as u8).update(2 * k + 1, (c % 256) as u8)
}

proof fn lemma_with_word_sum(s: Seq<u8>, k: int, c: u16, j: nat)
    requires
        0 <= k,
        2 * k + 1 < s.len(),
        s[2 * k] == 0,
        s[2 * k + 1] == 0,
        j <= word_count(s),
    ensures
        words_sum(with_word(s, k, c), j) == words_sum(s, j) + if k < j {
            c as nat
        } else {
            0nat
        },
    decreases j,
{
    let t = with_word(s, k, c);
    if j > 0 {
        lemma_with_word_sum(s, k, c, (j - 1) as nat);
        let i = j - 1;
        if i == k {
            assert(word_at(t, i) == c) by {
                assert(t[2 * k] == (c / 256) as u8);
                assert(t[2 * k + 1] == (c % 256) as u8);
                assert((c / 256) * 256 + c % 256 == c) by (nonlinear_arith);
            }
            assert(word_at(s, i) == 0);
        } else {
            assert(t[2 * i] == s[2 * i]);
            if 2 * i + 1 < s.len() {
                assert(t[2 * i + 1] == s[2 * i + 1]);
            }
            assert(word_at(t, i) == word_at(s, i));
        }
    }
}

/// Adding the checksum of a total to the total folds to all ones.
proof fn lemma_fold_with_checksum(x: nat)
    ensures
        folded(x + (0xffff - folded(x)) as nat) == 0xffff,
{
    let m = ones_modulus();
    if x == 0 {
        vstd::arithmetic::div_mod::lemma_small_mod(0xfffe, m as nat);
    } else {
        let f = folded(x);
        vstd::arithmetic::div_mod::lemma_mod_bound((x - 1) as int, m);
        vstd::arithmetic::div_mod::lemma_fundamental_div_mod((x - 1) as int, m);
        let q = (x - 1) as int / m;
        assert(x - 1 == q * m + (f - 1));
        assert(x + (0xffff - f) - 1 == q * m + (m - 1));
        vstd::arithmetic::div_mod::lemma_mod_multiples_vanish(q, m - 1, m);
        vstd::arithmetic::div_mod::lemma_small_mod((m - 1) as nat, m as nat);
    }
}

/// A checksum written into a zeroed word of the data makes the data check: the checksum of the
/// data with its checksum in that word is zero.
pub proof fn lemma_checksum_fills_zero_word(s: Seq<u8>, k: int)
    requires
        0 <= k,
        2 * k + 1 < s.len(),
        s[2 * k] == 0,
        s[2 * k + 1] == 0,
    ensures
        internet_checksum(with_word(s, k, internet_checksum(s))) == 0,
{
    let c = internet_checksum(s);
    let t = with_word(s, k, c);
    let n = word_count(s);
    assert(word_count(t) == n);
    lemma_with_word_sum(s, k, c, n);
    let x = words_sum(s, n);
    assert(folded(x) <= 0xffff) by {
        if x > 0 {
            vstd::arithmetic::div_mod::lemma_mod_bound((x - 1) as int, ones_modulus());
        }
    }
    assert(c as nat == (0xffff - folded(x)) as nat);
    lemma_fold_with_checksum(x);
}

} // verus!
