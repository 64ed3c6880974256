//! Alphabetic signature keys: `A`, `B`, ..., `Z`, `AA`, `AB`, ...

use vstd::arithmetic::power::pow;
use vstd::prelude::*;
use vstd::relations::injective_on;
use vstd::set_lib::{lemma_int_range, lemma_map_size, set_int_range};

verus! {

/// The letters that keys are written in, in their order.
pub const ALPHABET: &'static str = "ABCDEFGHIJKLMNOPQRSTUVWXYZ";

/// Number of letters in the key alphabet.
pub const ALPHABET_LEN: u32 = 26;

/// The letter that stands for digit `d` of a key: 0 is `A`, 25 is `Z`.
pub open spec fn letter(d: nat) -> char {
    ('A' as u8 + d) as char
}

/// The key of the signature with zero-based index `index`, as a sequence of
/// letters. Keys count in bijective base 26: there is no letter for zero, so
/// after `Z` comes `AA`.
pub open spec fn key_letters(index: nat) -> Seq<char>
    decreases index,
{
    if index < 26 {
        seq![letter(index)]
    } else {
        key_letters((index / 26 - 1) as nat).push(letter(index % 26))
    }
}

/// Whether `key` is made like a signature key: of one letter or more, each
/// from `A` to `Z`.
pub open spec fn is_key(key: Seq<char>) -> bool {
    key.len() >= 1 && forall|k: int| 0 <= k < key.len() ==> 'A' <= #[trigger] key[k] <= 'Z'
}

/// Whether `a` and `b` agree in their first `k` letters, and `a` has the
/// smaller letter after them.
pub open spec fn precedes_at(a: Seq<char>, b: Seq<char>, k: int) -> bool {
    &&& 0 <= k < a.len()
    &&& k < b.len()
    &&& forall|m: int| 0 <= m < k ==> a[m] == b[m]
    &&& a[k] < b[k]
}

/// Whether `a` sorts before `b`: a shorter text sorts before a longer one,
/// and of two texts of one length the one that has the smaller letter where
/// they first differ.
pub open spec fn sorts_before(a: Seq<char>, b: Seq<char>) -> bool {
    a.len() < b.len() || (a.len() == b.len() && exists|k: int| precedes_at(a, b, k))
}

/// The number of keys that have fewer than `len` letters: these take the
/// indices below that of the first key of `len` letters.
pub open spec fn keys_shorter_than(len: nat) -> int
    decreases len,
{
    if len <= 1 {
        0
    } else {
        keys_shorter_than((len - 1) as nat) + pow(26, (len - 1) as nat)
    }
}

/// The keys that have `len` letters.
pub open spec fn keys_of_length(len: nat) -> Set<Seq<char>> {
    Set::new(|key: Seq<char>| key.len() == len && exists|index: nat| key_letters(index) == key)
}

/// Computes the key of the signature with zero-based index `signature_i`.
///
/// The digits are taken from the right: the remainder modulo 26 selects a
/// letter, the quotient goes on, less one unless it is zero. The letters are
/// then written out in reverse.
pub fn get_signature_key(signature_i: u32) -> (key: String)
    ensures
        key@ == key_letters(signature_i as nat),
        is_key(key@),
{
    proof {
        lemma_key_letters_is_key(signature_i as nat);
    }
    let mut digits: Vec<u32> = Vec::new();
    let mut i: u32 = signature_i;
    loop
        invariant_except_break
            key_letters(signature_i as nat) == key_letters(i as nat) + reversed_letters(digits@),
        invariant
            forall|k: int| 0 <= k < digits.len() ==> digits[k] < 26,
        ensures
            key_letters(signature_i as nat) == reversed_letters(digits@),
        decreases i,
    {
        let remainder: u32 = i % ALPHABET_LEN;
        let ghost before = digits@;
        digits.push(remainder);
        assert(reversed_letters(digits@) == seq![letter(remainder as nat)] + reversed_letters(
            before,
        ));
        i = i / ALPHABET_LEN;
        if i == 0 {
            break ;
        }
        i = i - 1;
    }
    let mut key = String::new();
    let mut k: usize = digits.len();
    while k > 0
        invariant
            k <= digits.len(),
            forall|j: int| 0 <= j < digits.len() ==> digits[j] < 26,
            key@ == reversed_letters(digits@).subrange(0, digits.len() - k),
        decreases k,
    {
        k = k - 1;
        let d: usize = digits[k] as usize;
        proof {
            reveal_strlit("ABCDEFGHIJKLMNOPQRSTUVWXYZ");
            assert(ALPHABET@[d as int] == letter(d as nat));
        }
        key.append(ALPHABET.substring_ascii(d, d + 1));
    }
    key
}

/// Every key has one letter or more, each from `A` to `Z`.
pub proof fn lemma_key_letters_is_key(index: nat)
    ensures
        is_key(key_letters(index)),
    decreases index,
{
    if index >= 26 {
        lemma_key_letters_is_key((index / 26 - 1) as nat);
    }
}

/// Keys come in the order of their indices: the key of a smaller index sorts
/// before the key of a larger one.
pub proof fn lemma_key_order(index1: nat, index2: nat)
    requires
        index1 < index2,
    ensures
        sorts_before(key_letters(index1), key_letters(index2)),
    decreases index2,
{
    let a = key_letters(index1);
    let b = key_letters(index2);
    if index2 < 26 {
        assert(precedes_at(a, b, 0));
    } else if index1 < 26 {
        lemma_key_letters_is_key((index2 / 26 - 1) as nat);
    } else {
        let before1 = (index1 / 26 - 1) as nat;
        let before2 = (index2 / 26 - 1) as nat;
        let front1 = key_letters(before1);
        let front2 = key_letters(before2);
        if before1 == before2 {
            assert(precedes_at(a, b, front1.len() as int));
        } else {
            lemma_key_order(before1, before2);
            if front1.len() == front2.len() {
                let k = choose|k: int| precedes_at(front1, front2, k);
                assert(precedes_at(a, b, k));
            }
        }
    }
}

/// No two indices have the same key.
pub proof fn lemma_keys_distinct(index1: nat, index2: nat)
    requires
        index1 != index2,
    ensures
        key_letters(index1) != key_letters(index2),
{
    if index1 < index2 {
        lemma_key_order(index1, index2);
    } else {
        lemma_key_order(index2, index1);
    }
}

/// The letters of `digits`, last digit first.
spec fn reversed_letters(digits: Seq<u32>) -> Seq<char> {
    Seq::new(digits.len(), |k: int| letter(digits[digits.len() - 1 - k] as nat))
}

/// The keys shorter than `len + 1` letters are the keys of one letter and,
/// for each key shorter than `len` letters, the 26 keys that add a letter to
/// it.
proof fn lemma_keys_shorter_than_next(len: nat)
    requires
        len >= 1,
    ensures
        keys_shorter_than(len + 1) == 26 * keys_shorter_than(len) + 26,
        keys_shorter_than(len + 1) == keys_shorter_than(len) + pow(26, len),
        keys_shorter_than(len) >= 0,
        pow(26, len) >= 26,
    decreases len,
{
    reveal(pow);
    if len > 1 {
        lemma_keys_shorter_than_next((len - 1) as nat);
    } else {
        assert(pow(26, 0) == 1);
    }
}

/// The keys of `len` letters are those of the `26^len` indices that follow
/// the indices of the shorter keys.
pub proof fn lemma_key_length(index: nat, len: nat)
    requires
        len >= 1,
    ensures
        key_letters(index).len() == len <==> keys_shorter_than(len) <= index < keys_shorter_than(
            len,
        ) + pow(26, len),
    decreases index,
{
    lemma_keys_shorter_than_next(len);
    if len > 1 {
        lemma_keys_shorter_than_next((len - 1) as nat);
    }
    if index >= 26 {
        let before = (index / 26 - 1) as nat;
        lemma_key_letters_is_key(before);
        if len > 1 {
            lemma_key_length(before, (len - 1) as nat);
        }
    }
}

/// There are exactly `26^len` keys of `len` letters.
pub proof fn lemma_keys_of_length_count(len: nat)
    requires
        len >= 1,
    ensures
        keys_of_length(len).finite(),
        keys_of_length(len).len() == pow(26, len),
{
    let first = keys_shorter_than(len);
    let indices = set_int_range(first, first + pow(26, len));
    let key_of = |i: int| key_letters(i as nat);
    lemma_keys_shorter_than_next(len);
    lemma_int_range(first, first + pow(26, len));
    assert(injective_on(key_of, indices)) by {
        assert forall|i: int, j: int|
            indices.contains(i) && indices.contains(j) && #[trigger] key_of(i) == #[trigger] key_of(
                j,
            ) implies i == j by {
            if i != j {
                lemma_keys_distinct(i as nat, j as nat);
            }
        }
    }
    assert forall|key: Seq<char>| indices.map(key_of).contains(key) <==> keys_of_length(
        len,
    ).contains(key) by {
        if indices.map(key_of).contains(key) {
            let i = choose|i: int| indices.contains(i) && key_of(i) == key;
            lemma_key_length(i as nat, len);
            assert(key_letters(i as nat) == key);
        }
        if keys_of_length(len).contains(key) {
            let index = choose|index: nat| key_letters(index) == key;
            lemma_key_length(index, len);
            assert(indices.contains(index as int) && key_of(index as int) == key);
        }
    }
    assert(indices.map(key_of) =~= keys_of_length(len));
    lemma_map_size(indices, keys_of_length(len), key_of);
}

} // verus!
