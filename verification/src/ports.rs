//! Choosing a serial port from a list of names.
//!
//! With a user-supplied hint the hinted name is taken as soon as it appears
//! in the list. Without one, the shortest name wins, ties broken by the
//! largest numeric suffix key: the key is accumulated over the digits at
//! the end of the name, the ones digit unweighted and each successive
//! digit weighted by ten times its position index; a name with a
//! non-numeric tail scores zero.

use vstd::prelude::*;

verus! {

/// Names longer than this take no part in suffix scoring; it keeps the key
/// within a 64-bit machine word.
pub const MAX_PORT_NAME_LEN: usize = 100000000;

/// Whether a byte is an ASCII digit.
pub open spec fn spec_is_digit(b: u8) -> bool {
    0x30 <= b <= 0x39
}

/// The weight of the digit `pos` places from the end of the name: the ones
/// digit counts as written, every later digit is weighted by ten times its
/// position index.
pub open spec fn spec_weight(pos: int) -> int {
    if pos == 0 {
        1
    } else {
        10 * pos
    }
}

/// Key contribution of the digits `pos` or more places from the end; the
/// scan stops at the first non-digit.
pub open spec fn spec_suffix_key_rec(name: Seq<u8>, pos: int) -> int
    decreases name.len() - pos,
{
    if pos < 0 || pos >= name.len() {
        0
    } else {
        let b = name[name.len() - 1 - pos];
        if spec_is_digit(b) {
            (b - 0x30) * spec_weight(pos) + spec_suffix_key_rec(name, pos + 1)
        } else {
            0
        }
    }
}

/// The numeric suffix key of a port name.
pub open spec fn spec_suffix_key(name: Seq<u8>) -> int {
    spec_suffix_key_rec(name, 0)
}

/// The key is non-negative and bounded by the square of the name's length.
pub proof fn lemma_suffix_key_bound(name: Seq<u8>, pos: int)
    requires
        0 <= pos <= name.len(),
    ensures
        0 <= spec_suffix_key_rec(name, pos) <= 90 * name.len() * (name.len() - pos),
    decreases name.len() - pos,
{
    if pos >= name.len() {
    } else {
        let b = name[name.len() - 1 - pos];
        if spec_is_digit(b) {
            lemma_suffix_key_bound(name, pos + 1);
            assert((b - 0x30) * spec_weight(pos) <= 90 * name.len()) by (nonlinear_arith)
                requires
                    spec_is_digit(b),
                    0 <= pos < name.len(),
            ;
            assert(0 <= (b - 0x30) * spec_weight(pos)) by (nonlinear_arith)
                requires
                    spec_is_digit(b),
                    0 <= pos,
            ;
            assert(90 * name.len() + 90 * name.len() * (name.len() - pos - 1) == 90 * name.len() * (
            name.len() - pos)) by (nonlinear_arith);
        } else {
            assert(0 <= 90 * name.len() * (name.len() - pos)) by (nonlinear_arith)
                requires
                    0 <= pos < name.len(),
            ;
        }
    }
}

/// The numeric suffix key of a port name, executed.
pub fn suffix_key(name: &[u8]) -> (r: u64)
    requires
        name@.len() <= MAX_PORT_NAME_LEN,
    ensures
        r == spec_suffix_key(name@),
{
    let len = name.len();
    let mut key: u64 = 0;
    let mut pos: usize = 0;
    proof {
        lemma_suffix_key_bound(name@, 0);
    }
    while pos < len
        invariant
            len == name@.len() <= MAX_PORT_NAME_LEN,
            pos <= len,
            key + spec_suffix_key_rec(name@, pos as int) == spec_suffix_key(name@),
            0 <= spec_suffix_key(name@) <= 90 * name@.len() * name@.len(),
            key <= spec_suffix_key(name@),
            spec_suffix_key_rec(name@, pos as int) >= 0,
        decreases len - pos,
    {
        let b = name[len - 1 - pos];
        if b < 0x30 || b > 0x39 {
            return key;
        }
        let weight: u64 = if pos == 0 {
            1
        } else {
            10 * (pos as u64)
        };
        proof {
            lemma_suffix_key_bound(name@, pos as int);
            lemma_suffix_key_bound(name@, pos + 1);
            assert(((b - 0x30) as int) * spec_weight(pos as int) <= 90 * name@.len())
                by (nonlinear_arith)
                requires
                    spec_is_digit(b),
                    0 <= pos < name@.len(),
            ;
            assert(90 * name@.len() * name@.len() <= 90 * 100000000 * 100000000)
                by (nonlinear_arith)
                requires
                    0 <= name@.len() <= 100000000,
            ;
        }
        key = key + ((b - 0x30) as u64) * weight;
        pos = pos + 1;
    }
    key
}

/// Whether `a` outranks `b`: shorter names win, ties go to the larger
/// numeric suffix key.
pub open spec fn spec_beats(a: Seq<u8>, b: Seq<u8>) -> bool {
    a.len() < b.len() || (a.len() == b.len() && spec_suffix_key(a) > spec_suffix_key(b))
}

fn bytes_eq(a: &[u8], b: &[u8]) -> (r: bool)
    ensures
        r == (a@ == b@),
{
    if a.len() != b.len() {
        return false;
    }
    let mut i: usize = 0;
    while i < a.len()
        invariant
            i <= a@.len(),
            a@.len() == b@.len(),
            forall|k: int| 0 <= k < i ==> a@[k] == b@[k],
        decreases a@.len() - i,
    {
        if a[i] != b[i] {
            return false;
        }
        i = i + 1;
    }
    proof {
        assert(a@ =~= b@);
    }
    true
}

/// Pick a port from `names`. With a non-empty `hint`, the first name equal
/// to the hint is chosen, or none when the hint is absent. Without a hint,
/// the first name that no other name outranks is chosen; the list must be
/// non-empty for a choice to exist.
pub fn select_port(names: &Vec<Vec<u8>>, hint: &[u8]) -> (r: Option<usize>)
    requires
        forall|j: int| 0 <= j < names@.len() ==> #[trigger] names@[j]@.len() <= MAX_PORT_NAME_LEN,
    ensures
        hint@.len() > 0 ==> match r {
            Some(i) => i < names@.len() && names@[i as int]@ == hint@ && forall|j: int|
                0 <= j < i ==> #[trigger] names@[j]@ != hint@,
            None => forall|j: int| 0 <= j < names@.len() ==> #[trigger] names@[j]@ != hint@,
        },
        hint@.len() == 0 ==> match r {
            Some(i) => i < names@.len() && (forall|j: int|
                0 <= j < names@.len() ==> !spec_beats(#[trigger] names@[j]@, names@[i as int]@))
                && (forall|j: int|
                0 <= j < i ==> spec_beats(names@[i as int]@, #[trigger] names@[j]@)),
            None => names@.len() == 0,
        },
{
    if hint.len() > 0 {
        let mut i: usize = 0;
        while i < names.len()
            invariant
                hint@.len() > 0,
                i <= names@.len(),
                forall|j: int| 0 <= j < i ==> #[trigger] names@[j]@ != hint@,
            decreases names@.len() - i,
        {
            if bytes_eq(names[i].as_slice(), hint) {
                return Some(i);
            }
            i = i + 1;
        }
        return None;
    }

    if names.len() == 0 {
        return None;
    }

    let mut best: usize = 0;
    let mut best_key: u64 = suffix_key(names[0].as_slice());
    let mut i: usize = 1;
    while i < names.len()
        invariant
            best < i <= names@.len(),
            forall|j: int| 0 <= j < names@.len() ==> #[trigger] names@[j]@.len()
                <= MAX_PORT_NAME_LEN,
            best_key == spec_suffix_key(names@[best as int]@),
            forall|j: int| 0 <= j < i ==> !spec_beats(#[trigger] names@[j]@, names@[best as int]@),
            forall|j: int| 0 <= j < best ==> spec_beats(names@[best as int]@, #[trigger] names@[j]@),
        decreases names@.len() - i,
    {
        let candidate_key = suffix_key(names[i].as_slice());
        let beats = names[i].len() < names[best].len() || (names[i].len() == names[best].len()
            && candidate_key > best_key);
        if beats {
            proof {
                assert forall|j: int| 0 <= j < i implies spec_beats(
                    names@[i as int]@,
                    #[trigger] names@[j]@,
                ) by {
                    assert(!spec_beats(names@[j]@, names@[best as int]@));
                }
            }
            best = i;
            best_key = candidate_key;
        }
        i = i + 1;
    }
    Some(best)
}

} // verus!
