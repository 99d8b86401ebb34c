//! The version-directory name grammar and its verified matcher, together
//! with the discovery step that filters a directory listing down to valid
//! toolchain versions.
//!
//! A valid version identifier has the shape
//! `<four digits> '.' <digits> '.' <digits> <letter> <digits>`,
//! e.g. `2022.3.5f1`: year, minor, patch, release-type letter, build number.
use vstd::prelude::*;

verus! {

/// A decimal digit.
pub open spec fn is_digit(c: char) -> bool {
    '0' <= c && c <= '9'
}

/// An ASCII letter (the release-type marker).
pub open spec fn is_release_letter(c: char) -> bool {
    ('a' <= c && c <= 'z') || ('A' <= c && c <= 'Z')
}

/// `j` is the position of the second dot and `k` the position of the
/// release letter in a well-shaped version identifier.
pub open spec fn version_shape(s: Seq<char>, j: int, k: int) -> bool {
    &&& 5 < j
    &&& j + 1 < k
    &&& k + 1 < s.len()
    &&& (forall|i: int| 0 <= i < 4 ==> is_digit(#[trigger] s[i]))
    &&& s[4] == '.'
    &&& (forall|i: int| 5 <= i < j ==> is_digit(#[trigger] s[i]))
    &&& s[j] == '.'
    &&& (forall|i: int| j < i < k ==> is_digit(#[trigger] s[i]))
    &&& is_release_letter(s[k])
    &&& (forall|i: int| k < i < s.len() ==> is_digit(#[trigger] s[i]))
}

/// A version identifier: four digits, a dot, at least one digit, a dot,
/// at least one digit, one letter, at least one digit.
pub open spec fn is_version_id(s: Seq<char>) -> bool {
    exists|j: int, k: int| version_shape(s, j, k)
}

/// In a well-shaped identifier the second dot can only sit where a maximal
/// digit run that starts at position 5 ends.
proof fn lemma_second_dot_forced(s: Seq<char>, e: int, j: int, k: int)
    requires
        version_shape(s, j, k),
        5 <= e <= s.len(),
        forall|i: int| 5 <= i < e ==> is_digit(#[trigger] s[i]),
        e == s.len() || !is_digit(s[e]),
    ensures
        j == e,
{
    if j < e {
        assert(is_digit(s[j]));
        assert(false);
    }
    if j > e {
        assert(e < s.len());
        assert(is_digit(s[e]));
        assert(false);
    }
}

/// In a well-shaped identifier whose second dot is at `j`, the release
/// letter can only sit where a maximal digit run that starts right after
/// the dot ends.
proof fn lemma_letter_forced(s: Seq<char>, j: int, e: int, k: int)
    requires
        version_shape(s, j, k),
        j + 1 <= e <= s.len(),
        forall|i: int| j + 1 <= i < e ==> is_digit(#[trigger] s[i]),
        e == s.len() || !is_digit(s[e]),
    ensures
        k == e,
{
    if k < e {
        assert(is_digit(s[k]));
        assert(false);
    }
    if k > e {
        assert(e < s.len());
        assert(is_digit(s[e]));
        assert(false);
    }
}

/// First position at or after `from` that does not hold a digit
/// (or the end of the string).
fn digit_run_end(s: &str, from: usize) -> (e: usize)
    requires
        from <= s@.len(),
    ensures
        from <= e <= s@.len(),
        forall|i: int| from <= i < e ==> is_digit(#[trigger] s@[i]),
        e < s@.len() ==> !is_digit(s@[e as int]),
{
    let n = s.unicode_len();
    let mut e = from;
    while e < n
        invariant
            from <= e <= n,
            n == s@.len(),
            forall|i: int| from <= i < e ==> is_digit(#[trigger] s@[i]),
        decreases n - e,
    {
        let c = s.get_char(e);
        if !(c >= '0' && c <= '9') {
            return e;
        }
        e = e + 1;
    }
    e
}

/// Decides whether `s` is a valid version identifier.
pub fn is_version_name(s: &str) -> (b: bool)
    ensures
        b == is_version_id(s@),
{
    let n = s.unicode_len();
    if n < 10 {
        proof {
            assert(forall|j: int, k: int| !version_shape(s@, j, k));
        }
        return false;
    }
    // Year: four digits then a dot.
    let d0 = digit_run_end(s, 0);
    if d0 < 4 {
        proof {
            assert forall|j: int, k: int| !version_shape(s@, j, k) by {
                if version_shape(s@, j, k) {
                    assert(is_digit(s@[d0 as int]));
                }
            }
        }
        return false;
    }
    if s.get_char(4) != '.' {
        return false;
    }
    // Minor revision: at least one digit, then a dot.
    let j = digit_run_end(s, 5);
    if j == 5 {
        proof {
            assert forall|j2: int, k2: int| !version_shape(s@, j2, k2) by {
                if version_shape(s@, j2, k2) {
                    assert(is_digit(s@[5]));
                }
            }
        }
        return false;
    }
    if j == n {
        proof {
            assert forall|j2: int, k2: int| !version_shape(s@, j2, k2) by {
                if version_shape(s@, j2, k2) {
                    lemma_second_dot_forced(s@, j as int, j2, k2);
                }
            }
        }
        return false;
    }
    if s.get_char(j) != '.' {
        proof {
            assert forall|j2: int, k2: int| !version_shape(s@, j2, k2) by {
                if version_shape(s@, j2, k2) {
                    lemma_second_dot_forced(s@, j as int, j2, k2);
                }
            }
        }
        return false;
    }
    // Patch revision: at least one digit, then the release letter.
    let k = digit_run_end(s, j + 1);
    if k == j + 1 {
        proof {
            assert forall|j2: int, k2: int| !version_shape(s@, j2, k2) by {
                if version_shape(s@, j2, k2) {
                    lemma_second_dot_forced(s@, j as int, j2, k2);
                    assert(is_digit(s@[j + 1]));
                }
            }
        }
        return false;
    }
    if k == n {
        proof {
            assert forall|j2: int, k2: int| !version_shape(s@, j2, k2) by {
                if version_shape(s@, j2, k2) {
                    lemma_second_dot_forced(s@, j as int, j2, k2);
                    lemma_letter_forced(s@, j as int, k as int, k2);
                }
            }
        }
        return false;
    }
    let c = s.get_char(k);
    if !((c >= 'a' && c <= 'z') || (c >= 'A' && c <= 'Z')) {
        proof {
            assert forall|j2: int, k2: int| !version_shape(s@, j2, k2) by {
                if version_shape(s@, j2, k2) {
                    lemma_second_dot_forced(s@, j as int, j2, k2);
                    lemma_letter_forced(s@, j as int, k as int, k2);
                }
            }
        }
        return false;
    }
    // Build number: at least one digit, running to the end of the name.
    let t = digit_run_end(s, k + 1);
    if t == k + 1 {
        proof {
            assert forall|j2: int, k2: int| !version_shape(s@, j2, k2) by {
                if version_shape(s@, j2, k2) {
                    lemma_second_dot_forced(s@, j as int, j2, k2);
                    lemma_letter_forced(s@, j as int, k as int, k2);
                    assert(is_digit(s@[k + 1]));
                }
            }
        }
        return false;
    }
    if t < n {
        proof {
            assert forall|j2: int, k2: int| !version_shape(s@, j2, k2) by {
                if version_shape(s@, j2, k2) {
                    lemma_second_dot_forced(s@, j as int, j2, k2);
                    lemma_letter_forced(s@, j as int, k as int, k2);
                    assert(is_digit(s@[t as int]));
                }
            }
        }
        return false;
    }
    proof {
        assert(version_shape(s@, j as int, k as int));
    }
    true
}

/// One already-read entry of a directory listing: its name and whether it
/// is a subdirectory. Entries that could not be read at all are expected
/// to have been skipped by the caller.
#[derive(Debug)]
pub struct DirEntryInfo {
    pub name: String,
    pub is_dir: bool,
}

/// The one propagated discovery failure: the root path itself could not
/// be listed. Carries the underlying cause as text.
#[derive(Debug)]
pub struct DiscoveryError {
    pub message: String,
}

impl DiscoveryError {
    /// The text of the underlying cause.
    pub fn message_text(&self) -> (m: &String)
        ensures
            m@ == self.message@,
    {
        &self.message
    }
}

/// The names among `entries` that are subdirectories with a valid version
/// name, in listing order.
pub open spec fn matching_version_names(entries: Seq<DirEntryInfo>) -> Seq<Seq<char>>
    decreases entries.len(),
{
    if entries.len() == 0 {
        Seq::empty()
    } else {
        let rest = matching_version_names(entries.drop_last());
        let e = entries.last();
        if e.is_dir && is_version_id(e.name@) {
            rest.push(e.name@)
        } else {
            rest
        }
    }
}

} // verus!
