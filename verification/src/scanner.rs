//! Object scanner: locates on-chain object identifiers embedded in
//! serialized payload text.
//!
//! An object identifier is two lowercase letters, an underscore, then 38 to
//! 60 characters from a base58-style alphabet (digits 1-9, uppercase letters
//! without I and O, lowercase letters without l). Matching is purely
//! lexical, scanning left to right; each match is greedy (up to 60 body
//! characters) and the scan resumes after the end of a match, so matches do
//! not overlap.

use vstd::prelude::*;

verus! {

/// A lowercase ASCII letter, as allowed for the two-letter prefix.
pub open spec fn is_prefix_char(c: char) -> bool {
    'a' <= c && c <= 'z'
}

/// A character of the base58-style body alphabet: digits 1-9, uppercase
/// letters without I and O, lowercase letters without l.
pub open spec fn is_body_char(c: char) -> bool {
    ('1' <= c && c <= '9') || ('A' <= c && c <= 'Z' && c != 'I' && c != 'O') || ('a' <= c && c
        <= 'z' && c != 'l')
}

/// Length of the maximal run of body characters starting at position `i`.
pub open spec fn body_run_len(s: Seq<char>, i: int) -> int
    decreases s.len() - i,
{
    if i < 0 || i >= s.len() || !is_body_char(s[i]) {
        0
    } else {
        1 + body_run_len(s, i + 1)
    }
}

/// Length of the identifier match starting at position `i`, or 0 if no
/// identifier starts there. A match needs two lowercase letters, an
/// underscore, and a body run of at least 38 characters; it consumes at
/// most 60 body characters.
pub open spec fn match_len_at(s: Seq<char>, i: int) -> int {
    if 0 <= i && i + 3 <= s.len() && is_prefix_char(s[i]) && is_prefix_char(s[i + 1]) && s[i + 2]
        == '_' {
        let run = body_run_len(s, i + 3);
        if run >= 38 {
            3 + if run <= 60 {
                run
            } else {
                60
            }
        } else {
            0
        }
    } else {
        0
    }
}

/// The set of identifiers found by scanning `s` from position `i` to the
/// end: at each position, take the match starting there if any and resume
/// after it, otherwise move one character on.
pub open spec fn scan_set(s: Seq<char>, i: int) -> Set<Seq<char>>
    decreases s.len() - i when 0 <= i
{
    if i >= s.len() {
        Set::empty()
    } else {
        let m = match_len_at(s, i);
        if 1 <= m && i + m <= s.len() {
            scan_set(s, i + m).insert(s.subrange(i, i + m))
        } else {
            scan_set(s, i + 1)
        }
    }
}

/// The identifiers found in the whole of `s`.
pub open spec fn objects_of(s: Seq<char>) -> Set<Seq<char>> {
    scan_set(s, 0)
}

/// True if some element of `l` has `o` as its character sequence.
pub open spec fn contains_str(l: Seq<String>, o: Seq<char>) -> bool {
    exists|j: int| 0 <= j < l.len() && #[trigger] l[j]@ == o
}

/// True if no two elements of `l` have the same character sequence.
pub open spec fn distinct_strs(l: Seq<String>) -> bool {
    forall|j1: int, j2: int| 0 <= j1 < j2 < l.len() ==> #[trigger] l[j1]@ != #[trigger] l[j2]@
}

/// A body run is bounded by the end of the sequence.
proof fn lemma_body_run_len_bound(s: Seq<char>, i: int)
    requires
        0 <= i <= s.len(),
    ensures
        0 <= body_run_len(s, i) <= s.len() - i,
    decreases s.len() - i,
{
    if i < s.len() && is_body_char(s[i]) {
        lemma_body_run_len_bound(s, i + 1);
    }
}

/// A match never runs past the end of the sequence.
proof fn lemma_match_len_at_bound(s: Seq<char>, i: int)
    requires
        0 <= i <= s.len(),
    ensures
        0 <= match_len_at(s, i),
        i + match_len_at(s, i) <= s.len(),
        match_len_at(s, i) == 0 || 41 <= match_len_at(s, i) <= 63,
{
    if 0 <= i && i + 3 <= s.len() {
        lemma_body_run_len_bound(s, i + 3);
    }
}

/// The body run at `i` is exactly `t` when the `t` characters from `i` are
/// body characters and the run then ends (end of text or a non-body
/// character).
proof fn lemma_body_run_len_exact(s: Seq<char>, i: int, t: int)
    requires
        0 <= i,
        0 <= t,
        i + t <= s.len(),
        forall|x: int| i <= x < i + t ==> is_body_char(#[trigger] s[x]),
        i + t == s.len() || !is_body_char(s[i + t]),
    ensures
        body_run_len(s, i) == t,
    decreases t,
{
    if t > 0 {
        lemma_body_run_len_exact(s, i + 1, t - 1);
    }
}

/// A run of `t` body characters from `i` makes the body run at `i` at
/// least `t`.
proof fn lemma_body_run_len_at_least(s: Seq<char>, i: int, t: int)
    requires
        0 <= i,
        0 <= t,
        i + t <= s.len(),
        forall|x: int| i <= x < i + t ==> is_body_char(#[trigger] s[x]),
    ensures
        body_run_len(s, i) >= t,
    decreases t,
{
    lemma_body_run_len_bound(s, i);
    if t > 0 {
        assert(is_body_char(s[i]));
        lemma_body_run_len_at_least(s, i + 1, t - 1);
    }
}

/// Executable test for membership in the body alphabet.
fn is_body_char_exec(c: char) -> (r: bool)
    ensures
        r == is_body_char(c),
{
    ('1' <= c && c <= '9') || ('A' <= c && c <= 'Z' && c != 'I' && c != 'O') || ('a' <= c && c
        <= 'z' && c != 'l')
}

/// Whether a prefix-underscore match head stands at position `i`, and if so
/// how long the body run is, computed executably.
fn match_len_at_exec(tx: &str, i: usize, n: usize) -> (m: usize)
    requires
        n == tx@.len(),
        i < n,
    ensures
        m as int == match_len_at(tx@, i as int),
{
    if n - i < 3 {
        proof {
            assert(match_len_at(tx@, i as int) == 0);
        }
        return 0;
    }
    let c0 = tx.get_char(i);
    let c1 = tx.get_char(i + 1);
    let c2 = tx.get_char(i + 2);
    if !(('a' <= c0 && c0 <= 'z') && ('a' <= c1 && c1 <= 'z') && c2 == '_') {
        return 0;
    }
    let start: usize = i + 3;
    let mut j: usize = start;
    while j < n && j - start < 60 && is_body_char_exec(tx.get_char(j))
        invariant
            n == tx@.len(),
            i + 3 == start,
            start <= j <= n,
            j - start <= 60,
            forall|x: int| start <= x < j ==> is_body_char(#[trigger] tx@[x]),
        decreases n - j,
    {
        j = j + 1;
    }
    let run: usize = j - start;
    proof {
        if run < 60 {
            // the loop stopped at the end of the run
            lemma_body_run_len_exact(tx@, start as int, run as int);
        } else {
            lemma_body_run_len_at_least(tx@, start as int, 60);
        }
    }
    if run >= 38 {
        3 + run
    } else {
        0
    }
}

/// True if some element of `v` equals `s`, character for character.
fn vec_contains_str(v: &Vec<String>, s: &String) -> (r: bool)
    ensures
        r == contains_str(v@, s@),
{
    let mut k: usize = 0;
    while k < v.len()
        invariant
            k <= v.len(),
            forall|j: int| 0 <= j < k ==> #[trigger] v@[j]@ != s@,
        decreases v.len() - k,
    {
        if v[k].eq(s) {
            return true;
        }
        k = k + 1;
    }
    false
}

/// Scan serialized payload text for embedded object identifiers and return
/// them deduplicated. Purely lexical: an identifier anywhere in the text is
/// found, whatever the payload's structure.
pub fn get_objects(tx: &str) -> (r: Vec<String>)
    ensures
        forall|o: Seq<char>| #[trigger] contains_str(r@, o) <==> objects_of(tx@).contains(o),
        distinct_strs(r@),
{
    let n = tx.unicode_len();
    let mut r: Vec<String> = Vec::new();
    let mut i: usize = 0;
    while i < n
        invariant
            n == tx@.len(),
            i <= n,
            distinct_strs(r@),
            forall|o: Seq<char>|
                #![trigger contains_str(r@, o)]
                #![trigger scan_set(tx@, i as int).contains(o)]
                #![trigger objects_of(tx@).contains(o)]
                (contains_str(r@, o) || scan_set(tx@, i as int).contains(o)) <==> objects_of(
                    tx@,
                ).contains(o),
        decreases n - i,
    {
        let m = match_len_at_exec(tx, i, n);
        proof {
            lemma_match_len_at_bound(tx@, i as int);
        }
        if m > 0 {
            let ghost tok_spec: Seq<char> = tx@.subrange(i as int, i as int + m as int);
            proof {
                assert(scan_set(tx@, i as int) == scan_set(tx@, i as int + m as int).insert(
                    tok_spec,
                ));
            }
            let tok_slice = tx.substring_char(i, i + m);
            let tok = tok_slice.to_owned();
            let ghost r0: Seq<String> = r@;
            if !vec_contains_str(&r, &tok) {
                r.push(tok);
                proof {
                    assert forall|o: Seq<char>| #[trigger] contains_str(r@, o) implies
                        contains_str(r0, o) || o == tok_spec by {
                        let j = choose|j: int| 0 <= j < r@.len() && #[trigger] r@[j]@ == o;
                        if j < r0.len() {
                            assert(r0[j]@ == o);
                        }
                    }
                    assert forall|o: Seq<char>| contains_str(r0, o) || o == tok_spec implies
                        #[trigger] contains_str(r@, o) by {
                        if contains_str(r0, o) {
                            let j = choose|j: int| 0 <= j < r0.len() && #[trigger] r0[j]@ == o;
                            assert(r@[j]@ == o);
                        } else {
                            assert(r@[r0.len() as int]@ == o);
                        }
                    }
                    assert forall|j1: int, j2: int| 0 <= j1 < j2 < r@.len() implies #[trigger]
                    r@[j1]@ != #[trigger] r@[j2]@ by {
                        if j2 == r@.len() - 1 {
                            assert(!contains_str(r0, tok_spec));
                            assert(r0[j1]@ != tok_spec);
                        }
                    }
                }
            }
            i = i + m;
        } else {
            proof {
                assert(scan_set(tx@, i as int) == scan_set(tx@, i as int + 1));
            }
            i = i + 1;
        }
    }
    proof {
        assert(scan_set(tx@, n as int) =~= Set::<Seq<char>>::empty());
    }
    r
}

} // verus!
