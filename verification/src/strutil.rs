//! Character-level string helpers: exact prefix matching for device names,
//! and ASCII-case-insensitive equality for UUIDs, whose comparisons
//! disregard case throughout the broker.

use vstd::prelude::*;

verus! {

/// Whether `prefix` is a prefix of `s`, character by character.
pub fn string_starts_with(s: &String, prefix: &String) -> (r: bool)
    ensures
        r == prefix@.is_prefix_of(s@),
{
    let sl: &str = s.as_str();
    let pl: &str = prefix.as_str();
    let ns = sl.unicode_len();
    let np = pl.unicode_len();
    if np > ns {
        assert(!prefix@.is_prefix_of(s@));
        return false;
    }
    let mut i: usize = 0;
    while i < np
        invariant
            ns == sl@.len(),
            np == pl@.len(),
            np <= ns,
            sl@ == s@,
            pl@ == prefix@,
            0 <= i <= np,
            forall|j: int| 0 <= j < i ==> pl@[j] == sl@[j],
        decreases np - i,
    {
        if pl.get_char(i) != sl.get_char(i) {
            assert(!prefix@.is_prefix_of(s@));
            return false;
        }
        i = i + 1;
    }
    proof {
        assert(prefix@ =~= s@.subrange(0, np as int));
    }
    true
}


/// The ASCII-lowercase image of a character: the letters 'A' to 'Z' map to
/// their lowercase forms; every other character is unchanged.
pub open spec fn spec_lower_char(c: char) -> char {
    if 'A' <= c && c <= 'Z' {
        (((c as u8) + 32) as char)
    } else {
        c
    }
}

/// The ASCII-lowercase image of a string's characters.
pub open spec fn spec_lower(s: Seq<char>) -> Seq<char> {
    s.map_values(|c: char| spec_lower_char(c))
}

/// Whether two UUID strings are equal up to ASCII case.
pub open spec fn spec_uuid_eq(a: Seq<char>, b: Seq<char>) -> bool {
    spec_lower(a) == spec_lower(b)
}

fn lower_char(c: char) -> (r: char)
    ensures
        r == spec_lower_char(c),
{
    if 'A' <= c && c <= 'Z' {
        ((c as u8) + 32) as char
    } else {
        c
    }
}

/// Whether `a` and `b` are the same UUID up to ASCII case.
pub fn uuid_eq(a: &String, b: &String) -> (r: bool)
    ensures
        r == spec_uuid_eq(a@, b@),
{
    let sa: &str = a.as_str();
    let sb: &str = b.as_str();
    let na = sa.unicode_len();
    let nb = sb.unicode_len();
    if na != nb {
        proof {
            assert(spec_lower(a@).len() != spec_lower(b@).len());
        }
        return false;
    }
    let mut i: usize = 0;
    while i < na
        invariant
            na == sa@.len(),
            nb == sb@.len(),
            na == nb,
            sa@ == a@,
            sb@ == b@,
            0 <= i <= na,
            forall|j: int|
                0 <= j < i ==> spec_lower_char(#[trigger] a@[j]) == spec_lower_char(b@[j]),
        decreases na - i,
    {
        if lower_char(sa.get_char(i)) != lower_char(sb.get_char(i)) {
            proof {
                assert(spec_lower(a@)[i as int] != spec_lower(b@)[i as int]);
            }
            return false;
        }
        i = i + 1;
    }
    proof {
        assert(spec_lower(a@) =~= spec_lower(b@));
    }
    true
}

/// Whether some element of `v` is the same UUID as `s` up to ASCII case.
pub fn vec_contains_uuid(v: &Vec<String>, s: &String) -> (r: bool)
    ensures
        r == exists|i: int| 0 <= i < v@.len() && spec_uuid_eq((#[trigger] v@[i])@, s@),
{
    let n = v.len();
    let mut i: usize = 0;
    while i < n
        invariant
            n == v@.len(),
            0 <= i <= n,
            forall|j: int| 0 <= j < i ==> !spec_uuid_eq((#[trigger] v@[j])@, s@),
        decreases n - i,
    {
        if uuid_eq(&v[i], s) {
            return true;
        }
        i = i + 1;
    }
    false
}

} // verus!
