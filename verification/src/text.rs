//! Byte-level text helpers: lexicographic order (for packing filter
//! parameters by name), substring search (for matching a network source
//! by a name fragment), and backtick escaping (for injecting CSS into a
//! JavaScript template literal).

use vstd::prelude::*;
use vstd::string::StringSliceAdditionalSpecFns;
use vstd::utf8::encode_utf8;

verus! {

/// Lexicographic order on byte strings: a proper prefix comes first,
/// otherwise the first differing byte decides.
pub open spec fn lex_le(a: Seq<u8>, b: Seq<u8>) -> bool
    decreases a.len(),
{
    if a.len() == 0 {
        true
    } else if b.len() == 0 {
        false
    } else if a[0] < b[0] {
        true
    } else if a[0] > b[0] {
        false
    } else {
        lex_le(a.drop_first(), b.drop_first())
    }
}

/// Whether `needle` occurs in `hay` starting at offset `i`.
pub open spec fn substring_at(hay: Seq<u8>, needle: Seq<u8>, i: int) -> bool {
    0 <= i && i + needle.len() <= hay.len() && hay.subrange(i, i + needle.len()) == needle
}

/// Whether `needle` occurs anywhere in `hay`.
pub open spec fn contains_seq(hay: Seq<u8>, needle: Seq<u8>) -> bool {
    exists|i: int| substring_at(hay, needle, i)
}

/// Compare two byte strings lexicographically (`a <= b`).
pub fn bytes_le(a: &[u8], b: &[u8]) -> (r: bool)
    ensures
        r == lex_le(a@, b@),
{
    let na: usize = a.len();
    let nb: usize = b.len();
    let mut i: usize = 0;
    proof {
        assert(a@.skip(0) =~= a@);
        assert(b@.skip(0) =~= b@);
    }
    loop
        invariant
            i <= na,
            i <= nb,
            na == a@.len(),
            nb == b@.len(),
            lex_le(a@, b@) == lex_le(a@.skip(i as int), b@.skip(i as int)),
        ensures
            lex_le(a@, b@) == if i < na && i < nb && a@[i as int] < b@[i as int] {
                true
            } else if i < na && i < nb && a@[i as int] > b@[i as int] {
                false
            } else {
                na - i <= nb - i && i >= na
            },
        decreases na - i,
    {
        if i >= na || i >= nb {
            break ;
        }
        if a[i] < b[i] {
            proof {
                assert(a@.skip(i as int)[0] == a@[i as int]);
                assert(b@.skip(i as int)[0] == b@[i as int]);
            }
            break ;
        }
        if a[i] > b[i] {
            proof {
                assert(a@.skip(i as int)[0] == a@[i as int]);
                assert(b@.skip(i as int)[0] == b@[i as int]);
            }
            break ;
        }
        proof {
            assert(a@.skip(i as int)[0] == a@[i as int]);
            assert(b@.skip(i as int)[0] == b@[i as int]);
            assert(a@.skip(i as int).drop_first() =~= a@.skip(i as int + 1));
            assert(b@.skip(i as int).drop_first() =~= b@.skip(i as int + 1));
        }
        i = i + 1;
    }
    if i < na && i < nb {
        a[i] < b[i]
    } else {
        proof {
            if i >= na {
                assert(a@.skip(i as int).len() == 0);
            } else {
                assert(a@.skip(i as int).len() > 0);
                assert(b@.skip(i as int).len() == 0);
            }
        }
        i >= na
    }
}

/// Lexicographic order of two string slices, by their UTF-8 bytes.
pub fn str_le(a: &str, b: &str) -> (r: bool)
    ensures
        r == lex_le(a.spec_bytes(), b.spec_bytes()),
{
    bytes_le(a.as_bytes(), b.as_bytes())
}

/// Naive substring search over bytes.
pub fn bytes_contains(hay: &[u8], needle: &[u8]) -> (r: bool)
    ensures
        r == contains_seq(hay@, needle@),
{
    let nh: usize = hay.len();
    let nn: usize = needle.len();
    if nn > nh {
        proof {
            assert forall|i: int| !substring_at(hay@, needle@, i) by {}
        }
        return false;
    }
    if nn == 0 {
        proof {
            assert(hay@.subrange(0, 0) =~= needle@);
            assert(substring_at(hay@, needle@, 0));
        }
        return true;
    }
    let mut i: usize = 0;
    while i <= nh - nn
        invariant
            nn <= nh,
            nh == hay@.len(),
            nn == needle@.len(),
            nn > 0,
            i <= nh - nn + 1,
            forall|x: int| 0 <= x < i ==> !substring_at(hay@, needle@, x),
        ensures
            (forall|x: int| 0 <= x <= nh - nn ==> !substring_at(hay@, needle@, x)),
        decreases nh + 1 - i,
    {
        let mut j: usize = 0;
        let mut matched: bool = true;
        while j < nn
            invariant
                j <= nn,
                i + nn <= nh,
                nh == hay@.len(),
                nn == needle@.len(),
                matched ==> forall|y: int| 0 <= y < j ==> hay@[i + y] == needle@[y],
                !matched ==> !substring_at(hay@, needle@, i as int),
            ensures
                matched ==> forall|y: int| 0 <= y < nn ==> hay@[i + y] == needle@[y],
                !matched ==> !substring_at(hay@, needle@, i as int),
            decreases nn - j,
        {
            if hay[i + j] != needle[j] {
                proof {
                    if substring_at(hay@, needle@, i as int) {
                        assert(hay@.subrange(i as int, i + nn)[j as int] == needle@[j as int]);
                    }
                }
                matched = false;
                break ;
            }
            j = j + 1;
        }
        if matched {
            proof {
                assert(hay@.subrange(i as int, i + nn) =~= needle@);
                assert(substring_at(hay@, needle@, i as int));
            }
            return true;
        }
        i = i + 1;
    }
    proof {
        assert forall|x: int| !substring_at(hay@, needle@, x) by {
            if 0 <= x && x + needle@.len() <= hay@.len() {
                assert(!substring_at(hay@, needle@, x));
            }
        }
    }
    false
}

/// Whether `needle` occurs in `hay`, by their UTF-8 bytes.
pub fn str_contains_str(hay: &str, needle: &str) -> (r: bool)
    ensures
        r == contains_seq(hay.spec_bytes(), needle.spec_bytes()),
{
    bytes_contains(hay.as_bytes(), needle.as_bytes())
}

/// The byte string with every backtick preceded by a backslash, so that
/// it can stand inside a JavaScript template literal.
pub open spec fn backtick_escaped(s: Seq<u8>) -> Seq<u8>
    decreases s.len(),
{
    if s.len() == 0 {
        Seq::empty()
    } else {
        backtick_escaped(s.drop_last()) + if s.last() == 0x60u8 {
            seq![0x5cu8, 0x60u8]
        } else {
            seq![s.last()]
        }
    }
}

/// Escape backticks in a byte string for a template literal.
pub fn escape_backticks(s: &[u8]) -> (r: Vec<u8>)
    ensures
        r@ == backtick_escaped(s@),
{
    let n: usize = s.len();
    let mut out: Vec<u8> = Vec::new();
    let mut i: usize = 0;
    while i < n
        invariant
            i <= n,
            n == s@.len(),
            out@ == backtick_escaped(s@.take(i as int)),
        decreases n - i,
    {
        let c: u8 = s[i];
        if c == 0x60 {
            out.push(0x5c);
            out.push(0x60);
        } else {
            out.push(c);
        }
        i = i + 1;
        proof {
            let t = s@.take(i as int);
            assert(t.drop_last() =~= s@.take(i as int - 1));
            assert(t.last() == s@[i as int - 1]);
            assert(out@ =~= backtick_escaped(t));
        }
    }
    proof {
        assert(s@.take(n as int) =~= s@);
    }
    out
}

/// The first of the visible source names that contains the wanted
/// fragment, by their UTF-8 bytes; none if no name matches.
pub fn find_source_index(names: &Vec<String>, wanted: &str) -> (r: Option<usize>)
    ensures
        match r {
            Some(i) => 0 <= i < names@.len() && contains_seq(
                encode_utf8(names@[i as int]@),
                wanted.spec_bytes(),
            ) && forall|j: int|
                0 <= j < i ==> !contains_seq(
                    encode_utf8((#[trigger] names@[j])@),
                    wanted.spec_bytes(),
                ),
            None => forall|j: int|
                0 <= j < names@.len() ==> !contains_seq(
                    encode_utf8((#[trigger] names@[j])@),
                    wanted.spec_bytes(),
                ),
        },
{
    let n: usize = names.len();
    let mut i: usize = 0;
    while i < n
        invariant
            i <= n,
            n == names@.len(),
            forall|j: int|
                0 <= j < i ==> !contains_seq(
                    encode_utf8((#[trigger] names@[j])@),
                    wanted.spec_bytes(),
                ),
        decreases n - i,
    {
        if str_contains_str(names[i].as_str(), wanted) {
            return Some(i);
        }
        i = i + 1;
    }
    None
}

} // verus!
