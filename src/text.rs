//! Small string helpers over std that the rest of the library builds on.

use vstd::prelude::*;
use vstd::std_specs::iter::IteratorSpec;
use vstd::string::StringSliceAdditionalSpecFns;
use vstd::utf8::{decode_utf8, valid_utf8};

verus! {

/// The characters of `s`, in order.
pub(crate) fn chars_of(s: &str) -> (r: Vec<char>)
    ensures
        r@ == s@,
{
    broadcast use vstd::string::group_string_axioms;

    let mut it = s.chars();
    let mut out: Vec<char> = Vec::new();
    assert(out@ + it.remaining() =~= s@);
    loop
        invariant
            out@ + it.remaining() == s@,
            it.decrease() is Some,
        ensures
            out@ == s@,
        decreases it.decrease()->0,
    {
        match it.next() {
            Some(c) => {
                out.push(c);
                assert(out@ + it.remaining() =~= s@);
            },
            None => {
                assert(out@ =~= s@);
                break;
            },
        }
    }
    out
}

/// Relies on `String::push`: appends one character.
#[verifier::external_body]
pub(crate) fn push_char(s: &mut String, c: char)
    ensures
        final(s)@ == old(s)@.push(c),
{
    s.push(c)
}

/// A string that holds the characters of `v`, built with verified pushes.
pub fn string_of(v: &Vec<char>) -> (r: String)
    ensures
        r@ == v@,
{
    let mut s = String::new();
    let mut i: usize = 0;
    while i < v.len()
        invariant
            i <= v.len(),
            s@ == v@.take(i as int),
        decreases v.len() - i,
    {
        push_char(&mut s, v[i]);
        i += 1;
        assert(s@ =~= v@.take(i as int));
    }
    assert(v@.take(v.len() as int) =~= v@);
    s
}

/// The UTF-8 bytes of `s`.
pub fn string_to_bytes(s: &str) -> (r: Vec<u8>)
    ensures
        r@ == s.spec_bytes(),
{
    let b = s.as_bytes();
    let mut out: Vec<u8> = Vec::new();
    let mut i: usize = 0;
    while i < b.len()
        invariant
            i <= b.len(),
            out@ == b@.take(i as int),
        decreases b.len() - i,
    {
        out.push(b[i]);
        i += 1;
        assert(out@ =~= b@.take(i as int));
    }
    assert(b@.take(b.len() as int) =~= b@);
    out
}

/// What `String::from_utf8_lossy` makes of a byte sequence.
pub uninterp spec fn utf8_lossy(b: Seq<u8>) -> Seq<char>;

/// Relies on `String::from_utf8_lossy`: valid UTF-8 decodes to its
/// characters; each invalid sequence becomes U+FFFD.
#[verifier::external_body]
pub fn bytes_to_string(bytes: &[u8]) -> (r: String)
    ensures
        r@ == utf8_lossy(bytes@),
        valid_utf8(bytes@) ==> r@ == decode_utf8(bytes@),
{
    String::from_utf8_lossy(bytes).to_string()
}

/// The text after the last `/` (all of it when there is none).
pub open spec fn last_segment(s: Seq<char>) -> Seq<char>
    decreases s.len(),
{
    if s.len() == 0 {
        Seq::empty()
    } else if s.last() == '/' {
        Seq::empty()
    } else {
        last_segment(s.drop_last()).push(s.last())
    }
}

/// The last `/`-separated part of a path.
pub fn last_path(file_path: &str) -> (r: String)
    ensures
        r@ == last_segment(file_path@),
{
    let v = chars_of(file_path);
    let mut start: usize = 0;
    let mut i: usize = 0;
    while i < v.len()
        invariant
            start <= i <= v.len(),
            v@ == file_path@,
            last_segment(v@.take(i as int)) == v@.subrange(start as int, i as int),
        decreases v.len() - i,
    {
        assert(v@.take(i as int + 1).drop_last() =~= v@.take(i as int));
        if v[i] == '/' {
            start = i + 1;
            assert(v@.subrange(start as int, i as int + 1) =~= Seq::<char>::empty());
        } else {
            assert(v@.subrange(start as int, i as int + 1) =~= v@.subrange(
                start as int,
                i as int,
            ).push(v[i as int]));
        }
        i += 1;
    }
    assert(v@.take(v.len() as int) =~= v@);
    let mut s = String::new();
    let mut k: usize = start;
    while k < v.len()
        invariant
            start <= k <= v.len(),
            s@ == v@.subrange(start as int, k as int),
        decreases v.len() - k,
    {
        push_char(&mut s, v[k]);
        k += 1;
        assert(s@ =~= v@.subrange(start as int, k as int));
    }
    s
}

} // verus!
