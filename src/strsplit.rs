use vstd::prelude::*;
use vstd::string::StringSliceAdditionalSpecFns;
use vstd::utf8::{encode_utf8, is_char_boundary, valid_utf8};

verus! {

/// The pattern `p` occurs in the text `h` at byte `i`, and both ends of the
/// occurrence fall on character boundaries.
pub open spec fn matches_at(h: Seq<u8>, p: Seq<u8>, i: int) -> bool {
    &&& 0 <= i
    &&& i + p.len() <= h.len()
    &&& h.subrange(i, i + p.len()) == p
    &&& is_char_boundary(h, i)
    &&& is_char_boundary(h, i + p.len())
}

/// The first byte at or after `k` where `p` occurs in `h`.
pub open spec fn first_match_from(h: Seq<u8>, p: Seq<u8>, k: int) -> Option<int>
    decreases h.len() + 1 - k,
{
    if k < 0 || k > h.len() {
        None
    } else if matches_at(h, p, k) {
        Some(k)
    } else {
        first_match_from(h, p, k + 1)
    }
}

/// Where a delimiter first occurs in a text: the byte range it covers.
pub trait Delimeter {
    spec fn next_match(&self, s: Seq<u8>) -> Option<(int, int)>;

    /// Finds the byte range of the first occurrence of the delimiter in `s`.
    fn find_next(&self, s: &str) -> (r: Option<(usize, usize)>)
        ensures
            match r {
                Some((a, b)) => self.next_match(s.spec_bytes()) == Some((a as int, b as int)),
                None => self.next_match(s.spec_bytes()) is None,
            },
            match r {
                Some((a, b)) => a <= b <= s.spec_bytes().len()
                    && is_char_boundary(s.spec_bytes(), a as int)
                    && is_char_boundary(s.spec_bytes(), b as int),
                None => true,
            },
    ;
}

/// Tests whether the bytes of `p` stand in `h` at `i`.
fn bytes_at(h: &[u8], p: &[u8], i: usize) -> (r: bool)
    requires
        i + p@.len() <= h@.len(),
    ensures
        r == (h@.subrange(i as int, i + p@.len()) == p@),
{
    let hl = h.len();
    let mut j: usize = 0;
    while j < p.len()
        invariant
            h@.len() == hl,
            i + p@.len() <= h@.len(),
            j <= p@.len(),
            h@.subrange(i as int, i + j) == p@.take(j as int),
        decreases p@.len() - j,
    {
        if h[i + j] != p[j] {
            assert(h@.subrange(i as int, i + p@.len())[j as int] != p@[j as int]);
            return false;
        }
        j += 1;
        assert(h@.subrange(i as int, i + j) =~= p@.take(j as int));
    }
    assert(p@.take(j as int) =~= p@);
    true
}

/// Tests whether byte `i` of valid UTF-8 text starts a character or ends
/// the text.
fn boundary_at(h: &[u8], i: usize) -> (r: bool)
    requires
        valid_utf8(h@),
        i <= h@.len(),
    ensures
        r == is_char_boundary(h@, i as int),
{
    proof {
        vstd::utf8::is_char_boundary_start_end_of_seq(h@);
    }
    if i == h.len() {
        true
    } else {
        proof {
            vstd::utf8::is_char_boundary_iff_not_is_continuation_byte(h@, i as int);
        }
        !(0x80 <= h[i] && h[i] <= 0xbf)
    }
}

impl<'a> Delimeter for &'a str {
    open spec fn next_match(&self, s: Seq<u8>) -> Option<(int, int)> {
        match first_match_from(s, (*self).spec_bytes(), 0) {
            Some(i) => Some((i, i + (*self).spec_bytes().len())),
            None => None,
        }
    }

    fn find_next(&self, s: &str) -> (r: Option<(usize, usize)>) {
        let h = s.as_bytes();
        let p = self.as_bytes();
        let ghost hb = s.spec_bytes();
        let ghost pb = (*self).spec_bytes();
        proof {
            vstd::utf8::encode_utf8_valid_utf8(s@);
        }
        let mut i: usize = 0;
        while i <= h.len()
            invariant
                hb == s.spec_bytes(),
                pb == (*self).spec_bytes(),
                h@ == hb,
                valid_utf8(hb),
                p@ == pb,
                i <= h@.len() + 1,
                first_match_from(hb, pb, 0) == first_match_from(hb, pb, i as int),
            decreases h@.len() + 1 - i,
        {
            if p.len() <= h.len() - i && boundary_at(h, i) && boundary_at(h, i + p.len())
                && bytes_at(h, p, i) {
                assert(matches_at(hb, pb, i as int));
                assert(first_match_from(hb, pb, i as int) == Some(i as int));
                return Some((i, i + p.len()));
            }
            if i == h.len() {
                assert(first_match_from(hb, pb, i + 1) == None::<int>);
                return None;
            }
            i += 1;
        }
        None
    }
}

/// Splits a text at each occurrence of a delimiter, yielding the pieces in
/// order; the piece after the last delimiter is yielded too, even when empty.
pub struct StrSplit<'haystack, D> {
    remainder: Option<&'haystack str>,
    delimeter: D,
}

impl<'haystack, D> StrSplit<'haystack, D> {
    /// What is left to split, or `None` once the last piece was yielded.
    pub closed spec fn remainder(&self) -> Option<&'haystack str> {
        self.remainder
    }

    pub closed spec fn delimeter(&self) -> D {
        self.delimeter
    }

    /// Starts splitting `haystack` at `delimeter`.
    pub fn new(haystack: &'haystack str, delimeter: D) -> (r: Self)
        ensures
            r.remainder() == Some(haystack),
            r.delimeter() == delimeter,
    {
        Self { remainder: Some(haystack), delimeter }
    }
}

impl<'haystack, D: Delimeter> StrSplit<'haystack, D> {
    /// Yields the text up to the next delimiter and keeps what follows it;
    /// without a further delimiter, yields all that is left and ends.
    pub fn next(&mut self) -> (r: Option<&'haystack str>)
        ensures
            final(self).delimeter() == old(self).delimeter(),
            match old(self).remainder() {
                None => r is None && final(self).remainder() is None,
                Some(rem) => match old(self).delimeter().next_match(rem.spec_bytes()) {
                    Some((a, b)) => {
                        &&& r is Some
                        &&& r->Some_0.spec_bytes() == rem.spec_bytes().subrange(0, a)
                        &&& final(self).remainder() is Some
                        &&& final(self).remainder()->Some_0.spec_bytes() == rem.spec_bytes().subrange(
                            b,
                            rem.spec_bytes().len() as int,
                        )
                    },
                    None => r == Some(rem) && final(self).remainder() is None,
                },
            },
    {
        let rem = match self.remainder {
            Some(r) => r,
            None => {
                return None;
            },
        };
        match self.delimeter.find_next(rem) {
            Some((a, b)) => {
                let (head, _) = rem.split_at(a);
                let (_, tail) = rem.split_at(b);
                self.remainder = Some(tail);
                Some(head)
            },
            None => {
                self.remainder = None;
                Some(rem)
            },
        }
    }
}

/// Relies on std's `From<char> for String`: a string of that one character.
#[verifier::external_body]
fn char_text(c: char) -> (r: String)
    ensures
        r@ == seq![c],
{
    String::from(c)
}

/// The text of `s` before the first occurrence of `c`, or all of `s` where
/// `c` does not occur.
pub fn until_char(s: &str, c: char) -> (r: &str)
    ensures
        r.spec_bytes() == match first_match_from(s.spec_bytes(), encode_utf8(seq![c]), 0) {
            Some(i) => s.spec_bytes().subrange(0, i),
            None => s.spec_bytes(),
        },
{
    let d = char_text(c);
    let ds = d.as_str();
    assert(ds.spec_bytes() == encode_utf8(seq![c]));
    let mut split = StrSplit::new(s, ds);
    match split.next() {
        Some(r) => r,
        None => s,
    }
}

} // verus!
