//! Byte-sequence helpers shared by the parsers: equality, substring search,
//! prefix and suffix tests, and ASCII classification.
use vstd::prelude::*;

verus! {

/// True when `c` is an ASCII decimal digit.
pub open spec fn is_digit(c: u8) -> bool {
    0x30 <= c <= 0x39
}

/// True when `c` is one of the ASCII whitespace bytes recognized by the
/// field trimmer: tab, line feed, vertical tab, form feed, carriage return,
/// or space.
pub open spec fn is_ascii_space(c: u8) -> bool {
    c == 0x09 || c == 0x0a || c == 0x0b || c == 0x0c || c == 0x0d || c == 0x20
}

/// ASCII lower-casing of a single byte; other bytes are unchanged.
pub open spec fn lower(c: u8) -> u8 {
    if 0x41 <= c <= 0x5a {
        (c + 0x20) as u8
    } else {
        c
    }
}

/// ASCII lower-casing of a byte sequence.
pub open spec fn lower_seq(s: Seq<u8>) -> Seq<u8> {
    s.map_values(|c: u8| lower(c))
}

/// True when `needle` occurs in `hay` starting at position `at`.
pub open spec fn match_at(hay: Seq<u8>, needle: Seq<u8>, at: int) -> bool {
    &&& 0 <= at
    &&& at + needle.len() <= hay.len()
    &&& hay.subrange(at, at + needle.len()) == needle
}

/// The first position at or after `from` where `needle` occurs in `hay`,
/// if there is one.
pub open spec fn first_match(hay: Seq<u8>, needle: Seq<u8>, from: int) -> Option<int>
    decreases hay.len() - from + 1,
{
    if from < 0 || from + needle.len() > hay.len() {
        None
    } else if match_at(hay, needle, from) {
        Some(from)
    } else {
        first_match(hay, needle, from + 1)
    }
}

/// `first_match` finds a match and nothing earlier.
pub proof fn lemma_first_match(hay: Seq<u8>, needle: Seq<u8>, from: int)
    requires
        0 <= from,
    ensures
        match first_match(hay, needle, from) {
            Some(i) => {
                &&& from <= i
                &&& match_at(hay, needle, i)
                &&& forall|j: int| from <= j < i ==> !match_at(hay, needle, j)
            },
            None => forall|j: int| from <= j ==> !match_at(hay, needle, j),
        },
    decreases hay.len() - from + 1,
{
    if from + needle.len() > hay.len() {
        assert forall|j: int| from <= j implies !match_at(hay, needle, j) by {}
    } else if match_at(hay, needle, from) {
    } else {
        lemma_first_match(hay, needle, from + 1);
    }
}

/// An empty needle matches at every position inside the haystack.
pub proof fn lemma_empty_match(hay: Seq<u8>, needle: Seq<u8>, at: int)
    requires
        needle.len() == 0,
        0 <= at <= hay.len(),
    ensures
        match_at(hay, needle, at),
{
    assert(hay.subrange(at, at) =~= needle);
}

/// Whether the two slices hold the same bytes.
pub fn bytes_eq(a: &[u8], b: &[u8]) -> (r: bool)
    ensures
        r == (a@ == b@),
{
    if a.len() != b.len() {
        assert(a@.len() != b@.len());
        return false;
    }
    let mut i: usize = 0;
    while i < a.len()
        invariant
            i <= a.len(),
            a.len() == b.len(),
            forall|j: int| 0 <= j < i ==> a@[j] == b@[j],
        decreases a.len() - i,
    {
        if a[i] != b[i] {
            return false;
        }
        i = i + 1;
    }
    assert(a@ =~= b@);
    true
}

/// Whether the two slices hold the same bytes up to ASCII case.
pub fn bytes_eq_ignore_case(a: &[u8], b: &[u8]) -> (r: bool)
    ensures
        r == (lower_seq(a@) == lower_seq(b@)),
{
    if a.len() != b.len() {
        assert(lower_seq(a@).len() != lower_seq(b@).len());
        return false;
    }
    let mut i: usize = 0;
    while i < a.len()
        invariant
            i <= a.len(),
            a.len() == b.len(),
            forall|j: int| 0 <= j < i ==> lower(a@[j]) == lower(b@[j]),
        decreases a.len() - i,
    {
        let ca = a[i];
        let cb = b[i];
        let la = if 0x41 <= ca && ca <= 0x5a { ca + 0x20 } else { ca };
        let lb = if 0x41 <= cb && cb <= 0x5a { cb + 0x20 } else { cb };
        if la != lb {
            assert(lower(a@[i as int]) != lower(b@[i as int]));
            assert(lower_seq(a@)[i as int] != lower_seq(b@)[i as int]);
            return false;
        }
        i = i + 1;
    }
    assert(lower_seq(a@) =~= lower_seq(b@));
    true
}

/// Whether `hay` matches `needle` at position `at`.
pub fn matches_at(hay: &[u8], needle: &[u8], at: usize) -> (r: bool)
    ensures
        r == match_at(hay@, needle@, at as int),
{
    if at > hay.len() || needle.len() > hay.len() - at {
        return false;
    }
    let mut i: usize = 0;
    while i < needle.len()
        invariant
            i <= needle.len(),
            at + needle.len() <= hay.len(),
            forall|j: int| 0 <= j < i ==> hay@[at + j] == needle@[j],
        decreases needle.len() - i,
    {
        if hay[at + i] != needle[i] {
            assert(hay@.subrange(at as int, at + needle@.len())[i as int] != needle@[i as int]);
            return false;
        }
        i = i + 1;
    }
    assert(hay@.subrange(at as int, at + needle@.len()) =~= needle@);
    true
}

/// The first occurrence of `needle` in `hay` at or after `from`.
pub fn find_from(hay: &[u8], needle: &[u8], from: usize) -> (r: Option<usize>)
    requires
        from <= hay@.len(),
    ensures
        match r {
            Some(i) => from <= i && first_match(hay@, needle@, from as int) == Some(i as int),
            None => first_match(hay@, needle@, from as int) is None,
        },
{
    if needle.len() == 0 {
        proof {
            lemma_empty_match(hay@, needle@, from as int);
        }
        return Some(from);
    }
    if needle.len() > hay.len() {
        proof {
            lemma_first_match(hay@, needle@, from as int);
            if first_match(hay@, needle@, from as int) is Some {
                let i = first_match(hay@, needle@, from as int)->Some_0;
                assert(match_at(hay@, needle@, i));
            }
        }
        return None;
    }
    let mut at: usize = from;
    let last = hay.len() - needle.len();
    while at <= last
        invariant
            from <= at,
            0 < needle@.len() <= hay@.len(),
            last == hay@.len() - needle@.len(),
            at <= hay@.len(),
            hay@.len() <= usize::MAX,
            first_match(hay@, needle@, from as int) == first_match(hay@, needle@, at as int),
        decreases hay@.len() - at,
    {
        if matches_at(hay, needle, at) {
            return Some(at);
        }
        assert(first_match(hay@, needle@, at as int) == first_match(hay@, needle@, at + 1));
        at = at + 1;
    }
    assert(first_match(hay@, needle@, at as int) is None);
    None
}

/// Whether `prefix` is a prefix of `s`.
pub fn starts_with(s: &[u8], prefix: &[u8]) -> (r: bool)
    ensures
        r == (prefix@.len() <= s@.len() && s@.subrange(0, prefix@.len() as int) == prefix@),
{
    matches_at(s, prefix, 0)
}

/// The bytes of `s` with leading and trailing ASCII whitespace removed.
pub open spec fn trim_spec(s: Seq<u8>) -> Seq<u8>
    decreases s.len(),
{
    if s.len() == 0 {
        s
    } else if is_ascii_space(s[0]) {
        trim_spec(s.drop_first())
    } else if is_ascii_space(s.last()) {
        trim_spec(s.drop_last())
    } else {
        s
    }
}

/// Whether `c` is an ASCII whitespace byte.
pub fn is_space_byte(c: u8) -> (r: bool)
    ensures
        r == is_ascii_space(c),
{
    c == 0x09 || c == 0x0a || c == 0x0b || c == 0x0c || c == 0x0d || c == 0x20
}

/// Removes leading and trailing ASCII whitespace.
pub fn trim_ascii(s: &[u8]) -> (r: Vec<u8>)
    ensures
        r@ == trim_spec(s@),
{
    let ghost whole = s@.subrange(0, s@.len() as int);
    proof {
        assert(whole =~= s@);
    }
    let mut lo: usize = 0;
    let mut hi: usize = s.len();
    while lo < hi && is_space_byte(s[lo])
        invariant
            lo <= hi <= s@.len(),
            hi == s@.len(),
            trim_spec(s@) == trim_spec(s@.subrange(lo as int, hi as int)),
        decreases hi - lo,
    {
        proof {
            let cur = s@.subrange(lo as int, hi as int);
            assert(cur[0] == s@[lo as int]);
            assert(is_ascii_space(cur[0]));
            assert(cur.drop_first() =~= s@.subrange(lo + 1, hi as int));
            assert(trim_spec(cur) == trim_spec(cur.drop_first()));
        }
        lo = lo + 1;
    }
    while lo < hi && is_space_byte(s[hi - 1])
        invariant
            lo <= hi <= s@.len(),
            trim_spec(s@) == trim_spec(s@.subrange(lo as int, hi as int)),
            lo < hi ==> !is_ascii_space(s@[lo as int]),
        decreases hi - lo,
    {
        proof {
            let cur = s@.subrange(lo as int, hi as int);
            assert(cur[0] == s@[lo as int]);
            assert(!is_ascii_space(cur[0]));
            assert(cur.last() == s@[hi - 1]);
            assert(is_ascii_space(cur.last()));
            assert(cur.drop_last() =~= s@.subrange(lo as int, hi - 1));
            assert(trim_spec(cur) == trim_spec(cur.drop_last()));
        }
        hi = hi - 1;
    }
    let mut out: Vec<u8> = Vec::new();
    let mut i: usize = lo;
    while i < hi
        invariant
            lo <= i <= hi <= s@.len(),
            out@ == s@.subrange(lo as int, i as int),
        decreases hi - i,
    {
        out.push(s[i]);
        proof {
            assert(out@ =~= s@.subrange(lo as int, i + 1));
        }
        i = i + 1;
    }
    proof {
        let cur = s@.subrange(lo as int, hi as int);
        assert(out@ =~= cur);
        if lo < hi {
            assert(!is_ascii_space(cur[0]));
            assert(!is_ascii_space(cur.last()));
            assert(trim_spec(cur) == cur);
        } else {
            assert(cur.len() == 0);
            assert(trim_spec(cur) == cur);
        }
    }
    out
}

/// A copy of the byte range `[from, to)` of `s`.
pub fn sub_bytes(s: &[u8], from: usize, to: usize) -> (r: Vec<u8>)
    requires
        from <= to <= s@.len(),
    ensures
        r@ == s@.subrange(from as int, to as int),
{
    let mut out: Vec<u8> = Vec::new();
    let mut i: usize = from;
    while i < to
        invariant
            from <= i <= to <= s@.len(),
            out@ == s@.subrange(from as int, i as int),
        decreases to - i,
    {
        out.push(s[i]);
        proof {
            assert(out@ =~= s@.subrange(from as int, i + 1));
        }
        i = i + 1;
    }
    out
}

/// The ASCII lower-casing of a byte slice.
pub fn lower_vec(s: &[u8]) -> (r: Vec<u8>)
    ensures
        r@ == lower_seq(s@),
{
    let mut out: Vec<u8> = Vec::new();
    let mut i: usize = 0;
    while i < s.len()
        invariant
            i <= s@.len(),
            out@ == lower_seq(s@).subrange(0, i as int),
        decreases s@.len() - i,
    {
        let c = s[i];
        let lo = if 0x41 <= c && c <= 0x5a {
            c + 0x20
        } else {
            c
        };
        out.push(lo);
        proof {
            assert(lo == lower(s@[i as int]));
            assert(out@ =~= lower_seq(s@).subrange(0, i + 1));
        }
        i = i + 1;
    }
    proof {
        assert(out@ =~= lower_seq(s@));
    }
    out
}

/// Whether two string slices hold the same characters.
pub fn str_eq(a: &str, b: &str) -> (r: bool)
    ensures
        r == (a@ == b@),
{
    let r = bytes_eq(a.as_bytes(), b.as_bytes());
    proof {
        if vstd::utf8::encode_utf8(a@) == vstd::utf8::encode_utf8(b@) {
            vstd::utf8::encode_utf8_decode_utf8(a@);
            vstd::utf8::encode_utf8_decode_utf8(b@);
        }
    }
    r
}

} // verus!
