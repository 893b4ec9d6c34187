//! Small verified text utilities shared by the parser, the router and the
//! serializer: byte/character decoding, whitespace trimming, string equality
//! and decimal rendering.
use vstd::prelude::*;

verus! {

/// The characters decoded from a byte sequence, one character per byte.
pub open spec fn decode_bytes(bs: Seq<u8>) -> Seq<char> {
    bs.map(|i: int, b: u8| b as char)
}

/// Relies on String::push: appends one character at the end of the string.
#[verifier::external_body]
pub(crate) fn push_char(s: &mut String, c: char)
    ensures
        final(s)@ == old(s)@.push(c),
{
    s.push(c);
}

/// Builds the string whose characters are the given bytes, one per byte.
pub fn bytes_to_string(bs: &[u8]) -> (r: String)
    ensures
        r@ == decode_bytes(bs@),
{
    let mut r = String::new();
    let mut i: usize = 0;
    while i < bs.len()
        invariant
            i <= bs.len(),
            r@ == decode_bytes(bs@.subrange(0, i as int)),
        decreases bs.len() - i,
    {
        push_char(&mut r, bs[i] as char);
        proof {
            assert(decode_bytes(bs@.subrange(0, i + 1 as int)) == decode_bytes(
                bs@.subrange(0, i as int),
            ).push(bs@[i as int] as char));
        }
        i += 1;
    }
    proof {
        assert(bs@.subrange(0, bs@.len() as int) == bs@);
    }
    r
}

/// The views of a sequence of strings.
pub open spec fn strings_view(v: Seq<String>) -> Seq<Seq<char>> {
    v.map(|i: int, s: String| s@)
}

/// An ASCII whitespace character: space, tab, carriage return or newline.
pub open spec fn is_ws_char(c: char) -> bool {
    c == ' ' || c == '\t' || c == '\r' || c == '\n'
}

/// The position of the first occurrence of the character, or the length if
/// it does not occur.
pub open spec fn first_index_of(s: Seq<char>, c: char) -> int
    decreases s.len(),
{
    if s.len() == 0 {
        0
    } else if s[0] == c {
        0
    } else {
        1 + first_index_of(s.drop_first(), c)
    }
}

pub proof fn lemma_first_index_of(s: Seq<char>, c: char)
    ensures
        0 <= first_index_of(s, c) <= s.len(),
        forall|j: int| 0 <= j < first_index_of(s, c) ==> s[j] != c,
        first_index_of(s, c) < s.len() ==> s[first_index_of(s, c)] == c,
    decreases s.len(),
{
    if s.len() > 0 && s[0] != c {
        lemma_first_index_of(s.drop_first(), c);
        assert forall|j: int| 1 <= j < first_index_of(s, c) implies s[j] != c by {
            assert(s.drop_first()[j - 1] == s[j]);
        }
        if first_index_of(s, c) < s.len() {
            assert(s.drop_first()[first_index_of(s, c) - 1] == s[first_index_of(s, c)]);
        }
    }
}

/// A position before which the character does not occur, and at which it
/// occurs (or the end), is the first occurrence.
pub proof fn lemma_first_index_at(s: Seq<char>, c: char, k: int)
    requires
        0 <= k <= s.len(),
        forall|j: int| 0 <= j < k ==> s[j] != c,
        k < s.len() ==> s[k] == c,
    ensures
        first_index_of(s, c) == k,
{
    lemma_first_index_of(s, c);
    let fi = first_index_of(s, c);
    if fi < k {
        assert(s[fi] == c);
    } else if fi > k {
        assert(s[k] != c);
    }
}

/// The position of the first occurrence of the character at or after `from`,
/// as an offset of the suffix starting there.
pub fn find_char(s: &str, from: usize, c: char) -> (r: Option<usize>)
    requires
        from <= s@.len(),
    ensures
        ({
            let fi = first_index_of(s@.skip(from as int), c);
            match r {
                Some(i) => from + fi == i && fi < s@.len() - from,
                None => fi == s@.len() - from,
            }
        }),
{
    let len = s.unicode_len();
    let mut i: usize = from;
    while i < len
        invariant
            from <= i <= len,
            len == s@.len(),
            forall|j: int| from <= j < i ==> s@[j] != c,
        decreases len - i,
    {
        if s.get_char(i) == c {
            proof {
                let suf = s@.skip(from as int);
                assert forall|j: int| 0 <= j < i - from implies suf[j] != c by {
                    assert(suf[j] == s@[from + j]);
                }
                assert(suf[i - from] == s@[i as int]);
                lemma_first_index_at(suf, c, i - from);
            }
            return Some(i);
        }
        i += 1;
    }
    proof {
        let suf = s@.skip(from as int);
        assert forall|j: int| 0 <= j < suf.len() implies suf[j] != c by {
            assert(suf[j] == s@[from + j]);
        }
        lemma_first_index_at(suf, c, suf.len() as int);
    }
    None
}

/// The position of the first whitespace character, or the length if none
/// occurs.
pub open spec fn first_ws(s: Seq<char>) -> int
    decreases s.len(),
{
    if s.len() == 0 {
        0
    } else if is_ws_char(s[0]) {
        0
    } else {
        1 + first_ws(s.drop_first())
    }
}

pub proof fn lemma_first_ws(s: Seq<char>)
    ensures
        0 <= first_ws(s) <= s.len(),
        forall|j: int| 0 <= j < first_ws(s) ==> !is_ws_char(s[j]),
        first_ws(s) < s.len() ==> is_ws_char(s[first_ws(s)]),
    decreases s.len(),
{
    if s.len() > 0 && !is_ws_char(s[0]) {
        lemma_first_ws(s.drop_first());
        assert forall|j: int| 1 <= j < first_ws(s) implies !is_ws_char(s[j]) by {
            assert(s.drop_first()[j - 1] == s[j]);
        }
        if first_ws(s) < s.len() {
            assert(s.drop_first()[first_ws(s) - 1] == s[first_ws(s)]);
        }
    }
}

pub proof fn lemma_first_ws_at(s: Seq<char>, k: int)
    requires
        0 <= k <= s.len(),
        forall|j: int| 0 <= j < k ==> !is_ws_char(s[j]),
        k < s.len() ==> is_ws_char(s[k]),
    ensures
        first_ws(s) == k,
{
    lemma_first_ws(s);
    let fi = first_ws(s);
    if fi < k {
        assert(!is_ws_char(s[fi]));
    } else if fi > k {
        assert(is_ws_char(s[k]));
    }
}

/// The position of the first whitespace character at or after `from`, or the
/// length if none occurs there, as an offset of the suffix starting there.
pub fn find_ws(s: &str, from: usize) -> (e: usize)
    requires
        from <= s@.len(),
    ensures
        from <= e <= s@.len(),
        e - from == first_ws(s@.skip(from as int)),
{
    let len = s.unicode_len();
    let mut i: usize = from;
    while i < len
        invariant
            from <= i <= len,
            len == s@.len(),
            forall|j: int| from <= j < i ==> !is_ws_char(s@[j]),
        decreases len - i,
    {
        if is_ws(s.get_char(i)) {
            proof {
                let suf = s@.skip(from as int);
                assert forall|j: int| 0 <= j < i - from implies !is_ws_char(suf[j]) by {
                    assert(suf[j] == s@[from + j]);
                }
                assert(suf[i - from] == s@[i as int]);
                lemma_first_ws_at(suf, i - from);
            }
            return i;
        }
        i += 1;
    }
    proof {
        let suf = s@.skip(from as int);
        assert forall|j: int| 0 <= j < suf.len() implies !is_ws_char(suf[j]) by {
            assert(suf[j] == s@[from + j]);
        }
        lemma_first_ws_at(suf, suf.len() as int);
    }
    len
}

/// The number of leading whitespace characters.
pub open spec fn first_non_ws(s: Seq<char>) -> int
    decreases s.len(),
{
    if s.len() == 0 {
        0
    } else if !is_ws_char(s[0]) {
        0
    } else {
        1 + first_non_ws(s.drop_first())
    }
}

pub proof fn lemma_first_non_ws(s: Seq<char>)
    ensures
        0 <= first_non_ws(s) <= s.len(),
        forall|j: int| 0 <= j < first_non_ws(s) ==> is_ws_char(s[j]),
        first_non_ws(s) < s.len() ==> !is_ws_char(s[first_non_ws(s)]),
    decreases s.len(),
{
    if s.len() > 0 && is_ws_char(s[0]) {
        lemma_first_non_ws(s.drop_first());
        assert forall|j: int| 1 <= j < first_non_ws(s) implies is_ws_char(s[j]) by {
            assert(s.drop_first()[j - 1] == s[j]);
        }
        if first_non_ws(s) < s.len() {
            assert(s.drop_first()[first_non_ws(s) - 1] == s[first_non_ws(s)]);
        }
    }
}

pub proof fn lemma_first_non_ws_at(s: Seq<char>, k: int)
    requires
        0 <= k <= s.len(),
        forall|j: int| 0 <= j < k ==> is_ws_char(s[j]),
        k < s.len() ==> !is_ws_char(s[k]),
    ensures
        first_non_ws(s) == k,
{
    lemma_first_non_ws(s);
    let fi = first_non_ws(s);
    if fi < k {
        assert(is_ws_char(s[fi]));
    } else if fi > k {
        assert(!is_ws_char(s[k]));
    }
}

/// One past the last character that is not whitespace, or zero if every
/// character is whitespace.
pub open spec fn end_non_ws(s: Seq<char>) -> int
    decreases s.len(),
{
    if s.len() == 0 {
        0
    } else if !is_ws_char(s.last()) {
        s.len() as int
    } else {
        end_non_ws(s.drop_last())
    }
}

pub proof fn lemma_end_non_ws(s: Seq<char>)
    ensures
        0 <= end_non_ws(s) <= s.len(),
        forall|j: int| end_non_ws(s) <= j < s.len() ==> is_ws_char(s[j]),
        end_non_ws(s) > 0 ==> !is_ws_char(s[end_non_ws(s) - 1]),
    decreases s.len(),
{
    if s.len() > 0 && is_ws_char(s.last()) {
        lemma_end_non_ws(s.drop_last());
        assert forall|j: int| end_non_ws(s) <= j < s.len() implies is_ws_char(s[j]) by {
            if j < s.len() - 1 {
                assert(s.drop_last()[j] == s[j]);
            }
        }
        if end_non_ws(s) > 0 {
            assert(s.drop_last()[end_non_ws(s) - 1] == s[end_non_ws(s) - 1]);
        }
    }
}

pub proof fn lemma_end_non_ws_at(s: Seq<char>, k: int)
    requires
        0 <= k <= s.len(),
        forall|j: int| k <= j < s.len() ==> is_ws_char(s[j]),
        k > 0 ==> !is_ws_char(s[k - 1]),
    ensures
        end_non_ws(s) == k,
{
    lemma_end_non_ws(s);
    let e = end_non_ws(s);
    if e < k {
        assert(is_ws_char(s[k - 1]));
    } else if e > k {
        assert(is_ws_char(s[e - 1]));
    }
}

/// The characters that remain when leading and trailing whitespace is
/// removed.
pub open spec fn trim_chars(s: Seq<char>) -> Seq<char> {
    if first_non_ws(s) < end_non_ws(s) {
        s.subrange(first_non_ws(s), end_non_ws(s))
    } else {
        Seq::empty()
    }
}

/// Whether the character is ASCII whitespace.
pub fn is_ws(c: char) -> (r: bool)
    ensures
        r == is_ws_char(c),
{
    c == ' ' || c == '\t' || c == '\r' || c == '\n'
}

/// The slice with leading and trailing ASCII whitespace removed.
pub fn trim_str<'a>(s: &'a str) -> (r: &'a str)
    ensures
        r@ == trim_chars(s@),
{
    let len = s.unicode_len();
    let mut start: usize = 0;
    while start < len && is_ws(s.get_char(start))
        invariant
            0 <= start <= len,
            len == s@.len(),
            forall|j: int| 0 <= j < start ==> is_ws_char(s@[j]),
        decreases len - start,
    {
        start += 1;
    }
    proof {
        lemma_first_non_ws_at(s@, start as int);
    }
    if start == len {
        proof {
            lemma_end_non_ws(s@);
        }
        let r = s.substring_char(0, 0);
        proof {
            assert(r@ =~= trim_chars(s@));
        }
        return r;
    }
    let mut end: usize = len;
    while end > start && is_ws(s.get_char(end - 1))
        invariant
            start <= end <= len,
            len == s@.len(),
            forall|j: int| end <= j < len ==> is_ws_char(s@[j]),
        decreases end,
    {
        end -= 1;
    }
    proof {
        assert(!is_ws_char(s@[start as int]));
        if end == start {
            assert(is_ws_char(s@[start as int]));
        }
        assert(!is_ws_char(s@[end - 1]));
        lemma_end_non_ws_at(s@, end as int);
    }
    s.substring_char(start, end)
}

/// Whether two string slices hold the same characters.
pub fn str_eq(a: &str, b: &str) -> (r: bool)
    ensures
        r == (a@ == b@),
{
    let alen = a.unicode_len();
    let blen = b.unicode_len();
    if alen != blen {
        proof {
            assert(a@ != b@);
        }
        return false;
    }
    let mut i: usize = 0;
    while i < alen
        invariant
            i <= alen,
            alen == a@.len(),
            alen == b@.len(),
            forall|j: int| 0 <= j < i ==> a@[j] == b@[j],
        decreases alen - i,
    {
        if a.get_char(i) != b.get_char(i) {
            return false;
        }
        i += 1;
    }
    proof {
        assert(a@ =~= b@);
    }
    true
}

/// Appends the bytes of the slice at the end of the vector.
pub fn extend_bytes(out: &mut Vec<u8>, s: &[u8])
    ensures
        final(out)@ == old(out)@ + s@,
{
    let mut i: usize = 0;
    while i < s.len()
        invariant
            i <= s.len(),
            out@ == old(out)@ + s@.subrange(0, i as int),
        decreases s.len() - i,
    {
        out.push(s[i]);
        proof {
            assert(old(out)@ + s@.subrange(0, i + 1 as int) =~= (old(out)@ + s@.subrange(
                0,
                i as int,
            )).push(s@[i as int]));
        }
        i += 1;
    }
    proof {
        assert(s@.subrange(0, s@.len() as int) =~= s@);
    }
}

/// Relies on String::from_utf8: succeeds exactly on valid UTF-8 input and
/// decodes it.
#[verifier::external_body]
pub(crate) fn string_from_utf8(bytes: Vec<u8>) -> (r: Option<String>)
    ensures
        match r {
            Some(s) => vstd::utf8::valid_utf8(bytes@) && s@ == vstd::utf8::decode_utf8(bytes@),
            None => !vstd::utf8::valid_utf8(bytes@),
        },
{
    String::from_utf8(bytes).ok()
}

/// The decimal digits of a non-negative number, most significant first.
pub open spec fn dec_chars(n: int) -> Seq<char>
    recommends
        n >= 0,
    decreases n,
{
    if n < 10 {
        seq![((48 + n) as u8) as char]
    } else {
        dec_chars(n / 10).push(((48 + n % 10) as u8) as char)
    }
}

/// The decimal rendering of a number.
pub fn dec_string(n: usize) -> (r: String)
    ensures
        r@ == dec_chars(n as int),
    decreases n,
{
    if n < 10 {
        let mut s = String::new();
        push_char(&mut s, (48u8 + n as u8) as char);
        s
    } else {
        let mut s = dec_string(n / 10);
        push_char(&mut s, (48u8 + (n % 10) as u8) as char);
        s
    }
}

} // verus!
