//! Incremental request parsing. Bytes accumulate in a parser until the
//! header terminator arrives; the header block is then split into lines,
//! the start line into its three tokens, and each header line at its first
//! colon. The decision depends on the accumulated bytes alone, never on how
//! they were chunked.
use vstd::prelude::*;

use crate::request::{method_of, Method, Request};
use crate::strmap::{map_insert, Pairs, StringMap};
use crate::text::{
    bytes_to_string, decode_bytes, find_char, find_ws, first_index_of, first_ws,
    lemma_first_index_of, strings_view, trim_chars, trim_str,
};

verus! {

/// Parse failure: the peer closed before a full header block arrived, the
/// header block is malformed, or the start line has a valid method but no
/// path token.
#[derive(Debug, Clone, Copy, PartialEq, Eq, Structural)]
pub enum ParseError {
    ClosedConnection,
    HeaderError,
    PathError,
}

/// The mathematical shape of a parsed request head.
#[verifier::ext_equal]
pub struct ReqModel {
    pub method: Method,
    pub path: Seq<char>,
    pub version: Seq<char>,
    pub headers: Pairs,
}

/// The head of a request value.
pub open spec fn req_obs(r: Request) -> ReqModel {
    ReqModel { method: r.method, path: r.path@, version: r.version@, headers: r.headers@ }
}

/// The `\n`-separated pieces of a text, in order; the terminating piece has
/// no `\n` after it.
pub open spec fn split_nl(s: Seq<char>) -> Seq<Seq<char>>
    decreases s.len(),
    via split_nl_dec
{
    let fi = first_index_of(s, '\n');
    if fi == s.len() {
        seq![s]
    } else {
        seq![s.take(fi)] + split_nl(s.skip(fi + 1))
    }
}

#[via_fn]
proof fn split_nl_dec(s: Seq<char>) {
    lemma_first_index_of(s, '\n');
}

/// A piece with one trailing carriage return removed.
pub open spec fn strip_cr(l: Seq<char>) -> Seq<char> {
    if l.len() > 0 && l.last() == '\r' {
        l.drop_last()
    } else {
        l
    }
}

/// Each piece with one trailing carriage return removed.
pub open spec fn map_strip_cr(ls: Seq<Seq<char>>) -> Seq<Seq<char>> {
    ls.map(|i: int, l: Seq<char>| strip_cr(l))
}

/// The lines of a text: `\n`-separated pieces, a trailing empty piece
/// discarded, one trailing carriage return removed from each.
pub open spec fn lines_of(s: Seq<char>) -> Seq<Seq<char>> {
    let raw = split_nl(s);
    if raw.last().len() == 0 {
        map_strip_cr(raw.drop_last())
    } else {
        map_strip_cr(raw)
    }
}

/// The whitespace-separated tokens of a line, in order.
pub open spec fn split_ws(l: Seq<char>) -> Seq<Seq<char>>
    decreases l.len(),
    via split_ws_dec
{
    if l.len() == 0 {
        Seq::empty()
    } else if crate::text::is_ws_char(l[0]) {
        split_ws(l.drop_first())
    } else {
        seq![l.take(first_ws(l))] + split_ws(l.skip(first_ws(l)))
    }
}

#[via_fn]
proof fn split_ws_dec(l: Seq<char>) {
    if l.len() > 0 && !crate::text::is_ws_char(l[0]) {
        crate::text::lemma_first_ws(l);
    }
}

/// The header mapping gathered from the first `n` header lines: each line
/// split at its first colon, the value trimmed, a later binding of a name
/// overwriting an earlier one; a line without a colon fails the whole block.
pub open spec fn headers_upto(ls: Seq<Seq<char>>, n: int) -> Option<Pairs>
    decreases n,
{
    if n <= 0 {
        Some(Seq::empty())
    } else {
        match headers_upto(ls, n - 1) {
            None => None,
            Some(acc) => {
                let l = ls[n - 1];
                let ci = first_index_of(l, ':');
                if ci == l.len() {
                    None
                } else {
                    Some(map_insert(acc, l.take(ci), trim_chars(l.skip(ci + 1))))
                }
            },
        }
    }
}

/// The header mapping of all the header lines, if every line has a colon.
pub open spec fn headers_model(ls: Seq<Seq<char>>) -> Option<Pairs> {
    headers_upto(ls, ls.len() as int)
}

/// What a header block parses to: the first line is split on whitespace into
/// method, path and version; the method token must name a method; every
/// further line binds a header. A missing path token after a valid method is
/// the one failure reported apart; every other malformation is a header
/// failure.
pub open spec fn parse_header_model(text: Seq<char>) -> Result<ReqModel, ParseError> {
    let ls = lines_of(text);
    if ls.len() == 0 {
        Err(ParseError::HeaderError)
    } else {
        let toks = split_ws(ls[0]);
        if toks.len() == 0 {
            Err(ParseError::HeaderError)
        } else {
            match method_of(toks[0]) {
                None => Err(ParseError::HeaderError),
                Some(m) => {
                    if toks.len() == 1 {
                        Err(ParseError::PathError)
                    } else if toks.len() == 2 {
                        Err(ParseError::HeaderError)
                    } else {
                        match headers_model(ls.skip(1)) {
                            None => Err(ParseError::HeaderError),
                            Some(hs) => Ok(
                                ReqModel { method: m, path: toks[1], version: toks[2], headers: hs },
                            ),
                        }
                    }
                },
            }
        }
    }
}

/// Splits a text into its `\n`-separated pieces.
fn split_newline_pieces(s: &str) -> (r: Vec<String>)
    ensures
        strings_view(r@) == split_nl(s@),
{
    let len = s.unicode_len();
    let mut raw: Vec<String> = Vec::new();
    let mut i: usize = 0;
    let mut done = false;
    proof {
        assert(s@.skip(0) =~= s@);
        assert(strings_view(raw@).len() == 0);
    }
    while !done
        invariant
            i <= len,
            len == s@.len(),
            !done ==> strings_view(raw@) + split_nl(s@.skip(i as int)) == split_nl(s@),
            done ==> strings_view(raw@) == split_nl(s@),
        decreases len - i + if done {
            0int
        } else {
            1int
        },
    {
        let ghost pre = raw@;
        proof {
            lemma_first_index_of(s@.skip(i as int), '\n');
        }
        match find_char(s, i, '\n') {
            Some(e) => {
                raw.push(s.substring_char(i, e).to_owned());
                proof {
                    let suf = s@.skip(i as int);
                    let fi = first_index_of(suf, '\n');
                    assert(fi == e - i);
                    assert(fi < suf.len());
                    assert(suf.take(fi) =~= s@.subrange(i as int, e as int));
                    assert(suf.skip(fi + 1) =~= s@.skip(e + 1 as int));
                    assert(split_nl(suf) == seq![suf.take(fi)] + split_nl(suf.skip(fi + 1)));
                    assert(strings_view(raw@) =~= strings_view(pre).push(
                        s@.subrange(i as int, e as int),
                    ));
                    assert(strings_view(raw@) + split_nl(s@.skip(e + 1 as int)) =~= strings_view(
                        pre,
                    ) + split_nl(suf));
                }
                i = e + 1;
            },
            None => {
                raw.push(s.substring_char(i, len).to_owned());
                proof {
                    let suf = s@.skip(i as int);
                    let fi = first_index_of(suf, '\n');
                    assert(fi == suf.len());
                    assert(split_nl(suf) == seq![suf]);
                    assert(suf =~= s@.subrange(i as int, len as int));
                    assert(strings_view(raw@) =~= strings_view(pre).push(suf));
                    assert(strings_view(raw@) =~= strings_view(pre) + split_nl(suf));
                }
                done = true;
            },
        }
    }
    raw
}

/// Splits a text into its lines.
fn split_lines(s: &str) -> (r: Vec<String>)
    ensures
        strings_view(r@) == lines_of(s@),
{
    let mut raw = split_newline_pieces(s);
    let ghost raw0 = raw@;
    proof {
        assert(strings_view(raw@).len() == raw@.len());
        assert(split_nl(s@).len() > 0);
    }
    if raw[raw.len() - 1].as_str().is_empty() {
        proof {
            assert(strings_view(raw@).last() == raw@.last()@);
        }
        raw.pop();
        proof {
            assert(strings_view(raw@) =~= strings_view(raw0).drop_last());
        }
    }
    let ghost trimmed = strings_view(raw@);
    proof {
        assert(trimmed == if split_nl(s@).last().len() == 0 {
            split_nl(s@).drop_last()
        } else {
            split_nl(s@)
        });
    }
    let mut out: Vec<String> = Vec::new();
    let mut i: usize = 0;
    while i < raw.len()
        invariant
            i <= raw.len(),
            trimmed == strings_view(raw@),
            trimmed == if split_nl(s@).last().len() == 0 {
                split_nl(s@).drop_last()
            } else {
                split_nl(s@)
            },
            strings_view(out@) == map_strip_cr(trimmed).subrange(0, i as int),
        decreases raw.len() - i,
    {
        let ghost pre = out@;
        let l = &raw[i];
        let llen = l.as_str().unicode_len();
        proof {
            assert(l@ == trimmed[i as int]);
            assert(strings_view(out@).len() == out@.len());
            assert(pre.len() == i);
        }
        if llen > 0 && l.as_str().get_char(llen - 1) == '\r' {
            out.push(l.as_str().substring_char(0, llen - 1).to_owned());
            proof {
                assert(l@.subrange(0, llen - 1 as int) =~= l@.drop_last());
                assert(strip_cr(trimmed[i as int]) == l@.drop_last());
            }
        } else {
            out.push(l.clone());
            proof {
                assert(strip_cr(trimmed[i as int]) == l@);
            }
        }
        proof {
            assert(map_strip_cr(trimmed).len() == trimmed.len());
            assert(map_strip_cr(trimmed)[i as int] == strip_cr(trimmed[i as int]));
            assert forall|j: int| 0 <= j < i + 1 implies strings_view(out@)[j] == map_strip_cr(
                trimmed,
            ).subrange(0, i + 1 as int)[j] by {
                if j < i {
                    assert(strings_view(pre)[j] == map_strip_cr(trimmed).subrange(0, i as int)[j]);
                    assert(out@[j] == pre[j]);
                }
            }
            assert(strings_view(out@) =~= map_strip_cr(trimmed).subrange(0, i + 1 as int));
        }
        i += 1;
    }
    proof {
        assert(map_strip_cr(trimmed).subrange(0, map_strip_cr(trimmed).len() as int) =~= map_strip_cr(
            trimmed,
        ));
        assert(map_strip_cr(trimmed).len() == trimmed.len());
        assert(raw@.len() == trimmed.len());
    }
    out
}

/// Splits a line into its whitespace-separated tokens.
fn split_tokens(s: &str) -> (r: Vec<String>)
    ensures
        strings_view(r@) == split_ws(s@),
{
    let len = s.unicode_len();
    let mut out: Vec<String> = Vec::new();
    let mut i: usize = 0;
    proof {
        assert(strings_view(out@).len() == 0);
        assert(s@.skip(0) =~= s@);
        assert(strings_view(out@) + split_ws(s@.skip(0)) =~= split_ws(s@));
    }
    while i < len
        invariant
            i <= len,
            len == s@.len(),
            strings_view(out@) + split_ws(s@.skip(i as int)) == split_ws(s@),
        decreases len - i,
    {
        let ghost pre = out@;
        if crate::text::is_ws(s.get_char(i)) {
            proof {
                assert(s@.skip(i as int).drop_first() =~= s@.skip(i + 1 as int));
            }
            i += 1;
        } else {
            let e = find_ws(s, i);
            let seg = s.substring_char(i, e).to_owned();
            out.push(seg);
            proof {
                let suf = s@.skip(i as int);
                let fi = first_ws(suf);
                assert(fi == e - i);
                assert(suf.take(fi) =~= s@.subrange(i as int, e as int));
                assert(suf.skip(fi) =~= s@.skip(e as int));
                assert(split_ws(suf) == seq![suf.take(fi)] + split_ws(suf.skip(fi)));
                assert(strings_view(out@) =~= strings_view(pre).push(
                    s@.subrange(i as int, e as int),
                ));
                assert(strings_view(out@) + split_ws(s@.skip(e as int)) =~= strings_view(pre)
                    + split_ws(suf));
            }
            i = e;
        }
    }
    proof {
        assert(s@.skip(len as int) =~= Seq::<char>::empty());
        assert(strings_view(out@) + split_ws(s@.skip(len as int)) =~= strings_view(out@));
    }
    out
}

/// When a prefix of the header lines fails, the whole block fails.
proof fn lemma_headers_upto_none(ls: Seq<Seq<char>>, k: int, n: int)
    requires
        headers_upto(ls, k) is None,
        k <= n,
    ensures
        headers_upto(ls, n) is None,
    decreases n - k,
{
    if k < n {
        lemma_headers_upto_none(ls, k + 1, n);
    }
}

/// Parses a header block: the bytes before the terminator, decoded one
/// character per byte.
pub fn parse_header(buf: &[u8]) -> (r: Result<Request, ParseError>)
    ensures
        match r {
            Ok(req) => parse_header_model(decode_bytes(buf@)) matches Ok(m) && req_obs(req) == m
                && req.body is None && req.wf(),
            Err(e) => parse_header_model(decode_bytes(buf@)) == Err::<ReqModel, ParseError>(e),
        },
{
    let text = bytes_to_string(buf);
    let ls = split_lines(text.as_str());
    let ghost lsm = lines_of(text@);
    proof {
        assert(strings_view(ls@).len() == ls@.len());
    }
    if ls.len() == 0 {
        return Err(ParseError::HeaderError);
    }
    proof {
        assert(ls@[0]@ == lsm[0]);
    }
    let toks = split_tokens(ls[0].as_str());
    let ghost tm = split_ws(lsm[0]);
    proof {
        assert(strings_view(toks@).len() == toks@.len());
    }
    if toks.len() == 0 {
        return Err(ParseError::HeaderError);
    }
    proof {
        assert(toks@[0]@ == tm[0]);
    }
    let method = match Method::from_str(toks[0].as_str()) {
        Ok(m) => m,
        Err(_) => {
            proof {
                assert(method_of(tm[0]) is None);
            }
            return Err(ParseError::HeaderError);
        },
    };
    if toks.len() == 1 {
        return Err(ParseError::PathError);
    }
    if toks.len() == 2 {
        return Err(ParseError::HeaderError);
    }
    proof {
        assert(toks@[1]@ == tm[1]);
        assert(toks@[2]@ == tm[2]);
    }

    let mut hmap = StringMap::new();
    let ghost hls = lsm.skip(1);
    let mut i: usize = 1;
    while i < ls.len()
        invariant
            1 <= i <= ls@.len(),
            lsm == lines_of(decode_bytes(buf@)),
            strings_view(ls@) == lsm,
            ls@.len() == lsm.len(),
            lsm.len() > 0,
            tm == split_ws(lsm[0]),
            tm.len() >= 3,
            method_of(tm[0]) == Some(method),
            hls == lsm.skip(1),
            hmap.wf(),
            headers_upto(hls, i - 1) == Some(hmap@),
        decreases ls@.len() - i,
    {
        let l = &ls[i];
        let llen = l.as_str().unicode_len();
        proof {
            assert(l@ == lsm[i as int]);
            assert(hls[i - 1] == lsm[i as int]);
            assert(l@.skip(0) =~= l@);
        }
        match find_char(l.as_str(), 0, ':') {
            None => {
                proof {
                    assert(first_index_of(hls[i - 1], ':') == hls[i - 1].len());
                    assert(headers_upto(hls, i as int) is None);
                    lemma_headers_upto_none(hls, i as int, hls.len() as int);
                }
                return Err(ParseError::HeaderError);
            },
            Some(ci) => {
                proof {
                    lemma_first_index_of(l@, ':');
                    assert(first_index_of(l@, ':') == ci);
                }
                let name = l.as_str().substring_char(0, ci).to_owned();
                let value = trim_str(l.as_str().substring_char(ci + 1, llen)).to_owned();
                proof {
                    assert(l@.subrange(0, ci as int) =~= l@.take(ci as int));
                    assert(l@.subrange(ci + 1 as int, llen as int) =~= l@.skip(ci + 1));
                }
                hmap.insert(name, value);
                proof {
                    assert(headers_upto(hls, i as int) == Some(hmap@));
                }
            },
        }
        i += 1;
    }
    proof {
        assert(hls.len() == lsm.len() - 1);
        assert(headers_model(hls) == Some(hmap@));
    }
    let req = Request::new(method, toks[1].as_str(), toks[2].as_str(), hmap);
    proof {
        assert(req_obs(req) =~= ReqModel {
            method: method,
            path: tm[1],
            version: tm[2],
            headers: match headers_model(hls) {
                Some(h) => h,
                None => Seq::empty(),
            },
        });
    }
    Ok(req)
}

/// Whether `needle` occurs in `hay` starting at position `i`.
pub open spec fn subseq_match_at(hay: Seq<u8>, needle: Seq<u8>, i: int) -> bool {
    0 <= i && i + needle.len() <= hay.len() && hay.subrange(i, i + needle.len()) == needle
}

/// Relies on memchr::memmem::find: the index of the first occurrence of the
/// needle in the haystack, if it occurs at all.
#[verifier::external_body]
fn find_subsequence(haystack: &[u8], needle: &[u8]) -> (r: Option<usize>)
    ensures
        match r {
            Some(i) => subseq_match_at(haystack@, needle@, i as int) && forall|j: int|
                0 <= j < i ==> !subseq_match_at(haystack@, needle@, j),
            None => forall|j: int| !subseq_match_at(haystack@, needle@, j),
        },
{
    memchr::memmem::find(haystack, needle)
}

/// The bytes of the header terminator: an empty line, `\r\n\r\n`.
pub open spec fn terminator() -> Seq<u8> {
    seq![13u8, 10u8, 13u8, 10u8]
}

/// Whether the terminator occurs at position `i`, with nothing but header
/// bytes before it.
pub open spec fn is_first_terminator_at(bs: Seq<u8>, i: int) -> bool {
    subseq_match_at(bs, terminator(), i) && forall|j: int|
        0 <= j < i ==> !subseq_match_at(bs, terminator(), j)
}

/// The first occurrence of the terminator is one position.
pub proof fn lemma_first_terminator_unique(bs: Seq<u8>, t1: int, t2: int)
    requires
        is_first_terminator_at(bs, t1),
        is_first_terminator_at(bs, t2),
    ensures
        t1 == t2,
{
    if t1 < t2 {
        assert(!subseq_match_at(bs, terminator(), t1));
    } else if t2 < t1 {
        assert(!subseq_match_at(bs, terminator(), t2));
    }
}

/// What a byte stream decides, once enough of it has arrived: nothing while
/// the terminator is missing; otherwise, the parse of the bytes before the
/// first terminator, decoded one character per byte. A function of the
/// accumulated bytes alone: how the stream was chunked cannot matter.
pub open spec fn parse_outcome(bs: Seq<u8>) -> Option<Result<ReqModel, ParseError>> {
    if exists|t: int| is_first_terminator_at(bs, t) {
        Some(
            parse_header_model(
                decode_bytes(bs.take(choose|t: int| is_first_terminator_at(bs, t)))),
        )
    } else {
        None
    }
}

/// The most header bytes a connection may accumulate before the terminator
/// arrives; a stream that exceeds it is dropped, so an endless header block
/// cannot hold the buffer forever.
pub const MAX_HEADER_BYTES: usize = 8192;

/// Law: once a byte sequence decides, further bytes change nothing. A
/// delivery split into chunks therefore decides exactly as a single-shot
/// delivery of the same bytes: the chunked run decides on some prefix of the
/// stream, and the whole stream decides the same.
pub proof fn lemma_decision_stable(a: Seq<u8>, b: Seq<u8>)
    requires
        parse_outcome(a) is Some,
    ensures
        parse_outcome(a + b) == parse_outcome(a),
{
    let t = choose|t: int| is_first_terminator_at(a, t);
    assert(is_first_terminator_at(a, t));
    assert(terminator().len() == 4);
    assert(subseq_match_at(a + b, terminator(), t)) by {
        assert((a + b).subrange(t, t + 4) =~= a.subrange(t, t + 4));
    }
    assert forall|j: int| 0 <= j < t implies !subseq_match_at(a + b, terminator(), j) by {
        if subseq_match_at(a + b, terminator(), j) {
            assert(a.subrange(j, j + 4) =~= (a + b).subrange(j, j + 4));
            assert(subseq_match_at(a, terminator(), j));
        }
    }
    assert(is_first_terminator_at(a + b, t));
    let t2 = choose|x: int| is_first_terminator_at(a + b, x);
    lemma_first_terminator_unique(a + b, t2, t);
    assert((a + b).take(t) =~= a.take(t));
}

/// An incremental request parser: bytes accumulate across reads until the
/// header terminator arrives.
pub struct HttpParser {
    pub buf: Vec<u8>,
}

impl HttpParser {
    /// A parser with nothing received yet.
    pub fn new() -> (r: Self)
        ensures
            r.buf@ == Seq::<u8>::empty(),
    {
        HttpParser { buf: Vec::new() }
    }

    /// Accepts the bytes of one read. An empty read means the peer closed
    /// before a full header block arrived. Otherwise the bytes are appended
    /// and the whole accumulated buffer decides: nothing yet, the parse of
    /// the header block before the first terminator, or — when the buffer
    /// outgrows the header cap with no terminator in sight — the connection
    /// is given up as closed.
    pub fn feed(&mut self, chunk: &[u8]) -> (r: Option<Result<Request, ParseError>>)
        ensures
            final(self).buf@ == old(self).buf@ + chunk@,
            match r {
                None => chunk@.len() > 0 && parse_outcome(final(self).buf@) is None
                    && final(self).buf@.len() <= MAX_HEADER_BYTES,
                Some(res) => {
                    if chunk@.len() == 0 {
                        res == Err::<Request, ParseError>(ParseError::ClosedConnection)
                    } else {
                        match parse_outcome(final(self).buf@) {
                            Some(decided) => match (res, decided) {
                                (Ok(req), Ok(m)) => req_obs(req) == m && req.body is None
                                    && req.wf(),
                                (Err(e), Err(e2)) => e == e2,
                                _ => false,
                            },
                            None => final(self).buf@.len() > MAX_HEADER_BYTES && res
                                == Err::<Request, ParseError>(ParseError::ClosedConnection),
                        }
                    }
                },
            },
    {
        if chunk.len() == 0 {
            proof {
                assert(old(self).buf@ + chunk@ =~= old(self).buf@);
            }
            return Some(Err(ParseError::ClosedConnection));
        }
        crate::text::extend_bytes(&mut self.buf, chunk);
        let mut needle: Vec<u8> = Vec::new();
        needle.push(13);
        needle.push(10);
        needle.push(13);
        needle.push(10);
        proof {
            assert(needle@ =~= terminator());
        }
        match find_subsequence(self.buf.as_slice(), needle.as_slice()) {
            None => {
                proof {
                    assert(forall|t: int| !is_first_terminator_at(self.buf@, t));
                }
                if self.buf.len() > MAX_HEADER_BYTES {
                    Some(Err(ParseError::ClosedConnection))
                } else {
                    None
                }
            },
            Some(pos) => {
                proof {
                    assert(is_first_terminator_at(self.buf@, pos as int));
                    let t = choose|t: int| is_first_terminator_at(self.buf@, t);
                    lemma_first_terminator_unique(self.buf@, t, pos as int);
                }
                let head = vstd::slice::slice_subrange(self.buf.as_slice(), 0, pos);
                Some(parse_header(head))
            },
        }
    }
}

} // verus!
