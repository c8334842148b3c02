//! Parsing of a response head: status line, header lines and the blank line
//! that ends them.
use vstd::prelude::*;
use vstd::utf8::{valid_utf8, decode_utf8};
use crate::bytes::copy_range;
use crate::chars::{is_white_space, white_space};
use crate::request::{HeadersView, headers_view, header_insert, keys_unique, insert_header};

verus! {

/// "\r\n\r\n"
pub open spec fn head_terminator() -> Seq<u8> {
    seq![13u8, 10u8, 13u8, 10u8]
}

/// `p` occurs in `t` at `i`.
pub open spec fn occurs_at(t: Seq<u8>, p: Seq<u8>, i: int) -> bool {
    0 <= i && i + p.len() <= t.len() && t.subrange(i, i + p.len()) == p
}

/// `i` is where `p` first occurs in `t`.
pub open spec fn is_first_occurrence(t: Seq<u8>, p: Seq<u8>, i: int) -> bool {
    occurs_at(t, p, i) && forall|j: int| 0 <= j < i ==> !#[trigger] occurs_at(t, p, j)
}

/// Relies on twoway::find_bytes: the index of the first occurrence of a
/// non-empty pattern, or `None` where it does not occur.
#[verifier::external_body]
pub(crate) fn find_bytes(text: &[u8], pattern: &[u8]) -> (r: Option<usize>)
    requires
        pattern@.len() > 0,
    ensures
        r matches Some(i) ==> is_first_occurrence(text@, pattern@, i as int),
        r is None ==> forall|j: int| !#[trigger] occurs_at(text@, pattern@, j),
{
    twoway::find_bytes(text, pattern)
}

/// Relies on String::from_utf8: it succeeds exactly on valid UTF-8, and the
/// string then holds the decoded characters.
#[verifier::external_body]
pub(crate) fn utf8_string(b: Vec<u8>) -> (r: Option<String>)
    ensures
        r is Some <==> valid_utf8(b@),
        r matches Some(s) ==> s@ == decode_utf8(b@),
{
    String::from_utf8(b).ok()
}

/// Where the head ends: the index of the first blank-line terminator.
pub open spec fn head_end(b: Seq<u8>) -> Option<int> {
    if exists|i: int| is_first_occurrence(b, head_terminator(), i) {
        Some(choose|i: int| is_first_occurrence(b, head_terminator(), i))
    } else {
        None
    }
}

/// Splitting a prefix into tokens: the finished tokens and the one being read.
pub open spec fn token_fold(s: Seq<char>) -> (Seq<Seq<char>>, Seq<char>)
    decreases s.len(),
{
    if s.len() == 0 {
        (Seq::empty(), Seq::empty())
    } else {
        let (ts, cur) = token_fold(s.drop_last());
        let c = s.last();
        if is_white_space(c) {
            if cur.len() > 0 {
                (ts.push(cur), Seq::empty())
            } else {
                (ts, cur)
            }
        } else {
            (ts, cur.push(c))
        }
    }
}

/// The maximal runs of non-white-space characters of `s`, in order, as
/// `str::split_whitespace` gives them.
pub open spec fn tokens(s: Seq<char>) -> Seq<Seq<char>> {
    let (ts, cur) = token_fold(s);
    if cur.len() > 0 {
        ts.push(cur)
    } else {
        ts
    }
}

/// The tokens joined by single spaces.
pub open spec fn join_space(t: Seq<Seq<char>>) -> Seq<char>
    decreases t.len(),
{
    if t.len() == 0 {
        Seq::empty()
    } else if t.len() == 1 {
        t[0]
    } else {
        join_space(t.drop_last()) + seq![' '] + t.last()
    }
}

/// Every character is ASCII.
pub open spec fn all_ascii(t: Seq<char>) -> bool {
    forall|i: int| 0 <= i < t.len() ==> (#[trigger] t[i] as u32) < 128
}

/// The bytes of ASCII characters.
pub open spec fn ascii_bytes(t: Seq<char>) -> Seq<u8> {
    t.map_values(|c: char| (c as u32) as u8)
}

/// A status code: an unsigned decimal number below 65536.
pub open spec fn parse_code(t: Seq<char>) -> Option<nat> {
    if all_ascii(t) {
        parse_unsigned(ascii_bytes(t), 65535)
    } else {
        None
    }
}

/// A line without the return that preceded its line feed.
pub open spec fn strip_cr(line: Seq<u8>) -> Seq<u8> {
    if line.len() > 0 && line.last() == 13u8 {
        line.drop_last()
    } else {
        line
    }
}

/// Splitting a prefix into lines: the finished lines and the one being read.
pub open spec fn line_fold(s: Seq<u8>) -> (Seq<Seq<u8>>, Seq<u8>)
    decreases s.len(),
{
    if s.len() == 0 {
        (Seq::empty(), Seq::empty())
    } else {
        let (ls, cur) = line_fold(s.drop_last());
        if s.last() == 10u8 {
            (ls.push(strip_cr(cur)), Seq::empty())
        } else {
            (ls, cur.push(s.last()))
        }
    }
}

/// The lines of `s`: split at each line feed, a return before it dropped, and
/// a last line without line feed kept where it is not empty.
pub open spec fn lines(s: Seq<u8>) -> Seq<Seq<u8>> {
    let (ls, cur) = line_fold(s);
    if cur.len() > 0 {
        ls.push(cur)
    } else {
        ls
    }
}

/// The value of a string of decimal digits.
pub open spec fn digits_value(s: Seq<u8>) -> nat
    decreases s.len(),
{
    if s.len() == 0 {
        0
    } else {
        digits_value(s.drop_last()) * 10 + (s.last() - 48u8) as nat
    }
}

/// Every byte is a decimal digit.
pub open spec fn all_digits(s: Seq<u8>) -> bool {
    forall|i: int| 0 <= i < s.len() ==> 48u8 <= #[trigger] s[i] && s[i] <= 57u8
}

/// An unsigned decimal number no larger than `max`, with an optional leading
/// '+' before at least one digit.
pub open spec fn parse_unsigned(s: Seq<u8>, max: nat) -> Option<nat> {
    let d = if s.len() > 1 && s[0] == 43u8 {
        s.drop_first()
    } else {
        s
    };
    if d.len() > 0 && all_digits(d) && digits_value(d) <= max {
        Some(digits_value(d))
    } else {
        None
    }
}

/// An ASCII letter in lower case, other bytes as they are.
pub open spec fn ascii_lower(c: u8) -> u8 {
    if 65u8 <= c && c <= 90u8 {
        (c + 32) as u8
    } else {
        c
    }
}

/// "content-length"
pub open spec fn content_length_name() -> Seq<u8> {
    seq![99u8, 111u8, 110u8, 116u8, 101u8, 110u8, 116u8, 45u8, 108u8, 101u8, 110u8, 103u8, 116u8, 104u8]
}

/// The key names the body length, in any ASCII case.
pub open spec fn is_content_length_key(k: Seq<u8>) -> bool {
    k.len() == 14 && forall|i: int| 0 <= i < 14 ==> ascii_lower(#[trigger] k[i])
        == content_length_name()[i]
}

/// A line holds ": " at `i`.
pub open spec fn colon_space_at(line: Seq<u8>, i: int) -> bool {
    0 <= i && i + 1 < line.len() && line[i] == 58u8 && line[i + 1] == 32u8
}

/// The line split at its first ": ".
pub open spec fn split_colon_space(line: Seq<u8>) -> Option<(Seq<u8>, Seq<u8>)> {
    if exists|i: int| colon_space_at(line, i) && forall|j: int| 0 <= j < i ==> !#[trigger] colon_space_at(line, j) {
        let i = choose|i: int| colon_space_at(line, i) && forall|j: int| 0 <= j < i ==> !#[trigger] colon_space_at(line, j);
        Some((line.subrange(0, i), line.subrange(i + 2, line.len() as int)))
    } else {
        None
    }
}

/// The effect of one header line: a "key: value" line sets the key, and a
/// Content-Length key sets the length (or clears it, where the value is no
/// number); other lines change nothing. A key or value that is not UTF-8
/// makes the head malformed.
pub open spec fn apply_line(line: Seq<u8>, h: HeadersView, cl: Option<usize>) -> Option<(HeadersView, Option<usize>)> {
    match split_colon_space(line) {
        None => Some((h, cl)),
        Some((k, v)) => if valid_utf8(k) && valid_utf8(v) {
            let cl2 = if is_content_length_key(k) {
                match parse_unsigned(v, usize::MAX as nat) {
                    Some(n) => Some(n as usize),
                    None => None,
                }
            } else {
                cl
            };
            Some((header_insert(h, decode_utf8(k), decode_utf8(v)), cl2))
        } else {
            None
        },
    }
}

/// The header lines applied in order, from no headers and no length.
pub open spec fn headers_apply(ls: Seq<Seq<u8>>) -> Option<(HeadersView, Option<usize>)>
    decreases ls.len(),
{
    if ls.len() == 0 {
        Some((Seq::empty(), None))
    } else {
        match headers_apply(ls.drop_last()) {
            None => None,
            Some((h, cl)) => apply_line(ls.last(), h, cl),
        }
    }
}

/// A parsed response head: version, status code, status label, headers,
/// body length, and the number of bytes of the head with its terminator.
pub type HeadView = (Seq<char>, u16, Seq<char>, HeadersView, Option<usize>, nat);

/// The head at the start of `b`, where it is complete and well formed: it
/// is UTF-8 throughout, and its status line is a version token, a code token
/// and a label (the remaining tokens joined by spaces), split at Unicode
/// white space.
pub open spec fn parse_head(b: Seq<u8>) -> Option<HeadView> {
    match head_end(b) {
        None => None,
        Some(i) => {
            let sec = b.subrange(0, i);
            let ls = lines(sec);
            if !valid_utf8(sec) || ls.len() == 0 || !valid_utf8(ls[0]) {
                None
            } else {
                let ts = tokens(decode_utf8(ls[0]));
                if ts.len() < 2 {
                    None
                } else {
                    match parse_code(ts[1]) {
                        None => None,
                        Some(code) => match headers_apply(ls.subrange(1, ls.len() as int)) {
                            None => None,
                            Some((h, cl)) => Some(
                                (
                                    ts[0],
                                    code as u16,
                                    join_space(ts.subrange(2, ts.len() as int)),
                                    h,
                                    cl,
                                    (i + 4) as nat,
                                ),
                            ),
                        },
                    }
                }
            }
        },
    }
}

/// The byte strings held by a vector of vectors.
pub open spec fn vecs_view(v: Seq<Vec<u8>>) -> Seq<Seq<u8>> {
    v.map_values(|x: Vec<u8>| x@)
}

proof fn lemma_vecs_view_push(v: Seq<Vec<u8>>, x: Vec<u8>)
    ensures
        vecs_view(v.push(x)) == vecs_view(v).push(x@),
{
    assert(vecs_view(v.push(x)) =~= vecs_view(v).push(x@));
}

/// The character strings held by a vector of vectors.
pub open spec fn char_vecs_view(v: Seq<Vec<char>>) -> Seq<Seq<char>> {
    v.map_values(|x: Vec<char>| x@)
}

proof fn lemma_char_vecs_view_push(v: Seq<Vec<char>>, x: Vec<char>)
    ensures
        char_vecs_view(v.push(x)) == char_vecs_view(v).push(x@),
{
    assert(char_vecs_view(v.push(x)) =~= char_vecs_view(v).push(x@));
}

/// Splits `s` into its tokens, at Unicode white space.
pub fn split_tokens(s: &Vec<char>) -> (r: Vec<Vec<char>>)
    ensures
        char_vecs_view(r@) == tokens(s@),
{
    let mut ts: Vec<Vec<char>> = Vec::new();
    let mut cur: Vec<char> = Vec::new();
    let mut i: usize = 0;
    assert(char_vecs_view(ts@) =~= Seq::<Seq<char>>::empty());
    assert(s@.subrange(0, 0) =~= Seq::<char>::empty());
    while i < s.len()
        invariant
            i <= s@.len(),
            (char_vecs_view(ts@), cur@) == token_fold(s@.subrange(0, i as int)),
        decreases s@.len() - i,
    {
        let c = s[i];
        proof {
            assert(s@.subrange(0, i + 1).drop_last() =~= s@.subrange(0, i as int));
        }
        if white_space(c) {
            if cur.len() > 0 {
                proof {
                    lemma_char_vecs_view_push(ts@, cur);
                }
                ts.push(cur);
                cur = Vec::new();
                assert(cur@ =~= Seq::<char>::empty());
            }
        } else {
            cur.push(c);
        }
        i = i + 1;
    }
    assert(s@.subrange(0, s@.len() as int) =~= s@);
    if cur.len() > 0 {
        proof {
            lemma_char_vecs_view_push(ts@, cur);
        }
        ts.push(cur);
    }
    ts
}

/// Splits `s` into its lines.
pub fn split_lines(s: &[u8]) -> (r: Vec<Vec<u8>>)
    ensures
        vecs_view(r@) == lines(s@),
{
    let mut ls: Vec<Vec<u8>> = Vec::new();
    let mut cur: Vec<u8> = Vec::new();
    let mut i: usize = 0;
    assert(vecs_view(ls@) =~= Seq::<Seq<u8>>::empty());
    assert(s@.subrange(0, 0) =~= Seq::<u8>::empty());
    while i < s.len()
        invariant
            i <= s@.len(),
            (vecs_view(ls@), cur@) == line_fold(s@.subrange(0, i as int)),
        decreases s@.len() - i,
    {
        let c = s[i];
        proof {
            assert(s@.subrange(0, i + 1).drop_last() =~= s@.subrange(0, i as int));
        }
        if c == 10u8 {
            let n = cur.len();
            if n > 0 && cur[n - 1] == 13u8 {
                cur.pop();
            }
            proof {
                lemma_vecs_view_push(ls@, cur);
            }
            ls.push(cur);
            cur = Vec::new();
            assert(cur@ =~= Seq::<u8>::empty());
        } else {
            cur.push(c);
        }
        i = i + 1;
    }
    assert(s@.subrange(0, s@.len() as int) =~= s@);
    if cur.len() > 0 {
        proof {
            lemma_vecs_view_push(ls@, cur);
        }
        ls.push(cur);
    }
    ls
}

/// The tokens from index `from` on, joined by single spaces.
pub fn join_tokens(t: &Vec<Vec<char>>, from: usize) -> (r: Vec<char>)
    requires
        from <= t@.len(),
    ensures
        r@ == join_space(char_vecs_view(t@).subrange(from as int, t@.len() as int)),
{
    let ghost vv = char_vecs_view(t@);
    let mut out: Vec<char> = Vec::new();
    let mut j: usize = from;
    assert(vv.subrange(from as int, from as int) =~= Seq::<Seq<char>>::empty());
    while j < t.len()
        invariant
            from <= j <= t@.len(),
            vv == char_vecs_view(t@),
            out@ == join_space(vv.subrange(from as int, j as int)),
        decreases t@.len() - j,
    {
        let ghost before = out@;
        if j > from {
            out.push(' ');
        }
        let tok = &t[j];
        let mut k: usize = 0;
        let ghost mid = out@;
        while k < tok.len()
            invariant
                k <= tok@.len(),
                out@ == mid + tok@.subrange(0, k as int),
            decreases tok@.len() - k,
        {
            out.push(tok[k]);
            k = k + 1;
            assert(tok@.subrange(0, k as int) =~= tok@.subrange(0, k - 1).push(tok@[k - 1]));
        }
        proof {
            assert(tok@.subrange(0, k as int) =~= tok@);
            let sub = vv.subrange(from as int, j + 1);
            assert(sub.drop_last() =~= vv.subrange(from as int, j as int));
            assert(sub.last() == vv[j as int]);
            if j == from {
                assert(sub.len() == 1);
                assert(out@ =~= sub[0]);
            } else {
                assert(out@ =~= join_space(sub.drop_last()) + seq![' '] + sub.last());
            }
        }
        j = j + 1;
    }
    out
}

/// Reads a status code: ASCII digits (after an optional '+') worth at most
/// 65535.
pub fn parse_status_code(t: &Vec<char>) -> (r: Option<u16>)
    ensures
        r matches Some(n) ==> parse_code(t@) == Some(n as nat),
        r is None ==> parse_code(t@) is None,
{
    let mut b: Vec<u8> = Vec::new();
    let mut i: usize = 0;
    while i < t.len()
        invariant
            i <= t@.len(),
            all_ascii(t@.subrange(0, i as int)),
            b@ == ascii_bytes(t@.subrange(0, i as int)),
        decreases t@.len() - i,
    {
        let u = t[i] as u32;
        if u >= 128 {
            assert(!all_ascii(t@)) by {
                assert(!((t@[i as int] as u32) < 128));
            }
            return None;
        }
        b.push(u as u8);
        i = i + 1;
        assert(ascii_bytes(t@.subrange(0, i as int)) =~= ascii_bytes(t@.subrange(0, i - 1)).push(
            (t@[i - 1] as u32) as u8,
        ));
        assert(all_ascii(t@.subrange(0, i as int))) by {
            assert forall|j: int| 0 <= j < i implies (#[trigger] t@.subrange(0, i as int)[j] as u32) < 128 by {
                if j < i - 1 {
                    assert(t@.subrange(0, i as int)[j] == t@.subrange(0, i - 1)[j]);
                }
            }
        }
    }
    assert(t@.subrange(0, i as int) =~= t@);
    match parse_decimal(b.as_slice(), 65535) {
        Some(n) => Some(n as u16),
        None => None,
    }
}

proof fn lemma_digits_value_prefix(s: Seq<u8>, k: int)
    requires
        0 <= k <= s.len(),
    ensures
        digits_value(s.subrange(0, k)) <= digits_value(s),
    decreases s.len(),
{
    if k < s.len() {
        assert(s.drop_last().subrange(0, k) =~= s.subrange(0, k));
        lemma_digits_value_prefix(s.drop_last(), k);
    } else {
        assert(s.subrange(0, k) =~= s);
    }
}

/// Reads an unsigned decimal number no larger than `max`, as `str::parse`
/// reads one: an optional '+', then at least one digit.
pub fn parse_decimal(s: &[u8], max: usize) -> (r: Option<usize>)
    ensures
        r matches Some(n) ==> parse_unsigned(s@, max as nat) == Some(n as nat),
        r is None ==> parse_unsigned(s@, max as nat) is None,
{
    let start: usize = if s.len() > 1 && s[0] == 43u8 { 1 } else { 0 };
    let ghost d = s@.subrange(start as int, s@.len() as int);
    assert(d =~= (if s@.len() > 1 && s@[0] == 43u8 { s@.drop_first() } else { s@ }));
    assert(parse_unsigned(s@, max as nat) == (if d.len() > 0 && all_digits(d) && digits_value(d) <= max {
        Some(digits_value(d))
    } else {
        None::<nat>
    }));
    if start == s.len() {
        return None;
    }
    let mut v: usize = 0;
    let mut i: usize = start;
    assert(d.subrange(0, 0) =~= Seq::<u8>::empty());
    while i < s.len()
        invariant
            start <= i <= s@.len(),
            d == s@.subrange(start as int, s@.len() as int),
            parse_unsigned(s@, max as nat) == (if d.len() > 0 && all_digits(d) && digits_value(d) <= max {
                Some(digits_value(d))
            } else {
                None::<nat>
            }),
            v as nat == digits_value(d.subrange(0, i - start)),
            v <= max,
            all_digits(d.subrange(0, i - start)),
        decreases s@.len() - i,
    {
        let c = s[i];
        assert(d[i - start] == c);
        if c < 48u8 || c > 57u8 {
            assert(!all_digits(d)) by {
                assert(!(48u8 <= d[i - start] && d[i - start] <= 57u8));
            }
            return None;
        }
        let dgt: usize = (c - 48u8) as usize;
        let ghost pre = d.subrange(0, i - start + 1);
        assert(pre.drop_last() =~= d.subrange(0, i - start));
        assert(all_digits(pre));
        if dgt > max || v > (max - dgt) / 10 {
            proof {
                assert(v * 10 + dgt > max) by (nonlinear_arith)
                    requires
                        dgt > max || v > (max - dgt) / 10,
                ;
                assert(digits_value(pre) == v * 10 + dgt);
                if all_digits(d) {
                    lemma_digits_value_prefix(d, i - start + 1);
                }
            }
            return None;
        }
        assert(v * 10 + dgt <= max) by (nonlinear_arith)
            requires
                dgt <= max && v <= (max - dgt) / 10,
        ;
        v = v * 10 + dgt;
        i = i + 1;
    }
    assert(d.subrange(0, i - start) =~= d);
    Some(v)
}

/// Whether `k` is "Content-Length" in any ASCII case.
pub fn is_content_length(k: &[u8]) -> (r: bool)
    ensures
        r == is_content_length_key(k@),
{
    if k.len() != 14 {
        return false;
    }
    let name: [u8; 14] = [99u8, 111u8, 110u8, 116u8, 101u8, 110u8, 116u8, 45u8, 108u8, 101u8, 110u8, 103u8, 116u8, 104u8];
    assert(name@ =~= content_length_name());
    let mut i: usize = 0;
    while i < 14
        invariant
            i <= 14,
            k@.len() == 14,
            name@ == content_length_name(),
            forall|j: int| 0 <= j < i ==> ascii_lower(#[trigger] k@[j]) == content_length_name()[j],
        decreases 14 - i,
    {
        let c = k[i];
        let lower = if 65u8 <= c && c <= 90u8 { c + 32u8 } else { c };
        if lower != name[i] {
            return false;
        }
        i = i + 1;
    }
    true
}

/// Where a line first holds ": ".
pub fn find_colon_space(line: &[u8]) -> (r: Option<usize>)
    ensures
        r matches Some(i) ==> colon_space_at(line@, i as int) && forall|j: int|
            0 <= j < i ==> !#[trigger] colon_space_at(line@, j),
        r is None ==> forall|j: int| !#[trigger] colon_space_at(line@, j),
{
    let mut i: usize = 0;
    while i < line.len() && i + 1 < line.len()
        invariant
            i <= line@.len(),
            forall|j: int| 0 <= j < i ==> !#[trigger] colon_space_at(line@, j),
        decreases line@.len() - i,
    {
        if line[i] == 58u8 && line[i + 1] == 32u8 {
            return Some(i);
        }
        i = i + 1;
    }
    None
}

/// Applies one header line to the headers and the body length so far;
/// `false` where the line makes the head malformed.
pub fn apply_header_line(line: &[u8], headers: &mut Vec<(String, String)>, cl: &mut Option<usize>) -> (ok: bool)
    requires
        keys_unique(headers_view(old(headers)@)),
    ensures
        match apply_line(line@, headers_view(old(headers)@), *old(cl)) {
            None => !ok,
            Some((h2, cl2)) => ok && headers_view(final(headers)@) == h2 && *final(cl) == cl2
                && keys_unique(h2),
        },
{
    match find_colon_space(line) {
        None => {
            assert(split_colon_space(line@) is None);
            true
        },
        Some(i) => {
            assert(colon_space_at(line@, i as int));
            proof {
                let c = choose|c: int| colon_space_at(line@, c) && forall|j: int| 0 <= j < c ==> !#[trigger] colon_space_at(line@, j);
                if c < i as int {
                } else if c > i as int {
                    assert(!colon_space_at(line@, i as int));
                }
                assert(c == i as int);
            }
            let n = line.len();
            let kb = copy_range(line, 0, i);
            let vb = copy_range(line, i + 2, n);
            let is_cl = is_content_length(kb.as_slice());
            let vparsed = parse_decimal(vb.as_slice(), usize::MAX);
            let ks = utf8_string(kb);
            let vs = utf8_string(vb);
            match (ks, vs) {
                (Some(k), Some(v)) => {
                    insert_header(headers, k, v);
                    if is_cl {
                        *cl = vparsed;
                    }
                    true
                },
                _ => false,
            }
        },
    }
}

} // verus!
