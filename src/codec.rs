use vstd::prelude::*;
use crate::model::{plain_cookie, Cookie, CookieError, CookieView};

verus! {

/// Characters with the Unicode `White_Space` property.
pub open spec fn is_ws(c: char) -> bool {
    let u = c as u32;
    (0x09 <= u <= 0x0D) || u == 0x20 || u == 0x85 || u == 0xA0 || u == 0x1680 || (0x2000 <= u
        <= 0x200A) || u == 0x2028 || u == 0x2029 || u == 0x202F || u == 0x205F || u == 0x3000
}

/// `s` without its leading white space.
pub open spec fn trim_start(s: Seq<char>) -> Seq<char>
    decreases s.len(),
{
    if s.len() > 0 && is_ws(s[0]) {
        trim_start(s.drop_first())
    } else {
        s
    }
}

/// `s` without its trailing white space.
pub open spec fn trim_end(s: Seq<char>) -> Seq<char>
    decreases s.len(),
{
    if s.len() > 0 && is_ws(s.last()) {
        trim_end(s.drop_last())
    } else {
        s
    }
}

/// `s` without white space at either end.
pub open spec fn trim(s: Seq<char>) -> Seq<char> {
    trim_end(trim_start(s))
}

/// Whether `s` holds no `;`.
pub open spec fn no_semicolon(s: Seq<char>) -> bool {
    forall|k: int| 0 <= k < s.len() ==> s[k] != ';'
}

fn is_ws_char(c: char) -> (r: bool)
    ensures
        r == is_ws(c),
{
    let u = c as u32;
    (0x09 <= u && u <= 0x0D) || u == 0x20 || u == 0x85 || u == 0xA0 || u == 0x1680 || (0x2000
        <= u && u <= 0x200A) || u == 0x2028 || u == 0x2029 || u == 0x202F || u == 0x205F || u
        == 0x3000
}

/// Removes the white space at both ends of `s`.
pub fn trim_chars(s: &Vec<char>) -> (r: Vec<char>)
    ensures
        r@ == trim(s@),
        exists|lo: int, hi: int| 0 <= lo <= hi <= s@.len() && r@ == s@.subrange(lo, hi),
{
    let n = s.len();
    let mut lo: usize = 0;
    assert(s@.subrange(0, n as int) =~= s@);
    while lo < n && is_ws_char(s[lo])
        invariant
            0 <= lo <= n == s@.len(),
            trim_start(s@) == trim_start(s@.subrange(lo as int, n as int)),
        decreases n - lo,
    {
        assert(s@.subrange(lo as int, n as int).drop_first() =~= s@.subrange(
            lo as int + 1,
            n as int,
        ));
        lo = lo + 1;
    }
    assert(trim_start(s@) == s@.subrange(lo as int, n as int));
    let mut hi: usize = n;
    while hi > lo && is_ws_char(s[hi - 1])
        invariant
            0 <= lo <= hi <= n == s@.len(),
            trim(s@) == trim_end(s@.subrange(lo as int, hi as int)),
        decreases hi,
    {
        assert(s@.subrange(lo as int, hi as int).drop_last() =~= s@.subrange(
            lo as int,
            hi as int - 1,
        ));
        hi = hi - 1;
    }
    assert(trim(s@) == s@.subrange(lo as int, hi as int));
    let mut r: Vec<char> = Vec::new();
    let mut k: usize = lo;
    while k < hi
        invariant
            lo <= k <= hi <= n == s@.len(),
            r@ == s@.subrange(lo as int, k as int),
        decreases hi - k,
    {
        r.push(s[k]);
        assert(r@ =~= s@.subrange(lo as int, k as int + 1));
        k = k + 1;
    }
    r
}

/// The pieces of `s` between `;` separators, left to right (always at least one).
pub open spec fn segments(s: Seq<char>) -> Seq<Seq<char>>
    decreases s.len(),
{
    if s.len() == 0 {
        seq![Seq::empty()]
    } else {
        let p = segments(s.drop_last());
        if s.last() == ';' {
            p.push(Seq::empty())
        } else {
            p.update(p.len() - 1, p.last().push(s.last()))
        }
    }
}

/// The characters of `s` before its first `=`.
pub open spec fn before_eq(s: Seq<char>) -> Seq<char>
    decreases s.len(),
{
    if s.len() == 0 || s[0] == '=' {
        Seq::empty()
    } else {
        seq![s[0]] + before_eq(s.drop_first())
    }
}

/// Whether `s` has the shape `name=value` with a name that is not blank.
pub open spec fn is_pair(s: Seq<char>) -> bool {
    s.contains('=') && trim(before_eq(s)).len() > 0
}

/// The name and value of a well-shaped `name=value` segment, each trimmed
/// (the value also unquoted) and percent-decoded; `None` where a decoded part
/// is not UTF-8.
pub uninterp spec fn decoded_pair(seg: Seq<char>) -> Option<(Seq<char>, Seq<char>)>;

/// What one `name=value` segment reads as.
pub open spec fn segment_result(seg: Seq<char>) -> Result<CookieView, CookieError> {
    if !is_pair(seg) {
        Err(CookieError::Syntax)
    } else {
        match decoded_pair(seg) {
            Some(p) => Ok(plain_cookie(p.0, p.1)),
            None => Err(CookieError::Decode),
        }
    }
}

/// The jar `acc` after one more raw segment: blank segments are skipped.
pub open spec fn add_segment(acc: Seq<CookieView>, seg: Seq<char>) -> Result<
    Seq<CookieView>,
    CookieError,
> {
    let t = trim(seg);
    if t.len() == 0 {
        Ok(acc)
    } else {
        match segment_result(t) {
            Ok(c) => Ok(acc.push(c)),
            Err(e) => Err(e),
        }
    }
}

/// The cookies of a list of raw segments, or the error of the first one
/// that fails.
pub open spec fn segments_result(segs: Seq<Seq<char>>) -> Result<Seq<CookieView>, CookieError>
    decreases segs.len(),
{
    if segs.len() == 0 {
        Ok(Seq::empty())
    } else {
        match segments_result(segs.drop_last()) {
            Ok(acc) => add_segment(acc, segs.last()),
            Err(e) => Err(e),
        }
    }
}

/// The text that UTF-8 bytes spell, or `None` for bytes that are not UTF-8.
pub uninterp spec fn utf8_text(b: Seq<u8>) -> Option<Seq<char>>;

/// What one `Cookie` header value reads as.
pub open spec fn header_result(raw: Seq<u8>) -> Result<Seq<CookieView>, CookieError> {
    match utf8_text(raw) {
        Some(t) => segments_result(segments(t)),
        None => Err(CookieError::Decode),
    }
}

/// Every cookie of `jar` has a name.
pub open spec fn all_named(jar: Seq<CookieView>) -> bool {
    forall|k: int| 0 <= k < jar.len() ==> jar[k].name.len() > 0
}

/// The views of a sequence of cookies.
pub open spec fn views(v: Seq<Cookie>) -> Seq<CookieView> {
    v.map_values(|c: Cookie| c@)
}

/// Relies on `std::str::from_utf8`: the bytes are checked to be UTF-8 and
/// their characters returned.
#[verifier::external_body]
fn decode_utf8(b: &Vec<u8>) -> (r: Option<Vec<char>>)
    ensures
        match utf8_text(b@) {
            Some(t) => r is Some && r->0@ == t,
            None => r is None,
        },
{
    match std::str::from_utf8(b) {
        Ok(s) => Some(s.chars().collect()),
        Err(_) => None,
    }
}

/// Relies on `cookie::Cookie::parse_encoded`: a text without `=` is refused
/// (`MissingPair`), so is one whose part before the first `=` trims to nothing
/// (`EmptyName`); else name and value are percent-decoded, and a decoding that
/// is not UTF-8 is refused (`Utf8Error`). With no `;` in the text no
/// attribute is read. A name that is not blank decodes to one that is not
/// empty: each character or `%` escape yields at least one byte.
#[verifier::external_body]
fn parse_encoded_pair(seg: &Vec<char>) -> (r: Result<(String, String), CookieError>)
    requires
        no_semicolon(seg@),
    ensures
        !is_pair(seg@) ==> r is Err && r->Err_0 == CookieError::Syntax,
        is_pair(seg@) ==> match decoded_pair(seg@) {
            Some(p) => r is Ok && r->Ok_0.0@ == p.0 && r->Ok_0.1@ == p.1,
            None => r is Err && r->Err_0 == CookieError::Decode,
        },
        r is Ok ==> r->Ok_0.0@.len() > 0,
{
    let s: String = seg.iter().collect();
    match ::cookie::Cookie::parse_encoded(s) {
        Ok(c) => Ok((c.name().to_string(), c.value().to_string())),
        Err(::cookie::ParseError::Utf8Error(_)) => Err(CookieError::Decode),
        Err(_) => Err(CookieError::Syntax),
    }
}

/// Reads one trimmed, non-blank segment as a cookie.
pub fn parse_segment(seg: &Vec<char>) -> (r: Result<Cookie, CookieError>)
    requires
        no_semicolon(seg@),
    ensures
        match segment_result(seg@) {
            Ok(c) => r is Ok && r->Ok_0@ == c,
            Err(e) => r == Err::<Cookie, CookieError>(e),
        },
        r is Ok ==> r->Ok_0@.name.len() > 0,
{
    match parse_encoded_pair(seg) {
        Ok((name, value)) => Ok(Cookie::new(name, value)),
        Err(e) => Err(e),
    }
}

/// Adds the cookie of one raw segment to `out`, unless the segment is blank.
fn take_segment(out: &mut Vec<Cookie>, seg: &Vec<char>) -> (r: Result<(), CookieError>)
    requires
        no_semicolon(seg@),
        all_named(views(old(out)@)),
    ensures
        match add_segment(views(old(out)@), seg@) {
            Ok(acc) => r is Ok && views(final(out)@) == acc,
            Err(e) => r == Err::<(), CookieError>(e),
        },
        all_named(views(final(out)@)),
{
    let t = trim_chars(seg);
    assert(no_semicolon(t@));
    if t.len() == 0 {
        return Ok(());
    }
    match parse_segment(&t) {
        Ok(c) => {
            out.push(c);
            assert(views(out@) =~= views(old(out)@).push(c@));
            Ok(())
        },
        Err(e) => Err(e),
    }
}

/// Parses one `Cookie` header value: UTF-8 text of `;`-separated
/// `name=value` pairs. Blank segments are skipped; the first malformed one
/// fails the whole header.
pub fn parse_header(raw: &Vec<u8>) -> (r: Result<Vec<Cookie>, CookieError>)
    ensures
        match header_result(raw@) {
            Ok(jar) => r is Ok && views(r->Ok_0@) == jar,
            Err(e) => r == Err::<Vec<Cookie>, CookieError>(e),
        },
        r is Ok ==> all_named(views(r->Ok_0@)),
{
    let text = match decode_utf8(raw) {
        Some(t) => t,
        None => return Err(CookieError::Decode),
    };
    let mut out: Vec<Cookie> = Vec::new();
    let mut failed: Option<CookieError> = None;
    let mut cur: Vec<char> = Vec::new();
    let ghost mut done: Seq<Seq<char>> = Seq::empty();
    let mut i: usize = 0;
    assert(text@.take(0) =~= Seq::<char>::empty());
    assert(views(out@) =~= Seq::<CookieView>::empty());
    while i < text.len()
        invariant
            0 <= i <= text@.len(),
            segments(text@.take(i as int)) == done.push(cur@),
            match failed {
                None => segments_result(done) == Ok::<Seq<CookieView>, CookieError>(views(out@)),
                Some(e) => segments_result(done) == Err::<Seq<CookieView>, CookieError>(e),
            },
            no_semicolon(cur@),
            all_named(views(out@)),
        decreases text@.len() - i,
    {
        let c = text[i];
        assert(text@.take(i + 1).drop_last() =~= text@.take(i as int));
        assert(done.push(cur@).drop_last() =~= done);
        if c == ';' {
            if failed.is_none() {
                match take_segment(&mut out, &cur) {
                    Ok(()) => {},
                    Err(e) => {
                        failed = Some(e);
                    },
                }
            }
            proof {
                done = done.push(cur@);
            }
            cur = Vec::new();
            assert(done.push(cur@).drop_last() =~= done);
        } else {
            let ghost old_cur = cur@;
            cur.push(c);
            assert(done.push(old_cur).update(done.len() as int, old_cur.push(c)) =~= done.push(
                cur@,
            ));
        }
        i = i + 1;
    }
    assert(text@.take(i as int) =~= text@);
    assert(done.push(cur@).drop_last() =~= done);
    match failed {
        Some(e) => Err(e),
        None => match take_segment(&mut out, &cur) {
            Ok(()) => Ok(out),
            Err(e) => Err(e),
        },
    }
}

/// Whether `w` is white space only.
pub open spec fn all_ws(w: Seq<char>) -> bool {
    forall|k: int| 0 <= k < w.len() ==> is_ws(w[k])
}

proof fn lemma_trim_start_prefix(w: Seq<char>, x: Seq<char>)
    requires
        all_ws(w),
    ensures
        trim_start(w + x) == trim_start(x),
    decreases w.len(),
{
    if w.len() > 0 {
        assert((w + x)[0] == w[0]);
        assert((w + x).drop_first() =~= w.drop_first() + x);
        lemma_trim_start_prefix(w.drop_first(), x);
    } else {
        assert(w + x =~= x);
    }
}

proof fn lemma_trim_end_suffix(x: Seq<char>, w: Seq<char>)
    requires
        all_ws(w),
    ensures
        trim_end(x + w) == trim_end(x),
    decreases w.len(),
{
    if w.len() > 0 {
        assert((x + w).last() == w.last());
        assert((x + w).drop_last() =~= x + w.drop_last());
        lemma_trim_end_suffix(x, w.drop_last());
    } else {
        assert(x + w =~= x);
    }
}

proof fn lemma_trim_start_suffix(x: Seq<char>, w: Seq<char>)
    requires
        all_ws(w),
    ensures
        trim_start(x).len() == 0 ==> trim_start(x + w).len() == 0,
        trim_start(x).len() > 0 ==> trim_start(x + w) == trim_start(x) + w,
    decreases x.len(),
{
    if x.len() == 0 {
        lemma_trim_start_prefix(w, Seq::empty());
        assert(w + Seq::<char>::empty() =~= w);
        assert(x + w =~= w);
    } else {
        assert((x + w)[0] == x[0]);
        if is_ws(x[0]) {
            assert((x + w).drop_first() =~= x.drop_first() + w);
            lemma_trim_start_suffix(x.drop_first(), w);
        }
    }
}

/// White space around a segment does not change how it trims.
pub proof fn lemma_trim_padding(w1: Seq<char>, x: Seq<char>, w2: Seq<char>)
    requires
        all_ws(w1),
        all_ws(w2),
    ensures
        trim(w1 + x + w2) == trim(x),
{
    assert(w1 + x + w2 =~= w1 + (x + w2));
    lemma_trim_start_prefix(w1, x + w2);
    lemma_trim_start_suffix(x, w2);
    if trim_start(x).len() > 0 {
        lemma_trim_end_suffix(trim_start(x), w2);
    }
}

/// A blank segment, inserted anywhere in a list of segments, changes
/// neither the cookies it reads as nor its error.
pub proof fn lemma_blank_segment(a: Seq<Seq<char>>, b: Seq<char>, c: Seq<Seq<char>>)
    requires
        trim(b).len() == 0,
    ensures
        segments_result(a + seq![b] + c) == segments_result(a + c),
    decreases c.len(),
{
    if c.len() == 0 {
        assert((a + seq![b] + c).drop_last() =~= a);
        assert((a + seq![b] + c).last() == b);
        assert(a + c =~= a);
    } else {
        lemma_blank_segment(a, b, c.drop_last());
        assert((a + seq![b] + c).drop_last() =~= a + seq![b] + c.drop_last());
        assert((a + c).drop_last() =~= a + c.drop_last());
        assert((a + seq![b] + c).last() == c.last());
        assert((a + c).last() == c.last());
    }
}

/// White space padded around a segment changes neither the cookies a
/// list of segments reads as nor its error.
pub proof fn lemma_padded_segment(
    a: Seq<Seq<char>>,
    w1: Seq<char>,
    x: Seq<char>,
    w2: Seq<char>,
    c: Seq<Seq<char>>,
)
    requires
        all_ws(w1),
        all_ws(w2),
    ensures
        segments_result(a + seq![w1 + x + w2] + c) == segments_result(a + seq![x] + c),
    decreases c.len(),
{
    lemma_trim_padding(w1, x, w2);
    if c.len() == 0 {
        assert((a + seq![w1 + x + w2] + c).drop_last() =~= a);
        assert((a + seq![x] + c).drop_last() =~= a);
        assert((a + seq![w1 + x + w2] + c).last() == w1 + x + w2);
        assert((a + seq![x] + c).last() == x);
    } else {
        lemma_padded_segment(a, w1, x, w2, c.drop_last());
        assert((a + seq![w1 + x + w2] + c).drop_last() =~= a + seq![w1 + x + w2] + c.drop_last());
        assert((a + seq![x] + c).drop_last() =~= a + seq![x] + c.drop_last());
        assert((a + seq![w1 + x + w2] + c).last() == c.last());
        assert((a + seq![x] + c).last() == c.last());
    }
}

} // verus!
