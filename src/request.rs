use vstd::prelude::*;
use crate::codec::{all_named, header_result, parse_header, views};
use crate::model::{Cookie, CookieError, CookieView};

verus! {

/// The cookies of a list of `Cookie` header values, in header order and
/// left to right within each, or the error of the first header that fails.
pub open spec fn headers_result(hs: Seq<Seq<u8>>) -> Result<Seq<CookieView>, CookieError>
    decreases hs.len(),
{
    if hs.len() == 0 {
        Ok(Seq::empty())
    } else {
        match headers_result(hs.drop_last()) {
            Ok(a) => match header_result(hs.last()) {
                Ok(b) => Ok(a + b),
                Err(e) => Err(e),
            },
            Err(e) => Err(e),
        }
    }
}

/// The first cookie of `jar` named `name`, scanning left to right.
pub open spec fn first_named(jar: Seq<CookieView>, name: Seq<char>) -> Option<CookieView>
    decreases jar.len(),
{
    if jar.len() == 0 {
        None
    } else if jar[0].name == name {
        Some(jar[0])
    } else {
        first_named(jar.drop_first(), name)
    }
}

/// What a request holds of cookies: its raw `Cookie` header values and the
/// jar, once one has been built.
pub ghost struct RequestView {
    pub headers: Seq<Seq<u8>>,
    pub jar: Option<Seq<CookieView>>,
}

impl RequestView {
    /// A cached jar holds only named cookies.
    pub open spec fn wf(self) -> bool {
        match self.jar {
            Some(j) => all_named(j),
            None => true,
        }
    }

    /// The jar that `cookies` hands out: the cached one, else a fresh parse.
    pub open spec fn cookies_result(self) -> Result<Seq<CookieView>, CookieError> {
        match self.jar {
            Some(j) => Ok(j),
            None => headers_result(self.headers),
        }
    }

    /// The request after `cookies`: a successful parse is cached, a failed
    /// one leaves the request as it was.
    pub open spec fn after_cookies(self) -> RequestView {
        match self.cookies_result() {
            Ok(j) => RequestView { headers: self.headers, jar: Some(j) },
            Err(_) => self,
        }
    }

    /// The request with one more `Cookie` header line.
    pub open spec fn with_header(self, raw: Seq<u8>) -> RequestView {
        RequestView { headers: self.headers.push(raw), jar: self.jar }
    }

    /// What `cookie(name)` returns: the first match, or nothing where the
    /// jar cannot be built.
    pub open spec fn lookup(self, name: Seq<char>) -> Option<CookieView> {
        match self.cookies_result() {
            Ok(j) => first_named(j, name),
            Err(_) => None,
        }
    }
}

/// The cookie-related state of one incoming request.
pub struct HttpRequest {
    cookie_headers: Vec<Vec<u8>>,
    jar: Option<Vec<Cookie>>,
}

impl View for HttpRequest {
    type V = RequestView;

    closed spec fn view(&self) -> RequestView {
        RequestView {
            headers: self.cookie_headers@.map_values(|h: Vec<u8>| h@),
            jar: match self.jar {
                Some(j) => Some(views(j@)),
                None => None,
            },
        }
    }
}

/// Copies a jar.
fn copy_jar(jar: &Vec<Cookie>) -> (r: Vec<Cookie>)
    ensures
        views(r@) == views(jar@),
{
    let mut r: Vec<Cookie> = Vec::new();
    let mut i: usize = 0;
    while i < jar.len()
        invariant
            0 <= i <= jar@.len(),
            views(r@) == views(jar@.take(i as int)),
        decreases jar@.len() - i,
    {
        let c = jar[i].copy();
        let ghost prev = r@;
        r.push(c);
        assert(jar@.take(i + 1) =~= jar@.take(i as int).push(jar@[i as int]));
        assert(views(r@) =~= views(prev).push(c@));
        assert(views(jar@.take(i + 1)) =~= views(jar@.take(i as int)).push(jar@[i as int]@));
        i = i + 1;
    }
    assert(jar@.take(i as int) =~= jar@);
    r
}

impl HttpRequest {
    /// A request without `Cookie` headers.
    pub fn new() -> (r: HttpRequest)
        ensures
            r@.headers == Seq::<Seq<u8>>::empty(),
            r@.jar is None,
            r@.wf(),
    {
        let r = HttpRequest { cookie_headers: Vec::new(), jar: None };
        assert(r@.headers =~= Seq::<Seq<u8>>::empty());
        r
    }

    /// Adds one `Cookie` header line; a jar already built stays as it is.
    pub fn append_cookie_header(&mut self, raw: Vec<u8>)
        requires
            old(self)@.wf(),
        ensures
            final(self)@.wf(),
            final(self)@ == old(self)@.with_header(raw@),
    {
        self.cookie_headers.push(raw);
        assert(final(self)@.headers =~= old(self)@.headers.push(raw@));
    }

    /// Builds the jar from all `Cookie` header lines unless it is there.
    fn load_jar(&mut self) -> (r: Result<(), CookieError>)
        requires
            old(self)@.wf(),
        ensures
            final(self)@.wf(),
            final(self)@ == old(self)@.after_cookies(),
            r is Ok <==> old(self)@.cookies_result() is Ok,
            r is Err ==> r->Err_0 == old(self)@.cookies_result()->Err_0,
            r is Ok ==> final(self).jar is Some,
    {
        if self.jar.is_some() {
            return Ok(());
        }
        let mut all: Vec<Cookie> = Vec::new();
        let mut i: usize = 0;
        let ghost hs = self@.headers;
        assert(hs.take(0) =~= Seq::<Seq<u8>>::empty());
        assert(views(all@) =~= Seq::<CookieView>::empty());
        while i < self.cookie_headers.len()
            invariant
                0 <= i <= hs.len(),
                hs == self@.headers,
                self.jar is None,
                self@ == old(self)@,
                all_named(views(all@)),
                headers_result(hs.take(i as int)) == Ok::<Seq<CookieView>, CookieError>(
                    views(all@),
                ),
            decreases hs.len() - i,
        {
            assert(hs.take(i + 1).drop_last() =~= hs.take(i as int));
            match parse_header(&self.cookie_headers[i]) {
                Ok(part) => {
                    let ghost before = all@;
                    let mut k: usize = 0;
                    while k < part.len()
                        invariant
                            0 <= k <= part@.len(),
                            views(all@) == views(before) + views(part@.take(k as int)),
                            all_named(views(before)),
                            all_named(views(part@)),
                        decreases part@.len() - k,
                    {
                        let c = part[k].copy();
                        let ghost prev = all@;
                        all.push(c);
                        assert(part@.take(k + 1) =~= part@.take(k as int).push(part@[k as int]));
                        assert(views(all@) =~= views(prev).push(c@));
                        assert(views(part@.take(k + 1)) =~= views(part@.take(k as int)).push(
                            part@[k as int]@,
                        ));
                        assert(views(all@) =~= views(before) + views(part@.take(k + 1)));
                        k = k + 1;
                    }
                    assert(part@.take(k as int) =~= part@);
                },
                Err(e) => {
                    proof {
                        Self::lemma_err_stays(hs, i as int + 1, e);
                    }
                    return Err(e);
                },
            }
            i = i + 1;
        }
        assert(hs.take(i as int) =~= hs);
        self.jar = Some(all);
        Ok(())
    }

    /// An error in the first `j` headers is the error of them all.
    proof fn lemma_err_stays(hs: Seq<Seq<u8>>, j: int, e: CookieError)
        requires
            0 <= j <= hs.len(),
            headers_result(hs.take(j)) == Err::<Seq<CookieView>, CookieError>(e),
        ensures
            headers_result(hs) == Err::<Seq<CookieView>, CookieError>(e),
        decreases hs.len() - j,
    {
        if j < hs.len() {
            assert(hs.take(j + 1).drop_last() =~= hs.take(j));
            Self::lemma_err_stays(hs, j + 1, e);
        } else {
            assert(hs.take(j) =~= hs);
        }
    }

    /// The request's cookies, parsed from all `Cookie` header lines on the
    /// first successful call and from the cache after that.
    pub fn cookies(&mut self) -> (r: Result<Vec<Cookie>, CookieError>)
        requires
            old(self)@.wf(),
        ensures
            final(self)@.wf(),
            r is Ok ==> all_named(views(r->Ok_0@)),
            final(self)@ == old(self)@.after_cookies(),
            match old(self)@.cookies_result() {
                Ok(j) => r is Ok && views(r->Ok_0@) == j,
                Err(e) => r == Err::<Vec<Cookie>, CookieError>(e),
            },
    {
        match self.load_jar() {
            Ok(()) => {
                match &self.jar {
                    Some(j) => Ok(copy_jar(j)),
                    None => Err(CookieError::Syntax),
                }
            },
            Err(e) => Err(e),
        }
    }

    /// The first cookie named `name`; nothing where there is none, or where
    /// the jar cannot be built.
    pub fn cookie(&mut self, name: &str) -> (r: Option<Cookie>)
        requires
            old(self)@.wf(),
        ensures
            final(self)@.wf(),
            name@.len() == 0 ==> r is None,
            final(self)@ == old(self)@.after_cookies(),
            match old(self)@.lookup(name@) {
                Some(c) => r is Some && r->0@ == c,
                None => r is None,
            },
    {
        if self.load_jar().is_err() {
            return None;
        }
        let jar = match &self.jar {
            Some(j) => j,
            None => return None,
        };
        let wanted: String = name.to_owned();
        let ghost js = views(jar@);
        let mut i: usize = 0;
        assert(js.subrange(0, js.len() as int) =~= js);
        assert(old(self)@.cookies_result() == Ok::<Seq<CookieView>, CookieError>(js));
        while i < jar.len()
            invariant
                0 <= i <= jar@.len(),
                js == views(jar@),
                wanted@ == name@,
                self@ == old(self)@.after_cookies(),
                all_named(js),
                old(self)@.cookies_result() == Ok::<Seq<CookieView>, CookieError>(js),
                first_named(js, name@) == first_named(js.subrange(i as int, js.len() as int), name@),
            decreases jar@.len() - i,
        {
            assert(js.subrange(i as int, js.len() as int).drop_first() =~= js.subrange(
                i + 1,
                js.len() as int,
            ));
            assert(js[i as int] == jar@[i as int]@);
            assert(js.subrange(i as int, js.len() as int)[0] == js[i as int]);
            let same = jar[i].name.eq(&wanted);
            if same {
                return Some(jar[i].copy());
            }
            i = i + 1;
        }
        None
    }
}

/// Once `cookies` has succeeded, a second call returns the same jar and
/// changes nothing, and `Cookie` lines changed in between in any way
/// (added, removed, replaced, malformed) are not read: the call cannot fail.
pub proof fn lemma_jar_frozen(req: RequestView, changed: Seq<Seq<u8>>)
    requires
        req.cookies_result() is Ok,
    ensures
        req.after_cookies().cookies_result() == req.cookies_result(),
        req.after_cookies().after_cookies() == req.after_cookies(),
        (RequestView { headers: changed, ..req.after_cookies() }).cookies_result()
            == req.cookies_result(),
        (RequestView { headers: changed, ..req.after_cookies() }).after_cookies().jar
            == req.after_cookies().jar,
{
}

/// A failed parse is not remembered: the request is left as it was, so
/// the next call parses again.
pub proof fn lemma_error_not_cached(req: RequestView)
    requires
        req.cookies_result() is Err,
    ensures
        req.after_cookies() == req,
{
}

/// The jar of several `Cookie` lines is the jars of each line, joined in
/// header order; the first line that fails decides the error.
pub proof fn lemma_headers_concat(hs: Seq<Seq<u8>>, raw: Seq<u8>)
    ensures
        headers_result(hs.push(raw)) == match headers_result(hs) {
            Ok(a) => match header_result(raw) {
                Ok(b) => Ok::<Seq<CookieView>, CookieError>(a + b),
                Err(e) => Err(e),
            },
            Err(e) => Err(e),
        },
        headers_result(seq![raw]) == header_result(raw),
{
    assert(hs.push(raw).drop_last() =~= hs);
    assert(seq![raw].drop_last() =~= Seq::<Seq<u8>>::empty());
    assert(seq![raw].last() == raw);
    assert(headers_result(Seq::<Seq<u8>>::empty()) == Ok::<Seq<CookieView>, CookieError>(
        Seq::empty(),
    ));
    match header_result(raw) {
        Ok(b) => assert(Seq::<CookieView>::empty() + b =~= b),
        Err(_) => {},
    }
}

} // verus!
