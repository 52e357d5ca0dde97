use vstd::prelude::*;
use ::cookie::time::{Duration, OffsetDateTime};
use ::cookie::SameSite as SiteRule;
use crate::model::{opt_view, Cookie, CookieView, SameSite, MAX_EXPIRES, MIN_EXPIRES};

verus! {

/// Seconds in 365 days: how far in the past a removal cookie expires.
pub const REMOVAL_AGE: i64 = 31536000;

/// The `Set-Cookie` line of a cookie with these parts: the percent-encoded
/// name and value, then the attributes that are set.
pub uninterp spec fn set_cookie_text(
    name: Seq<char>,
    value: Seq<char>,
    path: Option<Seq<char>>,
    domain: Option<Seq<char>>,
    max_age: Option<i64>,
    expires: Option<i64>,
    secure: bool,
    http_only: bool,
    same_site: Option<SameSite>,
) -> Seq<char>;

/// The `Set-Cookie` line of `c`.
pub open spec fn encoding(c: CookieView) -> Seq<char> {
    set_cookie_text(
        c.name,
        c.value,
        c.path,
        c.domain,
        c.max_age,
        c.expires,
        c.secure,
        c.http_only,
        c.same_site,
    )
}

/// The name of the response header that carries an outgoing cookie.
pub open spec fn set_cookie_name() -> Seq<char> {
    seq!['s', 'e', 't', '-', 'c', 'o', 'o', 'k', 'i', 'e']
}

/// The header lines `h` after one more cookie is written.
pub open spec fn with_cookie(h: Seq<(Seq<char>, Seq<char>)>, c: CookieView) -> Seq<
    (Seq<char>, Seq<char>),
> {
    h.push((set_cookie_name(), encoding(c)))
}

/// The removal form of `c`: same name and attributes, empty value, a zero
/// Max-Age and an expiry at `expires_at`.
pub open spec fn removal_view(c: CookieView, expires_at: i64) -> CookieView {
    CookieView { value: Seq::empty(), max_age: Some(0), expires: Some(expires_at), ..c }
}

/// An expiry held within the years a `Set-Cookie` line can state; a later
/// one is capped at the end of the year 9999.
pub open spec fn bounded_expiry(t: i64) -> i64 {
    if t < MIN_EXPIRES {
        MIN_EXPIRES
    } else if t > MAX_EXPIRES {
        MAX_EXPIRES
    } else {
        t
    }
}

/// `c` with its expiry held within the years a `Set-Cookie` line can state.
pub open spec fn bounded(c: CookieView) -> CookieView {
    match c.expires {
        Some(t) => CookieView { expires: Some(bounded_expiry(t)), ..c },
        None => c,
    }
}

/// The expiry of a removal cookie written at `now`: a year earlier, held
/// within the years a `Set-Cookie` line can state.
pub open spec fn removal_expiry(now: i64) -> i64 {
    if now < MIN_EXPIRES + REMOVAL_AGE {
        MIN_EXPIRES
    } else if now - REMOVAL_AGE > MAX_EXPIRES {
        MAX_EXPIRES
    } else {
        (now - REMOVAL_AGE) as i64
    }
}

/// Relies on `cookie::Cookie::encoded` and its `Display`: the `Set-Cookie`
/// line of a cookie is a function of the cookie's parts.
#[verifier::external_body]
fn encode_cookie(c: &Cookie) -> (r: String)
    requires
        c@.wf(),
    ensures
        r@ == set_cookie_text(
            c.name@,
            c.value@,
            opt_view(c.path),
            opt_view(c.domain),
            c.max_age,
            c.expires,
            c.secure,
            c.http_only,
            c.same_site,
        ),
{
    let mut o = ::cookie::Cookie::new(c.name.clone(), c.value.clone());
    if let Some(p) = &c.path { o.set_path(p.clone()); }
    if let Some(d) = &c.domain { o.set_domain(d.clone()); }
    o.set_max_age(c.max_age.map(Duration::seconds));
    o.set_expires(c.expires.map(OffsetDateTime::from_unix_timestamp).and_then(Result::ok));
    o.set_secure(c.secure);
    o.set_http_only(c.http_only);
    o.set_same_site(match c.same_site {
        Some(SameSite::Strict) => Some(SiteRule::Strict),
        Some(SameSite::Lax) => Some(SiteRule::Lax),
        Some(SameSite::Unrestricted) => Some(SiteRule::None),
        None => None,
    });
    o.encoded().to_string()
}

/// Relies on `time::OffsetDateTime::now_utc` and `unix_timestamp`: the
/// current time in seconds since the Unix epoch. Nothing is known of it.
#[verifier::external_body]
fn now_unix() -> (r: i64) {
    OffsetDateTime::now_utc().unix_timestamp()
}

/// The removal form of `c` with the expiry `expires_at`.
pub fn removal(c: &Cookie, expires_at: i64) -> (r: Cookie)
    requires
        MIN_EXPIRES <= expires_at <= MAX_EXPIRES,
    ensures
        r@ == removal_view(c@, expires_at),
        r@.name == c@.name,
        r@.value.len() == 0,
        r@.max_age == Some(0i64),
        r@.expires == Some(expires_at),
        r@.wf(),
{
    let mut r = c.copy();
    r.value = String::new();
    r.max_age = Some(0);
    r.expires = Some(expires_at);
    r
}

/// One response header: a name and a value.
pub struct Header {
    pub name: String,
    pub value: String,
}

/// The headers of an outgoing response, in the order they were appended.
pub struct HttpResponseBuilder {
    headers: Vec<Header>,
}

impl View for HttpResponseBuilder {
    type V = Seq<(Seq<char>, Seq<char>)>;

    closed spec fn view(&self) -> Seq<(Seq<char>, Seq<char>)> {
        self.headers@.map_values(|h: Header| (h.name@, h.value@))
    }
}

impl HttpResponseBuilder {
    /// A response without headers.
    pub fn new() -> (r: HttpResponseBuilder)
        ensures
            r@ == Seq::<(Seq<char>, Seq<char>)>::empty(),
    {
        let r = HttpResponseBuilder { headers: Vec::new() };
        assert(r@ =~= Seq::<(Seq<char>, Seq<char>)>::empty());
        r
    }

    /// Appends one header line; those already there are kept.
    pub fn append_header(&mut self, name: String, value: String)
        ensures
            final(self)@ == old(self)@.push((name@, value@)),
    {
        self.headers.push(Header { name, value });
        assert(final(self)@ =~= old(self)@.push((name@, value@)));
    }

    /// The header lines, in order.
    pub fn headers(&self) -> (r: &Vec<Header>)
        ensures
            r@.map_values(|h: Header| (h.name@, h.value@)) == self@,
    {
        &self.headers
    }

    /// Writes `c` as one more `Set-Cookie` line; an expiry after the year
    /// 9999 is written as the end of that year. Lines already written, for
    /// this name or any other, are kept as they are.
    pub fn cookie(&mut self, c: Cookie)
        ensures
            final(self)@ == with_cookie(old(self)@, bounded(c@)),
            c@.wf() ==> final(self)@ == with_cookie(old(self)@, c@),
    {
        let mut c = c;
        let ghost orig = c@;
        match c.expires {
            Some(t) => {
                let b: i64 = if t < MIN_EXPIRES {
                    MIN_EXPIRES
                } else if t > MAX_EXPIRES {
                    MAX_EXPIRES
                } else {
                    t
                };
                c.expires = Some(b);
            },
            None => {},
        }
        assert(c@ == bounded(orig));
        let line = encode_cookie(&c);
        let name = String::from_str("set-cookie");
        proof {
            reveal_strlit("set-cookie");
        }
        assert(name@ =~= set_cookie_name());
        self.append_header(name, line);
    }

    /// Writes the removal form of `c` as one more `Set-Cookie` line: empty
    /// value, zero Max-Age and an expiry a year before `now` (seconds since
    /// the Unix epoch). Lines already written are kept.
    pub fn del_cookie_at(&mut self, c: &Cookie, now: i64)
        ensures
            final(self)@ == with_cookie(old(self)@, removal_view(c@, removal_expiry(now))),
    {
        let t: i64 = if now < MIN_EXPIRES + REMOVAL_AGE {
            MIN_EXPIRES
        } else if now - REMOVAL_AGE > MAX_EXPIRES {
            MAX_EXPIRES
        } else {
            now - REMOVAL_AGE
        };
        let r = removal(c, t);
        self.cookie(r);
    }

    /// Writes the removal form of `c`, expiring a year before the current
    /// time, as one more `Set-Cookie` line. Lines already written are kept.
    pub fn del_cookie(&mut self, c: &Cookie)
        ensures
            exists|now: i64|
                final(self)@ == with_cookie(old(self)@, removal_view(c@, removal_expiry(now))),
    {
        let now = now_unix();
        self.del_cookie_at(c, now);
    }
}

/// Writing the same cookie twice leaves two equal `Set-Cookie` lines after
/// the earlier ones, the first not replaced by the second.
pub proof fn lemma_writes_append(h: Seq<(Seq<char>, Seq<char>)>, c: CookieView)
    ensures
        with_cookie(with_cookie(h, c), c).len() == h.len() + 2,
        with_cookie(with_cookie(h, c), c).subrange(0, h.len() as int) == h,
        with_cookie(with_cookie(h, c), c)[h.len() as int] == (set_cookie_name(), encoding(c)),
        with_cookie(with_cookie(h, c), c)[h.len() as int + 1] == (set_cookie_name(), encoding(c)),
{
    assert(with_cookie(with_cookie(h, c), c).subrange(0, h.len() as int) =~= h);
}

} // verus!
