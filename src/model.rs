use vstd::prelude::*;

verus! {

/// The latest instant (in seconds since the Unix epoch) that an expiry may
/// hold: the last second of the year 9999.
pub const MAX_EXPIRES: i64 = 253402300799;

/// The earliest instant (in seconds since the Unix epoch) that an expiry may
/// hold: the first second of the year -9999.
pub const MIN_EXPIRES: i64 = -377705116800;

/// The `SameSite` attribute of a cookie.
#[derive(Clone, Copy, Debug, PartialEq, Eq, Structural)]
pub enum SameSite {
    /// `SameSite=Strict`.
    Strict,
    /// `SameSite=Lax`.
    Lax,
    /// `SameSite=None`: sent on cross-site requests too.
    Unrestricted,
}

/// Why a `Cookie` header could not be read.
#[derive(Clone, Copy, Debug, PartialEq, Eq, Structural)]
pub enum CookieError {
    /// The header bytes, or a percent-decoded name or value, are not UTF-8.
    Decode,
    /// A segment is not a `name=value` pair with a non-empty name.
    Syntax,
}

/// A cookie: its name and value, and the attributes (path, domain, max-age,
/// expiry, secure, http-only, same-site) that are passed through to the
/// `Set-Cookie` line without being interpreted.
#[derive(Clone, Debug)]
pub struct Cookie {
    pub name: String,
    pub value: String,
    pub path: Option<String>,
    pub domain: Option<String>,
    /// Max-Age, in seconds.
    pub max_age: Option<i64>,
    /// Expiry instant, in seconds since the Unix epoch.
    pub expires: Option<i64>,
    pub secure: bool,
    pub http_only: bool,
    pub same_site: Option<SameSite>,
}

/// The mathematical content of a `Cookie`.
pub ghost struct CookieView {
    pub name: Seq<char>,
    pub value: Seq<char>,
    pub path: Option<Seq<char>>,
    pub domain: Option<Seq<char>>,
    pub max_age: Option<i64>,
    pub expires: Option<i64>,
    pub secure: bool,
    pub http_only: bool,
    pub same_site: Option<SameSite>,
}

pub open spec fn opt_view(o: Option<String>) -> Option<Seq<char>> {
    match o {
        Some(s) => Some(s@),
        None => None,
    }
}

/// A cookie with a name and a value and no attributes, as a request carries it.
pub open spec fn plain_cookie(name: Seq<char>, value: Seq<char>) -> CookieView {
    CookieView {
        name,
        value,
        path: None,
        domain: None,
        max_age: None,
        expires: None,
        secure: false,
        http_only: false,
        same_site: None,
    }
}

impl View for Cookie {
    type V = CookieView;

    open spec fn view(&self) -> CookieView {
        CookieView {
            name: self.name@,
            value: self.value@,
            path: opt_view(self.path),
            domain: opt_view(self.domain),
            max_age: self.max_age,
            expires: self.expires,
            secure: self.secure,
            http_only: self.http_only,
            same_site: self.same_site,
        }
    }
}

impl CookieView {
    /// The expiry, where there is one, lies within the years that a
    /// `Set-Cookie` line can state (-9999 to 9999).
    pub open spec fn wf(&self) -> bool {
        match self.expires {
            Some(t) => MIN_EXPIRES <= t <= MAX_EXPIRES,
            None => true,
        }
    }
}

impl Cookie {
    /// A cookie with the given name and value and no attributes.
    pub fn new(name: String, value: String) -> (r: Cookie)
        ensures
            r@ == plain_cookie(name@, value@),
    {
        Cookie {
            name,
            value,
            path: None,
            domain: None,
            max_age: None,
            expires: None,
            secure: false,
            http_only: false,
            same_site: None,
        }
    }

    /// A copy of the cookie.
    pub fn copy(&self) -> (r: Cookie)
        ensures
            r@ == self@,
    {
        let path = match &self.path {
            Some(p) => Some(p.clone()),
            None => None,
        };
        let domain = match &self.domain {
            Some(d) => Some(d.clone()),
            None => None,
        };
        Cookie {
            name: self.name.clone(),
            value: self.value.clone(),
            path,
            domain,
            max_age: self.max_age,
            expires: self.expires,
            secure: self.secure,
            http_only: self.http_only,
            same_site: self.same_site,
        }
    }

    /// The cookie's name.
    pub fn name(&self) -> (r: &str)
        ensures
            r@ == self.name@,
    {
        self.name.as_str()
    }

    /// The cookie's value.
    pub fn value(&self) -> (r: &str)
        ensures
            r@ == self.value@,
    {
        self.value.as_str()
    }
}

} // verus!
