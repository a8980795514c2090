//! URLs as plain parts.  The `url` crate does the parsing and joining;
//! the library holds only the parts its logic reads: the serialization,
//! the scheme, the host and the path.

use vstd::prelude::*;
use vstd::string::StringExecFns;

use crate::chars::{chars_to_string, str_to_chars};
use crate::html::sopt;
use crate::text::{
    lemma_trim_end_if_index, lemma_trim_start_if_index, occurs_at, trim_end_if, trim_start_if,
};

verus! {

/// A parsed URL, reduced to the parts the resolvers read.
pub struct WebUrl {
    pub full: String,
    pub scheme: String,
    pub host: Option<String>,
    pub path: String,
}

/// The ghost view of a parsed URL.
pub open spec fn wview(u: WebUrl) -> (Seq<char>, Seq<char>, Option<Seq<char>>, Seq<char>) {
    (u.full@, u.scheme@, sopt(u.host), u.path@)
}

/// What `url::Url::parse` yields on a text, as plain parts
/// (serialization, scheme, host, path); `None` when the text does not
/// parse.  The result is a function of the text alone.
pub uninterp spec fn url_parts(s: Seq<char>) -> Option<
    (Seq<char>, Seq<char>, Option<Seq<char>>, Seq<char>),
>;

/// What joining `rel` against the URL serialized as `base` yields.  The
/// result is a function of the two texts alone.
pub uninterp spec fn url_join_parts(base: Seq<char>, rel: Seq<char>) -> Option<
    (Seq<char>, Seq<char>, Option<Seq<char>>, Seq<char>),
>;

/// Relies on `url::Url`: declared so parsed values can pass through the
/// conversion below.
#[verifier::external_type_specification]
#[verifier::external_body]
pub struct ExUrl(url::Url);

/// Relies on `url::Url`'s accessors `as_str`, `scheme`, `host_str` and
/// `path`: each reads one part of the parsed URL.
#[verifier::external_body]
fn to_web(u: &url::Url) -> WebUrl {
    WebUrl {
        full: u.as_str().to_string(),
        scheme: u.scheme().to_string(),
        host: u.host_str().map(|h| h.to_string()),
        path: u.path().to_string(),
    }
}

/// Relies on `url::Url::parse`: parsing depends on the text alone.
#[verifier::external_body]
pub fn parse_url(s: &str) -> (r: Option<WebUrl>)
    ensures
        match r {
            Some(u) => url_parts(s@) == Some(wview(u)),
            None => url_parts(s@) is None,
        },
{
    match url::Url::parse(s) {
        Ok(u) => Some(to_web(&u)),
        Err(_) => None,
    }
}

/// Relies on `url::Url::parse` and `url::Url::join`: re-parsing a URL's
/// own serialization is exact, and joining depends on the base and the
/// candidate alone.
#[verifier::external_body]
pub fn join_url(base: &WebUrl, rel: &str) -> (r: Option<WebUrl>)
    ensures
        match r {
            Some(u) => url_join_parts(base.full@, rel@) == Some(wview(u)),
            None => url_join_parts(base.full@, rel@) is None,
        },
{
    match url::Url::parse(base.full.as_str()) {
        Ok(b) => match b.join(rel) {
            Ok(u) => Some(to_web(&u)),
            Err(_) => None,
        },
        Err(_) => None,
    }
}

/// How a candidate link resolves against a base document URL: taken as
/// it stands when absolute, given the base's scheme when
/// protocol-relative, otherwise joined against the base.
pub open spec fn spec_absolutise(
    base_full: Seq<char>,
    base_scheme: Seq<char>,
    cand: Seq<char>,
) -> Option<(Seq<char>, Seq<char>, Option<Seq<char>>, Seq<char>)> {
    match url_parts(cand) {
        Some(p) => Some(p),
        None => if occurs_at(cand, "//"@, 0) {
            url_parts(base_scheme + seq![':'] + cand)
        } else {
            url_join_parts(base_full, cand)
        },
    }
}

/// Resolve a candidate link against the base document URL.
pub fn absolutise(base: &WebUrl, cand: &str) -> (r: Option<WebUrl>)
    ensures
        match r {
            Some(u) => spec_absolutise(base.full@, base.scheme@, cand@) == Some(wview(u)),
            None => spec_absolutise(base.full@, base.scheme@, cand@) is None,
        },
{
    match parse_url(cand) {
        Some(u) => Some(u),
        None => {
            let cv = str_to_chars(cand);
            let slashes = str_to_chars("//");
            if crate::text::matches_at(&cv, &slashes, 0) {
                let mut t = String::new();
                t.append(base.scheme.as_str());
                t.append(":");
                t.append(cand);
                proof {
                    reveal_strlit(":");
                    assert(t@ =~= base.scheme@ + seq![':'] + cand@);
                }
                parse_url(t.as_str())
            } else {
                join_url(base, cand)
            }
        },
    }
}

/// The slash characters trimmed from the ends of a path.
pub open spec fn slash_pred() -> spec_fn(char) -> bool {
    |c: char| c == '/'
}

/// The key slug of a path: slashes trimmed from both ends, `root` when
/// nothing is left, inner slashes turned into hyphens.
pub open spec fn spec_key_slug(path: Seq<char>) -> Seq<char> {
    let p = trim_end_if(trim_start_if(path, slash_pred()), slash_pred());
    if p.len() == 0 {
        "root"@
    } else {
        Seq::new(
            p.len(),
            |i: int|
                if p[i] == '/' {
                    '-'
                } else {
                    p[i]
                },
        )
    }
}

/// The generated citation key: the kind prefix, the host (or the given
/// fallback), and the path slug, joined with colons.
pub open spec fn spec_build_key(
    prefix: Seq<char>,
    host: Option<Seq<char>>,
    path: Seq<char>,
    fallback_host: Seq<char>,
) -> Seq<char> {
    let h = match host {
        Some(h) => h,
        None => fallback_host,
    };
    prefix + seq![':'] + h + seq![':'] + spec_key_slug(path)
}

/// Build the citation key for a resolved URL.
pub fn build_key(prefix: &str, url: &WebUrl, fallback_host: &str) -> (r: String)
    ensures
        r@ == spec_build_key(prefix@, sopt(url.host), url.path@, fallback_host@),
{
    let pv = str_to_chars(url.path.as_str());
    let n = pv.len();
    let mut a: usize = 0;
    while a < n && pv[a] == '/'
        invariant
            0 <= a <= n,
            n == pv@.len(),
            forall|j: int| 0 <= j < a ==> pv@[j] == '/',
        decreases n - a,
    {
        a += 1;
    }
    proof {
        lemma_trim_start_if_index(pv@, slash_pred(), a as int);
    }
    let ghost mid = pv@.subrange(a as int, n as int);
    let mut b: usize = n;
    while b > a && pv[b - 1] == '/'
        invariant
            a <= b <= n,
            n == pv@.len(),
            forall|j: int| b <= j < n ==> pv@[j] == '/',
        decreases b,
    {
        b -= 1;
    }
    proof {
        assert(forall|j: int| b - a <= j < mid.len() ==> mid[j] == '/');
        if b > a {
            assert(mid[b - a - 1] == pv@[b - 1]);
        }
        lemma_trim_end_if_index(mid, slash_pred(), b - a);
        assert(mid.subrange(0, b - a) =~= pv@.subrange(a as int, b as int));
    }
    let p = crate::text::subvec(&pv, a, b);
    let slug: String;
    if p.len() == 0 {
        slug = String::from_str("root");
        proof {
            assert(p@ =~= Seq::<char>::empty());
        }
    } else {
        let mut out: Vec<char> = Vec::new();
        let mut i: usize = 0;
        while i < p.len()
            invariant
                0 <= i <= p@.len(),
                out@.len() == i,
                forall|j: int|
                    0 <= j < i ==> out@[j] == (if p@[j] == '/' {
                        '-'
                    } else {
                        p@[j]
                    }),
            decreases p@.len() - i,
        {
            if p[i] == '/' {
                out.push('-');
            } else {
                out.push(p[i]);
            }
            i += 1;
        }
        proof {
            assert(out@ =~= spec_key_slug(url.path@));
        }
        slug = chars_to_string(&out);
    }
    let mut r = String::new();
    r.append(prefix);
    r.append(":");
    match &url.host {
        Some(h) => {
            r.append(h.as_str());
        },
        None => {
            r.append(fallback_host);
        },
    }
    r.append(":");
    r.append(slug.as_str());
    proof {
        reveal_strlit(":");
        assert(":"@ =~= seq![':']);
    }
    r
}

} // verus!
