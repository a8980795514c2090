//! The arXiv identifier family: normalizing raw ids and arXiv URLs to a
//! canonical id, the category-to-label tables, and the synthesis of a
//! record from the metadata API's Atom response.

use vstd::prelude::*;
use vstd::string::StringExecFns;

use crate::chars::{chars_to_string, is_letter, str_to_chars};
use crate::doi::{cut_qf, digit_run, sclass_run};
use crate::html::{find_char_from, sopt};
use crate::text::{occurs_at, occurs_at_ci, trim_sp};

verus! {

/// A recognized arXiv identifier, normalized to its canonical id and
/// optional version.
pub struct Arxiv {
    /// Canonical arXiv id without version, `1810.04805` or
    /// `astro-ph/0603274` style.
    pub canonical_id: String,
    /// The explicit version number when the input carried one.
    pub version: Option<String>,
    /// Whether the id is legacy-style (archive and slash) or new-style.
    pub legacy: bool,
}

// ------------------------------------------------------------------
// Recognition
// ------------------------------------------------------------------

/// An `arXiv:` or `arxiv:` label stripped from the front.
pub open spec fn arxiv_strip_label(s: Seq<char>) -> Seq<char> {
    if occurs_at(s, "arXiv:"@, 0) {
        crate::text::trim_start_sp(s.skip(6))
    } else if occurs_at(s, "arxiv:"@, 0) {
        crate::text::trim_start_sp(s.skip(6))
    } else {
        s
    }
}

/// A host belongs to arXiv: it ends, ignoring case, in `arxiv.org`,
/// `xxx.lanl.gov` or `export.arxiv.org`.
pub open spec fn arxiv_host(host: Seq<char>) -> bool {
    ||| host.len() >= 9 && occurs_at_ci(host, "arxiv.org"@, host.len() - 9)
    ||| host.len() >= 12 && occurs_at_ci(host, "xxx.lanl.gov"@, host.len() - 12)
    ||| host.len() >= 16 && occurs_at_ci(host, "export.arxiv.org"@, host.len() - 16)
}

/// The candidate id text after URL handling: an `abs/` or `pdf/` path on
/// an arXiv host is unwrapped, a listing or unknown arXiv path rejects,
/// and anything else passes through unchanged.
pub open spec fn arxiv_url_extract(t: Seq<char>) -> Option<Seq<char>> {
    let rest: Option<Seq<char>> = if occurs_at(t, "http://"@, 0) {
        Some(t.skip(7))
    } else if occurs_at(t, "https://"@, 0) {
        Some(t.skip(8))
    } else {
        None
    };
    match rest {
        None => Some(t),
        Some(r) => match find_char_from(r, '/', 0) {
            None => Some(t),
            Some(k) => if !(0 <= k < r.len()) {
                Some(t)
            } else {
                let host = r.take(k);
                let path = r.skip(k + 1);
                if arxiv_host(host) {
                    let comps = cut_qf(path);
                    if occurs_at(comps, "abs/"@, 0) {
                        Some(comps.skip(4))
                    } else if occurs_at(comps, "pdf/"@, 0) {
                        let p = comps.skip(4);
                        if p.len() >= 4 && occurs_at(p, ".pdf"@, p.len() - 4) {
                            Some(p.take(p.len() - 4))
                        } else {
                            Some(p)
                        }
                    } else {
                        None
                    }
                } else {
                    Some(t)
                }
            },
        },
    }
}

/// The slash characters trimmed from both ends.
pub open spec fn trim_slashes(s: Seq<char>) -> Seq<char> {
    crate::text::trim_end_if(
        crate::text::trim_start_if(s, crate::urlweb::slash_pred()),
        crate::urlweb::slash_pred(),
    )
}

/// The text the id patterns are matched against.
pub open spec fn arxiv_candidate(s: Seq<char>) -> Option<Seq<char>> {
    match arxiv_url_extract(arxiv_strip_label(trim_sp(s))) {
        None => None,
        Some(c) => Some(trim_slashes(c)),
    }
}

/// A new-style id: four digits, a dot, four or five digits, and an
/// optional `v<digits>` version, anchored to the whole text.
pub open spec fn match_newstyle(s: Seq<char>) -> Option<(Seq<char>, Option<Seq<char>>)> {
    let d1 = digit_run(s, 0);
    if d1 == 4 && 4 < s.len() && s[4] == '.' {
        let d2 = digit_run(s, 5);
        if 4 <= d2 <= 5 {
            let pos = 5 + d2;
            if pos == s.len() {
                Some((s, None))
            } else if s[pos] == 'v' {
                let dv = digit_run(s, pos + 1);
                if dv >= 1 && pos + 1 + dv == s.len() {
                    Some((s.take(pos), Some(s.skip(pos + 1))))
                } else {
                    None
                }
            } else {
                None
            }
        } else {
            None
        }
    } else {
        None
    }
}

/// A character of a legacy archive name: a letter or a hyphen.
pub open spec fn is_arch_char(c: char) -> bool {
    is_letter(c) || c == '-'
}

/// Length of the run of archive-name characters starting at `i`.
pub open spec fn arch_run(s: Seq<char>, i: int) -> int
    decreases s.len() - i when 0 <= i <= s.len()
{
    if 0 <= i < s.len() && is_arch_char(s[i]) {
        1 + arch_run(s, i + 1)
    } else {
        0
    }
}

/// A legacy id: an archive name, an optional dotted subject, a slash,
/// seven digits, and an optional version, anchored to the whole text.
pub open spec fn match_legacy(s: Seq<char>) -> Option<(Seq<char>, Option<Seq<char>>)> {
    let a = arch_run(s, 0);
    if a >= 1 {
        let sp: int = if a < s.len() && s[a] == '.' {
            let b = arch_run(s, a + 1);
            if b >= 1 {
                a + 1 + b
            } else {
                -1
            }
        } else {
            a
        };
        if 1 <= sp && sp < s.len() && s[sp] == '/' {
            let d = digit_run(s, sp + 1);
            if d == 7 {
                let pos = sp + 8;
                if pos == s.len() {
                    Some((s, None))
                } else if s[pos] == 'v' {
                    let dv = digit_run(s, pos + 1);
                    if dv >= 1 && pos + 1 + dv == s.len() {
                        Some((s.take(pos), Some(s.skip(pos + 1))))
                    } else {
                        None
                    }
                } else {
                    None
                }
            } else {
                None
            }
        } else {
            None
        }
    } else {
        None
    }
}

/// What arXiv recognition returns: the canonical id, the version, and
/// whether the id is legacy-style.
pub open spec fn spec_arxiv_parse(s: Seq<char>) -> Option<(Seq<char>, Option<Seq<char>>, bool)> {
    match arxiv_candidate(s) {
        None => None,
        Some(c) => match match_newstyle(c) {
            Some(p) => Some((p.0, p.1, false)),
            None => match match_legacy(c) {
                Some(p) => Some((p.0, p.1, true)),
                None => None,
            },
        },
    }
}

proof fn lemma_arch_run_exact(s: Seq<char>, i: int, n: int)
    requires
        0 <= i,
        i + n <= s.len(),
        0 <= n,
        forall|j: int| i <= j < i + n ==> is_arch_char(s[j]),
        i + n == s.len() || !is_arch_char(s[i + n]),
    ensures
        arch_run(s, i) == n,
    decreases n,
{
    if n > 0 {
        lemma_arch_run_exact(s, i + 1, n - 1);
    }
}

fn run_arch(v: &Vec<char>, i: usize) -> (n: usize)
    requires
        i <= v@.len(),
    ensures
        i + n <= v@.len(),
        n == arch_run(v@, i as int),
{
    let mut j: usize = i;
    while j < v.len() && (crate::chars::letter(v[j]) || v[j] == '-')
        invariant
            i <= j <= v@.len(),
            forall|m: int| i <= m < j ==> is_arch_char(v@[m]),
        decreases v.len() - j,
    {
        j += 1;
    }
    proof {
        lemma_arch_run_exact(v@, i as int, j - i);
    }
    j - i
}

/// Match the versioned-id tail at `pos`: end of text, or `v` and digits.
fn match_tail(v: &Vec<char>, pos: usize) -> (r: Option<(Vec<char>, Option<Vec<char>>)>)
    requires
        0 < pos <= v@.len(),
    ensures
        ({
            let expect = if pos == v@.len() {
                Some((v@, Option::<Seq<char>>::None))
            } else if v@[pos as int] == 'v' {
                let dv = digit_run(v@, pos + 1);
                if dv >= 1 && pos + 1 + dv == v@.len() {
                    Some((v@.take(pos as int), Some(v@.skip(pos + 1))))
                } else {
                    None
                }
            } else {
                None
            };
            match r {
                Some(p) => expect == Some((p.0@, crate::html::vopt(p.1))),
                None => expect is None,
            }
        }),
{
    let n = v.len();
    if pos == n {
        let core = crate::text::subvec(v, 0, n);
        proof {
            assert(core@ =~= v@);
        }
        return Some((core, None));
    }
    if v[pos] == 'v' {
        let dv = crate::doi::run_digits(v, pos + 1);
        if dv >= 1 && pos + 1 + dv == n {
            let core = crate::text::subvec(v, 0, pos);
            let ver = crate::text::subvec(v, pos + 1, n);
            proof {
                assert(ver@ =~= v@.skip(pos + 1));
            }
            return Some((core, Some(ver)));
        }
        return None;
    }
    None
}

/// Unwrap an arXiv URL to its id candidate.
#[verifier::rlimit(100)]
fn url_candidate(t1: Vec<char>) -> (r: Option<Vec<char>>)
    ensures
        match r {
            Some(c) => arxiv_url_extract(t1@) == Some(c@),
            None => arxiv_url_extract(t1@) is None,
        },
{
    let http = str_to_chars("http://");
    let https = str_to_chars("https://");
    let skip_n: usize = if crate::text::matches_at(&t1, &http, 0) {
        7
    } else if crate::text::matches_at(&t1, &https, 0) {
        8
    } else {
        0
    };
    proof {
        reveal_strlit("http://");
        reveal_strlit("https://");
        assert(http@.len() == 7);
        assert(https@.len() == 8);
    }
    if skip_n == 0 {
        assert(!occurs_at(t1@, "http://"@, 0) && !occurs_at(t1@, "https://"@, 0));
        return Some(t1);
    }
    let r = crate::text::subvec(&t1, skip_n, t1.len());
    proof {
        assert(r@ =~= t1@.skip(skip_n as int));
    }
    match crate::html::find_char(&r, '/', 0) {
        None => Some(t1),
        Some(k) => {
            let host = crate::text::subvec(&r, 0, k);
            let path = crate::text::subvec(&r, k + 1, r.len());
            proof {
                assert(host@ =~= r@.take(k as int));
                assert(path@ =~= r@.skip(k + 1));
            }
            let pat_arxiv = str_to_chars("arxiv.org");
            let pat_lanl = str_to_chars("xxx.lanl.gov");
            let pat_export = str_to_chars("export.arxiv.org");
            proof {
                reveal_strlit("arxiv.org");
                reveal_strlit("xxx.lanl.gov");
                reveal_strlit("export.arxiv.org");
                assert(pat_arxiv@.len() == 9);
                assert(pat_lanl@.len() == 12);
                assert(pat_export@.len() == 16);
            }
            let hn = host.len();
            let is_arxiv = (hn >= 9 && crate::text::matches_at_ci(&host, &pat_arxiv, hn - 9)) || (
            hn >= 12 && crate::text::matches_at_ci(&host, &pat_lanl, hn - 12)) || (hn >= 16
                && crate::text::matches_at_ci(&host, &pat_export, hn - 16));
            if !is_arxiv {
                assert(!arxiv_host(host@));
                return Some(t1);
            }
            assert(arxiv_host(host@));
            let mut q: usize = 0;
            while q < path.len() && path[q] != '?' && path[q] != '#'
                invariant
                    0 <= q <= path@.len(),
                    forall|j: int| 0 <= j < q ==> path@[j] != '?' && path@[j] != '#',
                decreases path@.len() - q,
            {
                q += 1;
            }
            proof {
                crate::doi::lemma_cut_qf_index(path@, q as int);
            }
            let comps = crate::text::subvec(&path, 0, q);
            proof {
                assert(comps@ =~= path@.take(q as int));
            }
            let abs_pat = str_to_chars("abs/");
            let pdf_pat = str_to_chars("pdf/");
            let dotpdf = str_to_chars(".pdf");
            proof {
                reveal_strlit("abs/");
                reveal_strlit("pdf/");
                reveal_strlit(".pdf");
                assert(abs_pat@.len() == 4);
                assert(pdf_pat@.len() == 4);
                assert(dotpdf@.len() == 4);
            }
            if crate::text::matches_at(&comps, &abs_pat, 0) {
                let c = crate::text::subvec(&comps, 4, comps.len());
                proof {
                    assert(c@ =~= comps@.skip(4));
                }
                Some(c)
            } else if crate::text::matches_at(&comps, &pdf_pat, 0) {
                let p = crate::text::subvec(&comps, 4, comps.len());
                proof {
                    assert(p@ =~= comps@.skip(4));
                }
                let pn = p.len();
                if pn >= 4 && crate::text::matches_at(&p, &dotpdf, pn - 4) {
                    let c = crate::text::subvec(&p, 0, pn - 4);
                    proof {
                        assert(c@ =~= p@.take(pn - 4));
                    }
                    Some(c)
                } else {
                    Some(p)
                }
            } else {
                assert(arxiv_url_extract(t1@) is None);
                None
            }
        },
    }
}

/// Trim slashes from both ends of the candidate.
fn trim_slashes_chars(c0: &Vec<char>) -> (r: Vec<char>)
    ensures
        r@ == trim_slashes(c0@),
{
    let cn = c0.len();
    let mut a: usize = 0;
    while a < cn && c0[a] == '/'
        invariant
            0 <= a <= cn,
            cn == c0@.len(),
            forall|j: int| 0 <= j < a ==> c0@[j] == '/',
        decreases cn - a,
    {
        a += 1;
    }
    proof {
        crate::text::lemma_trim_start_if_index(c0@, crate::urlweb::slash_pred(), a as int);
    }
    let ghost midsl = c0@.subrange(a as int, cn as int);
    let mut b: usize = cn;
    while b > a && c0[b - 1] == '/'
        invariant
            a <= b <= cn,
            cn == c0@.len(),
            forall|j: int| b <= j < cn ==> c0@[j] == '/',
        decreases b,
    {
        b -= 1;
    }
    proof {
        assert(forall|j: int| b - a <= j < midsl.len() ==> midsl[j] == '/');
        if b > a {
            assert(midsl[b - a - 1] == c0@[b - 1]);
        }
        crate::text::lemma_trim_end_if_index(midsl, crate::urlweb::slash_pred(), b - a);
        assert(midsl.subrange(0, b - a) =~= c0@.subrange(a as int, b as int));
    }
    crate::text::subvec(c0, a, b)
}

/// Try the new-style pattern on the candidate.
fn try_newstyle(c: &Vec<char>) -> (r: Option<(Vec<char>, Option<Vec<char>>)>)
    ensures
        match r {
            Some(p) => match_newstyle(c@) == Some((p.0@, crate::html::vopt(p.1))),
            None => match_newstyle(c@) is None,
        },
{
    let n = c.len();
    let d1 = crate::doi::run_digits(c, 0);
    if d1 == 4 && 4 < n && c[4] == '.' {
        let d2 = crate::doi::run_digits(c, 5);
        if 4 <= d2 && d2 <= 5 {
            let pos = 5 + d2;
            match_tail(c, pos)
        } else {
            None
        }
    } else {
        None
    }
}

/// Try the legacy pattern on the candidate.
fn try_legacy(c: &Vec<char>) -> (r: Option<(Vec<char>, Option<Vec<char>>)>)
    ensures
        match r {
            Some(p) => match_legacy(c@) == Some((p.0@, crate::html::vopt(p.1))),
            None => match_legacy(c@) is None,
        },
{
    let n = c.len();
    let ar = run_arch(c, 0);
    if ar < 1 {
        return None;
    }
    let sp_opt: Option<usize> = if ar < n && c[ar] == '.' {
        let bsub = run_arch(c, ar + 1);
        if bsub >= 1 {
            Some(ar + 1 + bsub)
        } else {
            None
        }
    } else {
        Some(ar)
    };
    match sp_opt {
        Some(sp) => {
            if sp < n && c[sp] == '/' {
                let d = crate::doi::run_digits(c, sp + 1);
                if d == 7 {
                    match_tail(c, sp + 8)
                } else {
                    None
                }
            } else {
                None
            }
        },
        None => None,
    }
}

impl Arxiv {
    /// Recognize an arXiv id, bare or behind an `arXiv:` label or an
    /// arXiv `abs`/`pdf` URL; listing pages and unknown arXiv paths are
    /// rejected.
    pub fn parse(identifier: &str) -> (r: Option<Arxiv>)
        ensures
            match r {
                Some(a) => spec_arxiv_parse(identifier@) == Some(
                    (a.canonical_id@, sopt(a.version), a.legacy),
                ),
                None => spec_arxiv_parse(identifier@) is None,
            },
    {
        let v0 = str_to_chars(identifier);
        let t0 = crate::text::trim_chars(&v0);
        let label_upper = str_to_chars("arXiv:");
        let label_lower = str_to_chars("arxiv:");
        proof {
            reveal_strlit("arXiv:");
            reveal_strlit("arxiv:");
            assert(label_upper@.len() == 6);
            assert(label_lower@.len() == 6);
        }
        let t1: Vec<char>;
        if crate::text::matches_at(&t0, &label_upper, 0) {
            let rest = crate::text::subvec(&t0, 6, t0.len());
            proof {
                assert(rest@ =~= t0@.skip(6));
            }
            t1 = crate::text::trim_start_chars(&rest);
        } else if crate::text::matches_at(&t0, &label_lower, 0) {
            let rest = crate::text::subvec(&t0, 6, t0.len());
            proof {
                assert(rest@ =~= t0@.skip(6));
            }
            t1 = crate::text::trim_start_chars(&rest);
        } else {
            t1 = t0;
        }
        let c0 = match url_candidate(t1) {
            Some(c) => c,
            None => {
                return None;
            },
        };
        let c = trim_slashes_chars(&c0);
        match try_newstyle(&c) {
            Some((core, ver)) => {
                return Some(
                    Arxiv {
                        canonical_id: chars_to_string(&core),
                        version: match ver {
                            Some(w) => Some(chars_to_string(&w)),
                            None => None,
                        },
                        legacy: false,
                    },
                );
            },
            None => {},
        }
        match try_legacy(&c) {
            Some((core, ver)) => Some(
                Arxiv {
                    canonical_id: chars_to_string(&core),
                    version: match ver {
                        Some(w) => Some(chars_to_string(&w)),
                        None => None,
                    },
                    legacy: true,
                },
            ),
            None => None,
        }
    }
}

// ------------------------------------------------------------------
// The metadata API query URL
// ------------------------------------------------------------------

/// The characters a form-urlencoded query keeps as they stand: letters,
/// digits, `*`, `-`, `.` and `_`.
pub open spec fn form_kept(c: char) -> bool {
    crate::chars::is_alnum(c) || c == '*' || c == '-' || c == '.' || c == '_'
}

/// One byte written as `%` and two uppercase hexadecimal digits.
pub open spec fn pct(b: int) -> Seq<char> {
    seq![
        '%',
        crate::doi::hex_digit((b / 16) as nat),
        crate::doi::hex_digit((b % 16) as nat),
    ]
}

/// One character form-urlencoded: kept characters stand, a space becomes
/// `+`, and every other character's UTF-8 bytes are percent-written.
pub open spec fn form_enc_char(c: char) -> Seq<char> {
    if form_kept(c) {
        seq![c]
    } else if c == ' ' {
        seq!['+']
    } else {
        let u = c as int;
        if u <= 0x7f {
            pct(u)
        } else if u <= 0x7ff {
            pct(0xC0 + u / 64) + pct(0x80 + u % 64)
        } else if u <= 0xffff {
            pct(0xE0 + u / 4096) + pct(0x80 + (u / 64) % 64) + pct(0x80 + u % 64)
        } else {
            pct(0xF0 + u / 262144) + pct(0x80 + (u / 4096) % 64) + pct(0x80 + (u / 64) % 64)
                + pct(0x80 + u % 64)
        }
    }
}

/// A text form-urlencoded, character by character.
pub open spec fn form_encoded(s: Seq<char>) -> Seq<char>
    decreases s.len(),
{
    if s.len() == 0 {
        Seq::empty()
    } else {
        form_encoded(s.drop_last()) + form_enc_char(s.last())
    }
}

/// The metadata API query URL asking for exactly one record by id.
pub open spec fn spec_atom_query_url(id: Seq<char>) -> Seq<char> {
    "https://export.arxiv.org/api/query?id_list="@ + form_encoded(id) + "&max_results=1"@
}

fn push_pct(out: &mut Vec<char>, b: u32)
    requires
        b < 256,
    ensures
        final(out)@ == old(out)@ + pct(b as int),
{
    out.push('%');
    out.push(crate::doi::hex_digit_of(b / 16));
    out.push(crate::doi::hex_digit_of(b % 16));
    proof {
        assert(out@ =~= old(out)@ + pct(b as int));
    }
}

/// Append one form-urlencoded character.
fn push_form_char(out: &mut Vec<char>, c: char)
    ensures
        final(out)@ == old(out)@ + form_enc_char(c),
{
    if crate::chars::alnum(c) || c == '*' || c == '-' || c == '.' || c == '_' {
        out.push(c);
        proof {
            assert(out@ =~= old(out)@ + form_enc_char(c));
        }
    } else if c == ' ' {
        out.push('+');
        proof {
            assert(out@ =~= old(out)@ + form_enc_char(c));
        }
    } else {
        let u = c as u32;
        assert(u <= 0x10FFFF);
        if u <= 0x7f {
            push_pct(out, u);
        } else if u <= 0x7ff {
            push_pct(out, 0xC0 + u / 64);
            push_pct(out, 0x80 + u % 64);
        } else if u <= 0xffff {
            push_pct(out, 0xE0 + u / 4096);
            push_pct(out, 0x80 + (u / 64) % 64);
            push_pct(out, 0x80 + u % 64);
        } else {
            push_pct(out, 0xF0 + u / 262144);
            push_pct(out, 0x80 + (u / 4096) % 64);
            push_pct(out, 0x80 + (u / 64) % 64);
            push_pct(out, 0x80 + u % 64);
        }
    }
}

/// Build the metadata API query URL for an id.
pub fn atom_query_url(id: &str) -> (r: String)
    ensures
        r@ == spec_atom_query_url(id@),
{
    let prefix = str_to_chars("https://export.arxiv.org/api/query?id_list=");
    let suffix = str_to_chars("&max_results=1");
    let v = str_to_chars(id);
    let mut out = prefix;
    let ghost head = out@;
    let mut i: usize = 0;
    while i < v.len()
        invariant
            0 <= i <= v@.len(),
            v@ == id@,
            out@ == head + form_encoded(v@.take(i as int)),
        decreases v@.len() - i,
    {
        let ghost pre = out@;
        push_form_char(&mut out, v[i]);
        i += 1;
        proof {
            assert(v@.take(i as int).drop_last() =~= v@.take(i - 1));
            assert(v@.take(i as int).last() == v@[i - 1]);
            assert(out@ =~= head + form_encoded(v@.take(i as int)));
        }
    }
    proof {
        assert(v@.take(v@.len() as int) =~= v@);
    }
    crate::text::append_all(&mut out, &suffix);
    chars_to_string(&out)
}

// ------------------------------------------------------------------
// Category labels
// ------------------------------------------------------------------

/// Everything before the first `.`.
pub open spec fn cut_dot(s: Seq<char>) -> Seq<char>
    decreases s.len(),
{
    if s.len() == 0 {
        s
    } else if s.first() == '.' {
        Seq::empty()
    } else {
        seq![s.first()] + cut_dot(s.drop_first())
    }
}

proof fn lemma_cut_dot_index(s: Seq<char>, i: int)
    requires
        0 <= i <= s.len(),
        forall|j: int| 0 <= j < i ==> s[j] != '.',
        i == s.len() || s[i] == '.',
    ensures
        cut_dot(s) == s.take(i),
    decreases i,
{
    if s.len() == 0 {
        assert(s.take(0) =~= s);
    } else if s.first() == '.' {
        assert(i == 0);
        assert(s.take(0) =~= Seq::<char>::empty());
    } else {
        assert(i >= 1);
        let d = s.drop_first();
        assert(forall|j: int| 0 <= j < i - 1 ==> d[j] != '.');
        lemma_cut_dot_index(d, i - 1);
        assert(seq![s.first()] + d.take(i - 1) =~= s.take(i));
    }
}

/// Everything before the first dot of a term.
pub fn cut_dot_chars(v: &Vec<char>) -> (r: Vec<char>)
    ensures
        r@ == cut_dot(v@),
{
    let mut q: usize = 0;
    while q < v.len() && v[q] != '.'
        invariant
            0 <= q <= v@.len(),
            forall|j: int| 0 <= j < q ==> v@[j] != '.',
        decreases v@.len() - q,
    {
        q += 1;
    }
    proof {
        lemma_cut_dot_index(v@, q as int);
    }
    let r = crate::text::subvec(v, 0, q);
    proof {
        assert(r@ =~= v@.take(q as int));
    }
    r
}

/// The display names of the archive_name table, looked up by exact term.
pub open spec fn spec_archive_name(t: Seq<char>) -> Option<Seq<char>> {
    if t == "cs"@ {
        Some("Computer Science"@)
    } else if t == "econ"@ {
        Some("Economics"@)
    } else if t == "eess"@ {
        Some("Electrical Engineering and Systems Science"@)
    } else if t == "math"@ {
        Some("Mathematics"@)
    } else if t == "astro-ph"@ {
        Some("Astrophysics"@)
    } else if t == "cond-mat"@ {
        Some("Condensed Matter"@)
    } else if t == "gr-qc"@ {
        Some("General Relativity and Quantum Cosmology"@)
    } else if t == "hep-ex"@ {
        Some("High Energy Physics - Experiment"@)
    } else if t == "hep-lat"@ {
        Some("High Energy Physics - Lattice"@)
    } else if t == "hep-ph"@ {
        Some("High Energy Physics - Phenomenology"@)
    } else if t == "hep-th"@ {
        Some("High Energy Physics - Theory"@)
    } else if t == "math-ph"@ {
        Some("Mathematical Physics"@)
    } else if t == "nlin"@ {
        Some("Nonlinear Sciences"@)
    } else if t == "nucl-ex"@ {
        Some("Nuclear Experiment"@)
    } else if t == "nucl-th"@ {
        Some("Nuclear Theory"@)
    } else if t == "physics"@ {
        Some("Physics"@)
    } else if t == "quant-ph"@ {
        Some("Quantum Physics"@)
    } else if t == "q-bio"@ {
        Some("Quantitative Biology"@)
    } else if t == "q-fin"@ {
        Some("Quantitative Finance"@)
    } else if t == "stat"@ {
        Some("Statistics"@)
    } else {
        None
    }
}

/// Look a term up in the archive_name table.
#[verifier::rlimit(100)]
pub fn archive_name(term: &str) -> (r: Option<&'static str>)
    ensures
        match r {
            Some(l) => spec_archive_name(term@) == Some(l@),
            None => spec_archive_name(term@) is None,
        },
{
    let t = str_to_chars(term);
    if crate::text::eq_chars(&t, &str_to_chars("cs")) {
        Some("Computer Science")
    } else if crate::text::eq_chars(&t, &str_to_chars("econ")) {
        Some("Economics")
    } else if crate::text::eq_chars(&t, &str_to_chars("eess")) {
        Some("Electrical Engineering and Systems Science")
    } else if crate::text::eq_chars(&t, &str_to_chars("math")) {
        Some("Mathematics")
    } else if crate::text::eq_chars(&t, &str_to_chars("astro-ph")) {
        Some("Astrophysics")
    } else if crate::text::eq_chars(&t, &str_to_chars("cond-mat")) {
        Some("Condensed Matter")
    } else if crate::text::eq_chars(&t, &str_to_chars("gr-qc")) {
        Some("General Relativity and Quantum Cosmology")
    } else if crate::text::eq_chars(&t, &str_to_chars("hep-ex")) {
        Some("High Energy Physics - Experiment")
    } else if crate::text::eq_chars(&t, &str_to_chars("hep-lat")) {
        Some("High Energy Physics - Lattice")
    } else if crate::text::eq_chars(&t, &str_to_chars("hep-ph")) {
        Some("High Energy Physics - Phenomenology")
    } else if crate::text::eq_chars(&t, &str_to_chars("hep-th")) {
        Some("High Energy Physics - Theory")
    } else if crate::text::eq_chars(&t, &str_to_chars("math-ph")) {
        Some("Mathematical Physics")
    } else if crate::text::eq_chars(&t, &str_to_chars("nlin")) {
        Some("Nonlinear Sciences")
    } else if crate::text::eq_chars(&t, &str_to_chars("nucl-ex")) {
        Some("Nuclear Experiment")
    } else if crate::text::eq_chars(&t, &str_to_chars("nucl-th")) {
        Some("Nuclear Theory")
    } else if crate::text::eq_chars(&t, &str_to_chars("physics")) {
        Some("Physics")
    } else if crate::text::eq_chars(&t, &str_to_chars("quant-ph")) {
        Some("Quantum Physics")
    } else if crate::text::eq_chars(&t, &str_to_chars("q-bio")) {
        Some("Quantitative Biology")
    } else if crate::text::eq_chars(&t, &str_to_chars("q-fin")) {
        Some("Quantitative Finance")
    } else if crate::text::eq_chars(&t, &str_to_chars("stat")) {
        Some("Statistics")
    } else {
        None
    }
}

/// The display names of the subcategory_name table, looked up by exact term.
pub open spec fn spec_subcategory_name(t: Seq<char>) -> Option<Seq<char>> {
    if t == "cs.AI"@ {
        Some("Artificial Intelligence"@)
    } else if t == "cs.AR"@ {
        Some("Hardware Architecture"@)
    } else if t == "cs.CC"@ {
        Some("Computational Complexity"@)
    } else if t == "cs.CE"@ {
        Some("Computational Engineering, Finance, and Science"@)
    } else if t == "cs.CG"@ {
        Some("Computational Geometry"@)
    } else if t == "cs.CL"@ {
        Some("Computation and Language"@)
    } else if t == "cs.CR"@ {
        Some("Cryptography and Security"@)
    } else if t == "cs.CV"@ {
        Some("Computer Vision and Pattern Recognition"@)
    } else if t == "cs.CY"@ {
        Some("Computers and Society"@)
    } else if t == "cs.DB"@ {
        Some("Databases"@)
    } else if t == "cs.DC"@ {
        Some("Distributed, Parallel, and Cluster Computing"@)
    } else if t == "cs.DL"@ {
        Some("Digital Libraries"@)
    } else if t == "cs.DM"@ {
        Some("Discrete Mathematics"@)
    } else if t == "cs.DS"@ {
        Some("Data Structures and Algorithms"@)
    } else if t == "cs.ET"@ {
        Some("Emerging Technologies"@)
    } else if t == "cs.FL"@ {
        Some("Formal Languages and Automata Theory"@)
    } else if t == "cs.GL"@ {
        Some("General Literature"@)
    } else if t == "cs.GR"@ {
        Some("Graphics"@)
    } else if t == "cs.GT"@ {
        Some("Computer Science and Game Theory"@)
    } else if t == "cs.HC"@ {
        Some("Human-Computer Interaction"@)
    } else if t == "cs.IR"@ {
        Some("Information Retrieval"@)
    } else if t == "cs.IT"@ {
        Some("Information Theory"@)
    } else if t == "cs.LG"@ {
        Some("Machine Learning"@)
    } else if t == "cs.LO"@ {
        Some("Logic in Computer Science"@)
    } else if t == "cs.MA"@ {
        Some("Multiagent Systems"@)
    } else if t == "cs.MM"@ {
        Some("Multimedia"@)
    } else if t == "cs.MS"@ {
        Some("Mathematical Software"@)
    } else if t == "cs.NA"@ {
        Some("Numerical Analysis"@)
    } else if t == "cs.NE"@ {
        Some("Neural and Evolutionary Computing"@)
    } else if t == "cs.NI"@ {
        Some("Networking and Internet Architecture"@)
    } else if t == "cs.OH"@ {
        Some("Other Computer Science"@)
    } else if t == "cs.OS"@ {
        Some("Operating Systems"@)
    } else if t == "cs.PF"@ {
        Some("Performance"@)
    } else if t == "cs.PL"@ {
        Some("Programming Languages"@)
    } else if t == "cs.RO"@ {
        Some("Robotics"@)
    } else if t == "cs.SC"@ {
        Some("Symbolic Computation"@)
    } else if t == "cs.SD"@ {
        Some("Sound"@)
    } else if t == "cs.SE"@ {
        Some("Software Engineering"@)
    } else if t == "cs.SI"@ {
        Some("Social and Information Networks"@)
    } else if t == "cs.SY"@ {
        Some("Systems and Control"@)
    } else if t == "econ.EM"@ {
        Some("Econometrics"@)
    } else if t == "econ.GN"@ {
        Some("General Economics"@)
    } else if t == "econ.TH"@ {
        Some("Theoretical Economics"@)
    } else if t == "eess.AS"@ {
        Some("Audio and Speech Processing"@)
    } else if t == "eess.IV"@ {
        Some("Image and Video Processing"@)
    } else if t == "eess.SP"@ {
        Some("Signal Processing"@)
    } else if t == "eess.SY"@ {
        Some("Systems and Control"@)
    } else if t == "math.AC"@ {
        Some("Commutative Algebra"@)
    } else if t == "math.AG"@ {
        Some("Algebraic Geometry"@)
    } else if t == "math.AP"@ {
        Some("Analysis of PDEs"@)
    } else if t == "math.AT"@ {
        Some("Algebraic Topology"@)
    } else if t == "math.CA"@ {
        Some("Classical Analysis and ODEs"@)
    } else if t == "math.CO"@ {
        Some("Combinatorics"@)
    } else if t == "math.CT"@ {
        Some("Category Theory"@)
    } else if t == "math.CV"@ {
        Some("Complex Variables"@)
    } else if t == "math.DG"@ {
        Some("Differential Geometry"@)
    } else if t == "math.DS"@ {
        Some("Dynamical Systems"@)
    } else if t == "math.FA"@ {
        Some("Functional Analysis"@)
    } else if t == "math.GM"@ {
        Some("General Mathematics"@)
    } else if t == "math.GN"@ {
        Some("General Topology"@)
    } else if t == "math.GR"@ {
        Some("Group Theory"@)
    } else if t == "math.GT"@ {
        Some("Geometric Topology"@)
    } else if t == "math.HO"@ {
        Some("History and Overview"@)
    } else if t == "math.IT"@ {
        Some("Information Theory"@)
    } else if t == "math.KT"@ {
        Some("K-Theory and Homology"@)
    } else if t == "math.LO"@ {
        Some("Logic"@)
    } else if t == "math.MG"@ {
        Some("Metric Geometry"@)
    } else if t == "math.NA"@ {
        Some("Numerical Analysis"@)
    } else if t == "math.NT"@ {
        Some("Number Theory"@)
    } else if t == "math.OA"@ {
        Some("Operator Algebras"@)
    } else if t == "math.OC"@ {
        Some("Optimization and Control"@)
    } else if t == "math.PR"@ {
        Some("Probability"@)
    } else if t == "math.QA"@ {
        Some("Quantum Algebra"@)
    } else if t == "math.RA"@ {
        Some("Rings and Algebras"@)
    } else if t == "math.RT"@ {
        Some("Representation Theory"@)
    } else if t == "math.SG"@ {
        Some("Symplectic Geometry"@)
    } else if t == "math.SP"@ {
        Some("Spectral Theory"@)
    } else if t == "math.ST"@ {
        Some("Statistics Theory"@)
    } else if t == "astro-ph.CO"@ {
        Some("Cosmology and Nongalactic Astrophysics"@)
    } else if t == "astro-ph.EP"@ {
        Some("Earth and Planetary Astrophysics"@)
    } else if t == "astro-ph.GA"@ {
        Some("Astrophysics of Galaxies"@)
    } else if t == "astro-ph.HE"@ {
        Some("High Energy Astrophysical Phenomena"@)
    } else if t == "astro-ph.IM"@ {
        Some("Instrumentation and Methods for Astrophysics"@)
    } else if t == "astro-ph.SR"@ {
        Some("Solar and Stellar Astrophysics"@)
    } else if t == "cond-mat.dis-nn"@ {
        Some("Disordered Systems and Neural Networks"@)
    } else if t == "cond-mat.mes-hall"@ {
        Some("Mesoscale and Nanoscale Physics"@)
    } else if t == "cond-mat.mtrl-sci"@ {
        Some("Materials Science"@)
    } else if t == "cond-mat.other"@ {
        Some("Other Condensed Matter"@)
    } else if t == "cond-mat.quant-gas"@ {
        Some("Quantum Gases"@)
    } else if t == "cond-mat.soft"@ {
        Some("Soft Condensed Matter"@)
    } else if t == "cond-mat.stat-mech"@ {
        Some("Statistical Mechanics"@)
    } else if t == "cond-mat.str-el"@ {
        Some("Strongly Correlated Electrons"@)
    } else if t == "cond-mat.supr-con"@ {
        Some("Superconductivity"@)
    } else if t == "nlin.AO"@ {
        Some("Adaptation and Self-Organizing Systems"@)
    } else if t == "nlin.CD"@ {
        Some("Chaotic Dynamics"@)
    } else if t == "nlin.CG"@ {
        Some("Cellular Automata and Lattice Gases"@)
    } else if t == "nlin.PS"@ {
        Some("Pattern Formation and Solitons"@)
    } else if t == "nlin.SI"@ {
        Some("Exactly Solvable and Integrable Systems"@)
    } else if t == "physics.acc-ph"@ {
        Some("Accelerator Physics"@)
    } else if t == "physics.ao-ph"@ {
        Some("Atmospheric and Oceanic Physics"@)
    } else if t == "physics.app-ph"@ {
        Some("Applied Physics"@)
    } else if t == "physics.atm-clus"@ {
        Some("Atomic and Molecular Clusters"@)
    } else if t == "physics.atom-ph"@ {
        Some("Atomic Physics"@)
    } else if t == "physics.bio-ph"@ {
        Some("Biological Physics"@)
    } else if t == "physics.chem-ph"@ {
        Some("Chemical Physics"@)
    } else if t == "physics.class-ph"@ {
        Some("Classical Physics"@)
    } else if t == "physics.comp-ph"@ {
        Some("Computational Physics"@)
    } else if t == "physics.data-an"@ {
        Some("Data Analysis, Statistics and Probability"@)
    } else if t == "physics.ed-ph"@ {
        Some("Physics Education"@)
    } else if t == "physics.flu-dyn"@ {
        Some("Fluid Dynamics"@)
    } else if t == "physics.gen-ph"@ {
        Some("General Physics"@)
    } else if t == "physics.geo-ph"@ {
        Some("Geophysics"@)
    } else if t == "physics.hist-ph"@ {
        Some("History and Philosophy of Physics"@)
    } else if t == "physics.ins-det"@ {
        Some("Instrumentation and Detectors"@)
    } else if t == "physics.med-ph"@ {
        Some("Medical Physics"@)
    } else if t == "physics.optics"@ {
        Some("Optics"@)
    } else if t == "physics.plasm-ph"@ {
        Some("Plasma Physics"@)
    } else if t == "physics.pop-ph"@ {
        Some("Popular Physics"@)
    } else if t == "physics.soc-ph"@ {
        Some("Physics and Society"@)
    } else if t == "physics.space-ph"@ {
        Some("Space Physics"@)
    } else if t == "q-bio.BM"@ {
        Some("Biomolecules"@)
    } else if t == "q-bio.CB"@ {
        Some("Cell Behavior"@)
    } else if t == "q-bio.GN"@ {
        Some("Genomics"@)
    } else if t == "q-bio.MN"@ {
        Some("Molecular Networks"@)
    } else if t == "q-bio.NC"@ {
        Some("Neurons and Cognition"@)
    } else if t == "q-bio.OT"@ {
        Some("Other Quantitative Biology"@)
    } else if t == "q-bio.PE"@ {
        Some("Populations and Evolution"@)
    } else if t == "q-bio.QM"@ {
        Some("Quantitative Methods"@)
    } else if t == "q-bio.SC"@ {
        Some("Subcellular Processes"@)
    } else if t == "q-bio.TO"@ {
        Some("Tissues and Organs"@)
    } else if t == "q-fin.CP"@ {
        Some("Computational Finance"@)
    } else if t == "q-fin.EC"@ {
        Some("Economics"@)
    } else if t == "q-fin.GN"@ {
        Some("General Finance"@)
    } else if t == "q-fin.MF"@ {
        Some("Mathematical Finance"@)
    } else if t == "q-fin.PM"@ {
        Some("Portfolio Management"@)
    } else if t == "q-fin.PR"@ {
        Some("Pricing of Securities"@)
    } else if t == "q-fin.RM"@ {
        Some("Risk Management"@)
    } else if t == "q-fin.ST"@ {
        Some("Statistical Finance"@)
    } else if t == "q-fin.TR"@ {
        Some("Trading and Market Microstructure"@)
    } else if t == "stat.AP"@ {
        Some("Applications"@)
    } else if t == "stat.CO"@ {
        Some("Computation"@)
    } else if t == "stat.ME"@ {
        Some("Methodology"@)
    } else if t == "stat.ML"@ {
        Some("Machine Learning"@)
    } else if t == "stat.OT"@ {
        Some("Other Statistics"@)
    } else if t == "stat.TH"@ {
        Some("Statistics Theory"@)
    } else {
        None
    }
}

/// Look a term up in the subcategory_name table.
#[verifier::rlimit(100)]
pub fn subcategory_name(term: &str) -> (r: Option<&'static str>)
    ensures
        match r {
            Some(l) => spec_subcategory_name(term@) == Some(l@),
            None => spec_subcategory_name(term@) is None,
        },
{
    let t = str_to_chars(term);
    if crate::text::eq_chars(&t, &str_to_chars("cs.AI")) {
        Some("Artificial Intelligence")
    } else if crate::text::eq_chars(&t, &str_to_chars("cs.AR")) {
        Some("Hardware Architecture")
    } else if crate::text::eq_chars(&t, &str_to_chars("cs.CC")) {
        Some("Computational Complexity")
    } else if crate::text::eq_chars(&t, &str_to_chars("cs.CE")) {
        Some("Computational Engineering, Finance, and Science")
    } else if crate::text::eq_chars(&t, &str_to_chars("cs.CG")) {
        Some("Computational Geometry")
    } else if crate::text::eq_chars(&t, &str_to_chars("cs.CL")) {
        Some("Computation and Language")
    } else if crate::text::eq_chars(&t, &str_to_chars("cs.CR")) {
        Some("Cryptography and Security")
    } else if crate::text::eq_chars(&t, &str_to_chars("cs.CV")) {
        Some("Computer Vision and Pattern Recognition")
    } else if crate::text::eq_chars(&t, &str_to_chars("cs.CY")) {
        Some("Computers and Society")
    } else if crate::text::eq_chars(&t, &str_to_chars("cs.DB")) {
        Some("Databases")
    } else if crate::text::eq_chars(&t, &str_to_chars("cs.DC")) {
        Some("Distributed, Parallel, and Cluster Computing")
    } else if crate::text::eq_chars(&t, &str_to_chars("cs.DL")) {
        Some("Digital Libraries")
    } else if crate::text::eq_chars(&t, &str_to_chars("cs.DM")) {
        Some("Discrete Mathematics")
    } else if crate::text::eq_chars(&t, &str_to_chars("cs.DS")) {
        Some("Data Structures and Algorithms")
    } else if crate::text::eq_chars(&t, &str_to_chars("cs.ET")) {
        Some("Emerging Technologies")
    } else if crate::text::eq_chars(&t, &str_to_chars("cs.FL")) {
        Some("Formal Languages and Automata Theory")
    } else if crate::text::eq_chars(&t, &str_to_chars("cs.GL")) {
        Some("General Literature")
    } else if crate::text::eq_chars(&t, &str_to_chars("cs.GR")) {
        Some("Graphics")
    } else if crate::text::eq_chars(&t, &str_to_chars("cs.GT")) {
        Some("Computer Science and Game Theory")
    } else if crate::text::eq_chars(&t, &str_to_chars("cs.HC")) {
        Some("Human-Computer Interaction")
    } else if crate::text::eq_chars(&t, &str_to_chars("cs.IR")) {
        Some("Information Retrieval")
    } else if crate::text::eq_chars(&t, &str_to_chars("cs.IT")) {
        Some("Information Theory")
    } else if crate::text::eq_chars(&t, &str_to_chars("cs.LG")) {
        Some("Machine Learning")
    } else if crate::text::eq_chars(&t, &str_to_chars("cs.LO")) {
        Some("Logic in Computer Science")
    } else if crate::text::eq_chars(&t, &str_to_chars("cs.MA")) {
        Some("Multiagent Systems")
    } else if crate::text::eq_chars(&t, &str_to_chars("cs.MM")) {
        Some("Multimedia")
    } else if crate::text::eq_chars(&t, &str_to_chars("cs.MS")) {
        Some("Mathematical Software")
    } else if crate::text::eq_chars(&t, &str_to_chars("cs.NA")) {
        Some("Numerical Analysis")
    } else if crate::text::eq_chars(&t, &str_to_chars("cs.NE")) {
        Some("Neural and Evolutionary Computing")
    } else if crate::text::eq_chars(&t, &str_to_chars("cs.NI")) {
        Some("Networking and Internet Architecture")
    } else if crate::text::eq_chars(&t, &str_to_chars("cs.OH")) {
        Some("Other Computer Science")
    } else if crate::text::eq_chars(&t, &str_to_chars("cs.OS")) {
        Some("Operating Systems")
    } else if crate::text::eq_chars(&t, &str_to_chars("cs.PF")) {
        Some("Performance")
    } else if crate::text::eq_chars(&t, &str_to_chars("cs.PL")) {
        Some("Programming Languages")
    } else if crate::text::eq_chars(&t, &str_to_chars("cs.RO")) {
        Some("Robotics")
    } else if crate::text::eq_chars(&t, &str_to_chars("cs.SC")) {
        Some("Symbolic Computation")
    } else if crate::text::eq_chars(&t, &str_to_chars("cs.SD")) {
        Some("Sound")
    } else if crate::text::eq_chars(&t, &str_to_chars("cs.SE")) {
        Some("Software Engineering")
    } else if crate::text::eq_chars(&t, &str_to_chars("cs.SI")) {
        Some("Social and Information Networks")
    } else if crate::text::eq_chars(&t, &str_to_chars("cs.SY")) {
        Some("Systems and Control")
    } else if crate::text::eq_chars(&t, &str_to_chars("econ.EM")) {
        Some("Econometrics")
    } else if crate::text::eq_chars(&t, &str_to_chars("econ.GN")) {
        Some("General Economics")
    } else if crate::text::eq_chars(&t, &str_to_chars("econ.TH")) {
        Some("Theoretical Economics")
    } else if crate::text::eq_chars(&t, &str_to_chars("eess.AS")) {
        Some("Audio and Speech Processing")
    } else if crate::text::eq_chars(&t, &str_to_chars("eess.IV")) {
        Some("Image and Video Processing")
    } else if crate::text::eq_chars(&t, &str_to_chars("eess.SP")) {
        Some("Signal Processing")
    } else if crate::text::eq_chars(&t, &str_to_chars("eess.SY")) {
        Some("Systems and Control")
    } else if crate::text::eq_chars(&t, &str_to_chars("math.AC")) {
        Some("Commutative Algebra")
    } else if crate::text::eq_chars(&t, &str_to_chars("math.AG")) {
        Some("Algebraic Geometry")
    } else if crate::text::eq_chars(&t, &str_to_chars("math.AP")) {
        Some("Analysis of PDEs")
    } else if crate::text::eq_chars(&t, &str_to_chars("math.AT")) {
        Some("Algebraic Topology")
    } else if crate::text::eq_chars(&t, &str_to_chars("math.CA")) {
        Some("Classical Analysis and ODEs")
    } else if crate::text::eq_chars(&t, &str_to_chars("math.CO")) {
        Some("Combinatorics")
    } else if crate::text::eq_chars(&t, &str_to_chars("math.CT")) {
        Some("Category Theory")
    } else if crate::text::eq_chars(&t, &str_to_chars("math.CV")) {
        Some("Complex Variables")
    } else if crate::text::eq_chars(&t, &str_to_chars("math.DG")) {
        Some("Differential Geometry")
    } else if crate::text::eq_chars(&t, &str_to_chars("math.DS")) {
        Some("Dynamical Systems")
    } else if crate::text::eq_chars(&t, &str_to_chars("math.FA")) {
        Some("Functional Analysis")
    } else if crate::text::eq_chars(&t, &str_to_chars("math.GM")) {
        Some("General Mathematics")
    } else if crate::text::eq_chars(&t, &str_to_chars("math.GN")) {
        Some("General Topology")
    } else if crate::text::eq_chars(&t, &str_to_chars("math.GR")) {
        Some("Group Theory")
    } else if crate::text::eq_chars(&t, &str_to_chars("math.GT")) {
        Some("Geometric Topology")
    } else if crate::text::eq_chars(&t, &str_to_chars("math.HO")) {
        Some("History and Overview")
    } else if crate::text::eq_chars(&t, &str_to_chars("math.IT")) {
        Some("Information Theory")
    } else if crate::text::eq_chars(&t, &str_to_chars("math.KT")) {
        Some("K-Theory and Homology")
    } else if crate::text::eq_chars(&t, &str_to_chars("math.LO")) {
        Some("Logic")
    } else if crate::text::eq_chars(&t, &str_to_chars("math.MG")) {
        Some("Metric Geometry")
    } else if crate::text::eq_chars(&t, &str_to_chars("math.NA")) {
        Some("Numerical Analysis")
    } else if crate::text::eq_chars(&t, &str_to_chars("math.NT")) {
        Some("Number Theory")
    } else if crate::text::eq_chars(&t, &str_to_chars("math.OA")) {
        Some("Operator Algebras")
    } else if crate::text::eq_chars(&t, &str_to_chars("math.OC")) {
        Some("Optimization and Control")
    } else if crate::text::eq_chars(&t, &str_to_chars("math.PR")) {
        Some("Probability")
    } else if crate::text::eq_chars(&t, &str_to_chars("math.QA")) {
        Some("Quantum Algebra")
    } else if crate::text::eq_chars(&t, &str_to_chars("math.RA")) {
        Some("Rings and Algebras")
    } else if crate::text::eq_chars(&t, &str_to_chars("math.RT")) {
        Some("Representation Theory")
    } else if crate::text::eq_chars(&t, &str_to_chars("math.SG")) {
        Some("Symplectic Geometry")
    } else if crate::text::eq_chars(&t, &str_to_chars("math.SP")) {
        Some("Spectral Theory")
    } else if crate::text::eq_chars(&t, &str_to_chars("math.ST")) {
        Some("Statistics Theory")
    } else if crate::text::eq_chars(&t, &str_to_chars("astro-ph.CO")) {
        Some("Cosmology and Nongalactic Astrophysics")
    } else if crate::text::eq_chars(&t, &str_to_chars("astro-ph.EP")) {
        Some("Earth and Planetary Astrophysics")
    } else if crate::text::eq_chars(&t, &str_to_chars("astro-ph.GA")) {
        Some("Astrophysics of Galaxies")
    } else if crate::text::eq_chars(&t, &str_to_chars("astro-ph.HE")) {
        Some("High Energy Astrophysical Phenomena")
    } else if crate::text::eq_chars(&t, &str_to_chars("astro-ph.IM")) {
        Some("Instrumentation and Methods for Astrophysics")
    } else if crate::text::eq_chars(&t, &str_to_chars("astro-ph.SR")) {
        Some("Solar and Stellar Astrophysics")
    } else if crate::text::eq_chars(&t, &str_to_chars("cond-mat.dis-nn")) {
        Some("Disordered Systems and Neural Networks")
    } else if crate::text::eq_chars(&t, &str_to_chars("cond-mat.mes-hall")) {
        Some("Mesoscale and Nanoscale Physics")
    } else if crate::text::eq_chars(&t, &str_to_chars("cond-mat.mtrl-sci")) {
        Some("Materials Science")
    } else if crate::text::eq_chars(&t, &str_to_chars("cond-mat.other")) {
        Some("Other Condensed Matter")
    } else if crate::text::eq_chars(&t, &str_to_chars("cond-mat.quant-gas")) {
        Some("Quantum Gases")
    } else if crate::text::eq_chars(&t, &str_to_chars("cond-mat.soft")) {
        Some("Soft Condensed Matter")
    } else if crate::text::eq_chars(&t, &str_to_chars("cond-mat.stat-mech")) {
        Some("Statistical Mechanics")
    } else if crate::text::eq_chars(&t, &str_to_chars("cond-mat.str-el")) {
        Some("Strongly Correlated Electrons")
    } else if crate::text::eq_chars(&t, &str_to_chars("cond-mat.supr-con")) {
        Some("Superconductivity")
    } else if crate::text::eq_chars(&t, &str_to_chars("nlin.AO")) {
        Some("Adaptation and Self-Organizing Systems")
    } else if crate::text::eq_chars(&t, &str_to_chars("nlin.CD")) {
        Some("Chaotic Dynamics")
    } else if crate::text::eq_chars(&t, &str_to_chars("nlin.CG")) {
        Some("Cellular Automata and Lattice Gases")
    } else if crate::text::eq_chars(&t, &str_to_chars("nlin.PS")) {
        Some("Pattern Formation and Solitons")
    } else if crate::text::eq_chars(&t, &str_to_chars("nlin.SI")) {
        Some("Exactly Solvable and Integrable Systems")
    } else if crate::text::eq_chars(&t, &str_to_chars("physics.acc-ph")) {
        Some("Accelerator Physics")
    } else if crate::text::eq_chars(&t, &str_to_chars("physics.ao-ph")) {
        Some("Atmospheric and Oceanic Physics")
    } else if crate::text::eq_chars(&t, &str_to_chars("physics.app-ph")) {
        Some("Applied Physics")
    } else if crate::text::eq_chars(&t, &str_to_chars("physics.atm-clus")) {
        Some("Atomic and Molecular Clusters")
    } else if crate::text::eq_chars(&t, &str_to_chars("physics.atom-ph")) {
        Some("Atomic Physics")
    } else if crate::text::eq_chars(&t, &str_to_chars("physics.bio-ph")) {
        Some("Biological Physics")
    } else if crate::text::eq_chars(&t, &str_to_chars("physics.chem-ph")) {
        Some("Chemical Physics")
    } else if crate::text::eq_chars(&t, &str_to_chars("physics.class-ph")) {
        Some("Classical Physics")
    } else if crate::text::eq_chars(&t, &str_to_chars("physics.comp-ph")) {
        Some("Computational Physics")
    } else if crate::text::eq_chars(&t, &str_to_chars("physics.data-an")) {
        Some("Data Analysis, Statistics and Probability")
    } else if crate::text::eq_chars(&t, &str_to_chars("physics.ed-ph")) {
        Some("Physics Education")
    } else if crate::text::eq_chars(&t, &str_to_chars("physics.flu-dyn")) {
        Some("Fluid Dynamics")
    } else if crate::text::eq_chars(&t, &str_to_chars("physics.gen-ph")) {
        Some("General Physics")
    } else if crate::text::eq_chars(&t, &str_to_chars("physics.geo-ph")) {
        Some("Geophysics")
    } else if crate::text::eq_chars(&t, &str_to_chars("physics.hist-ph")) {
        Some("History and Philosophy of Physics")
    } else if crate::text::eq_chars(&t, &str_to_chars("physics.ins-det")) {
        Some("Instrumentation and Detectors")
    } else if crate::text::eq_chars(&t, &str_to_chars("physics.med-ph")) {
        Some("Medical Physics")
    } else if crate::text::eq_chars(&t, &str_to_chars("physics.optics")) {
        Some("Optics")
    } else if crate::text::eq_chars(&t, &str_to_chars("physics.plasm-ph")) {
        Some("Plasma Physics")
    } else if crate::text::eq_chars(&t, &str_to_chars("physics.pop-ph")) {
        Some("Popular Physics")
    } else if crate::text::eq_chars(&t, &str_to_chars("physics.soc-ph")) {
        Some("Physics and Society")
    } else if crate::text::eq_chars(&t, &str_to_chars("physics.space-ph")) {
        Some("Space Physics")
    } else if crate::text::eq_chars(&t, &str_to_chars("q-bio.BM")) {
        Some("Biomolecules")
    } else if crate::text::eq_chars(&t, &str_to_chars("q-bio.CB")) {
        Some("Cell Behavior")
    } else if crate::text::eq_chars(&t, &str_to_chars("q-bio.GN")) {
        Some("Genomics")
    } else if crate::text::eq_chars(&t, &str_to_chars("q-bio.MN")) {
        Some("Molecular Networks")
    } else if crate::text::eq_chars(&t, &str_to_chars("q-bio.NC")) {
        Some("Neurons and Cognition")
    } else if crate::text::eq_chars(&t, &str_to_chars("q-bio.OT")) {
        Some("Other Quantitative Biology")
    } else if crate::text::eq_chars(&t, &str_to_chars("q-bio.PE")) {
        Some("Populations and Evolution")
    } else if crate::text::eq_chars(&t, &str_to_chars("q-bio.QM")) {
        Some("Quantitative Methods")
    } else if crate::text::eq_chars(&t, &str_to_chars("q-bio.SC")) {
        Some("Subcellular Processes")
    } else if crate::text::eq_chars(&t, &str_to_chars("q-bio.TO")) {
        Some("Tissues and Organs")
    } else if crate::text::eq_chars(&t, &str_to_chars("q-fin.CP")) {
        Some("Computational Finance")
    } else if crate::text::eq_chars(&t, &str_to_chars("q-fin.EC")) {
        Some("Economics")
    } else if crate::text::eq_chars(&t, &str_to_chars("q-fin.GN")) {
        Some("General Finance")
    } else if crate::text::eq_chars(&t, &str_to_chars("q-fin.MF")) {
        Some("Mathematical Finance")
    } else if crate::text::eq_chars(&t, &str_to_chars("q-fin.PM")) {
        Some("Portfolio Management")
    } else if crate::text::eq_chars(&t, &str_to_chars("q-fin.PR")) {
        Some("Pricing of Securities")
    } else if crate::text::eq_chars(&t, &str_to_chars("q-fin.RM")) {
        Some("Risk Management")
    } else if crate::text::eq_chars(&t, &str_to_chars("q-fin.ST")) {
        Some("Statistical Finance")
    } else if crate::text::eq_chars(&t, &str_to_chars("q-fin.TR")) {
        Some("Trading and Market Microstructure")
    } else if crate::text::eq_chars(&t, &str_to_chars("stat.AP")) {
        Some("Applications")
    } else if crate::text::eq_chars(&t, &str_to_chars("stat.CO")) {
        Some("Computation")
    } else if crate::text::eq_chars(&t, &str_to_chars("stat.ME")) {
        Some("Methodology")
    } else if crate::text::eq_chars(&t, &str_to_chars("stat.ML")) {
        Some("Machine Learning")
    } else if crate::text::eq_chars(&t, &str_to_chars("stat.OT")) {
        Some("Other Statistics")
    } else if crate::text::eq_chars(&t, &str_to_chars("stat.TH")) {
        Some("Statistics Theory")
    } else {
        None
    }
}

/// The display names of the full_term_label table, looked up by exact term.
pub open spec fn spec_full_term_label(t: Seq<char>) -> Option<Seq<char>> {
    if t == "math-ph"@ {
        Some("Mathematical Physics"@)
    } else if t == "gr-qc"@ {
        Some("General Relativity and Quantum Cosmology"@)
    } else if t == "hep-ex"@ {
        Some("High Energy Physics - Experiment"@)
    } else if t == "hep-lat"@ {
        Some("High Energy Physics - Lattice"@)
    } else if t == "hep-ph"@ {
        Some("High Energy Physics - Phenomenology"@)
    } else if t == "hep-th"@ {
        Some("High Energy Physics - Theory"@)
    } else if t == "nucl-ex"@ {
        Some("Nuclear Experiment"@)
    } else if t == "nucl-th"@ {
        Some("Nuclear Theory"@)
    } else if t == "quant-ph"@ {
        Some("Quantum Physics"@)
    } else if t == "math.MP"@ {
        Some("Mathematical Physics"@)
    } else {
        None
    }
}

/// Look a term up in the full_term_label table.
#[verifier::rlimit(100)]
pub fn full_term_label(term: &str) -> (r: Option<&'static str>)
    ensures
        match r {
            Some(l) => spec_full_term_label(term@) == Some(l@),
            None => spec_full_term_label(term@) is None,
        },
{
    let t = str_to_chars(term);
    if crate::text::eq_chars(&t, &str_to_chars("math-ph")) {
        Some("Mathematical Physics")
    } else if crate::text::eq_chars(&t, &str_to_chars("gr-qc")) {
        Some("General Relativity and Quantum Cosmology")
    } else if crate::text::eq_chars(&t, &str_to_chars("hep-ex")) {
        Some("High Energy Physics - Experiment")
    } else if crate::text::eq_chars(&t, &str_to_chars("hep-lat")) {
        Some("High Energy Physics - Lattice")
    } else if crate::text::eq_chars(&t, &str_to_chars("hep-ph")) {
        Some("High Energy Physics - Phenomenology")
    } else if crate::text::eq_chars(&t, &str_to_chars("hep-th")) {
        Some("High Energy Physics - Theory")
    } else if crate::text::eq_chars(&t, &str_to_chars("nucl-ex")) {
        Some("Nuclear Experiment")
    } else if crate::text::eq_chars(&t, &str_to_chars("nucl-th")) {
        Some("Nuclear Theory")
    } else if crate::text::eq_chars(&t, &str_to_chars("quant-ph")) {
        Some("Quantum Physics")
    } else if crate::text::eq_chars(&t, &str_to_chars("math.MP")) {
        Some("Mathematical Physics")
    } else {
        None
    }
}

/// The archives with entries of their own: a dot-coded term maps to
/// the archive before the dot when that archive is known.
pub open spec fn spec_primary_class_of(t: Seq<char>) -> Option<Seq<char>> {
    let head = cut_dot(t);
    if head == "cs"@ || head == "econ"@ || head == "eess"@ || head == "math"@ || head == "astro-ph"@ || head == "cond-mat"@ || head == "gr-qc"@ || head == "hep-ex"@ || head == "hep-lat"@ || head == "hep-ph"@ || head == "hep-th"@ || head == "math-ph"@ || head == "nlin"@ || head == "nucl-ex"@ || head == "nucl-th"@ || head == "physics"@ || head == "quant-ph"@ || head == "q-bio"@ || head == "q-fin"@ || head == "stat"@ {
        Some(head)
    } else {
        None
    }
}

/// The archive component of a category term, when it is a known archive.
#[verifier::rlimit(100)]
pub fn primary_class_of(term: &str) -> (r: Option<&'static str>)
    ensures
        match r {
            Some(h) => spec_primary_class_of(term@) == Some(h@),
            None => spec_primary_class_of(term@) is None,
        },
{
    let t = str_to_chars(term);
    let head = cut_dot_chars(&t);
    if crate::text::eq_chars(&head, &str_to_chars("cs")) {
        Some("cs")
    } else if crate::text::eq_chars(&head, &str_to_chars("econ")) {
        Some("econ")
    } else if crate::text::eq_chars(&head, &str_to_chars("eess")) {
        Some("eess")
    } else if crate::text::eq_chars(&head, &str_to_chars("math")) {
        Some("math")
    } else if crate::text::eq_chars(&head, &str_to_chars("astro-ph")) {
        Some("astro-ph")
    } else if crate::text::eq_chars(&head, &str_to_chars("cond-mat")) {
        Some("cond-mat")
    } else if crate::text::eq_chars(&head, &str_to_chars("gr-qc")) {
        Some("gr-qc")
    } else if crate::text::eq_chars(&head, &str_to_chars("hep-ex")) {
        Some("hep-ex")
    } else if crate::text::eq_chars(&head, &str_to_chars("hep-lat")) {
        Some("hep-lat")
    } else if crate::text::eq_chars(&head, &str_to_chars("hep-ph")) {
        Some("hep-ph")
    } else if crate::text::eq_chars(&head, &str_to_chars("hep-th")) {
        Some("hep-th")
    } else if crate::text::eq_chars(&head, &str_to_chars("math-ph")) {
        Some("math-ph")
    } else if crate::text::eq_chars(&head, &str_to_chars("nlin")) {
        Some("nlin")
    } else if crate::text::eq_chars(&head, &str_to_chars("nucl-ex")) {
        Some("nucl-ex")
    } else if crate::text::eq_chars(&head, &str_to_chars("nucl-th")) {
        Some("nucl-th")
    } else if crate::text::eq_chars(&head, &str_to_chars("physics")) {
        Some("physics")
    } else if crate::text::eq_chars(&head, &str_to_chars("quant-ph")) {
        Some("quant-ph")
    } else if crate::text::eq_chars(&head, &str_to_chars("q-bio")) {
        Some("q-bio")
    } else if crate::text::eq_chars(&head, &str_to_chars("q-fin")) {
        Some("q-fin")
    } else if crate::text::eq_chars(&head, &str_to_chars("stat")) {
        Some("stat")
    } else {
        None
    }
}

/// The human-readable label of a category term: a direct full-term
/// label, else the archive name and subcategory joined with ` - `, else
/// the primary archive's display name.
pub open spec fn spec_map_category(t: Seq<char>, primary: Option<Seq<char>>) -> Option<Seq<char>> {
    match spec_full_term_label(t) {
        Some(l) => Some(l),
        None => {
            let arch = cut_dot(t);
            if arch.len() < t.len() && spec_archive_name(arch) is Some && spec_subcategory_name(
                t,
            ) is Some {
                Some(spec_archive_name(arch)->Some_0 + " - "@ + spec_subcategory_name(t)->Some_0)
            } else {
                match primary {
                    Some(p) => spec_archive_name(p),
                    None => None,
                }
            }
        },
    }
}

/// Map a category term to its display label.
pub fn map_category(term: &str, primary: Option<&str>) -> (r: Option<String>)
    ensures
        match r {
            Some(l) => spec_map_category(term@, opt_str_view(primary)) == Some(l@),
            None => spec_map_category(term@, opt_str_view(primary)) is None,
        },
{
    match full_term_label(term) {
        Some(l) => {
            return Some(String::from_str(l));
        },
        None => {},
    }
    let t = str_to_chars(term);
    let arch = cut_dot_chars(&t);
    if arch.len() < t.len() {
        let arch_s = chars_to_string(&arch);
        match archive_name(arch_s.as_str()) {
            Some(an) => {
                match subcategory_name(term) {
                    Some(sn) => {
                        let mut out = String::from_str(an);
                        out.append(" - ");
                        out.append(sn);
                        return Some(out);
                    },
                    None => {},
                }
            },
            None => {},
        }
    }
    match primary {
        Some(p) => {
            match archive_name(p) {
                Some(an) => Some(String::from_str(an)),
                None => None,
            }
        },
        None => None,
    }
}

/// The view of an optional borrowed string.
pub open spec fn opt_str_view(o: Option<&str>) -> Option<Seq<char>> {
    match o {
        Some(s) => Some(s@),
        None => None,
    }
}

// ------------------------------------------------------------------
// Atom scanning
// ------------------------------------------------------------------

/// A character of an XML tag name: anything but whitespace, `/` and `>`.
pub open spec fn is_name_char(c: char) -> bool {
    c != ' ' && c != '\t' && c != '\n' && c != '\r' && c != '/' && c != '>'
}

/// Length of the run of name characters starting at `i`.
pub open spec fn name_run(s: Seq<char>, i: int) -> int
    decreases s.len() - i when 0 <= i <= s.len()
{
    if 0 <= i < s.len() && is_name_char(s[i]) {
        1 + name_run(s, i + 1)
    } else {
        0
    }
}

/// Where the local part of a possibly prefixed name starts: after the
/// last colon.
pub open spec fn local_start(s: Seq<char>, p: int) -> int
    decreases s.len() - p when 0 <= p <= s.len()
{
    match find_char_from(s, ':', p) {
        None => p,
        Some(k) => if p <= k < s.len() {
            local_start(s, k + 1)
        } else {
            p
        },
    }
}

/// The name with any namespace prefix removed.
pub open spec fn local_of(s: Seq<char>) -> Seq<char> {
    s.skip(local_start(s, 0))
}

/// The next opening tag whose local name is `name`, scanning from `p`:
/// the tag's `<` position and its `>` position.
pub open spec fn next_elem(s: Seq<char>, name: Seq<char>, p: int) -> Option<(int, int)>
    decreases s.len() - p when 0 <= p
{
    match find_char_from(s, '<', p) {
        None => None,
        Some(i) => if !(p <= i < s.len()) {
            None
        } else {
            match find_char_from(s, '>', i + 1) {
                None => None,
                Some(j) => if !(i < j < s.len()) {
                    None
                } else {
                    let nm = s.subrange(i + 1, i + 1 + name_run(s, i + 1));
                    if nm.len() > 0 && nm[0] != '/' && nm[0] != '?' && nm[0] != '!' && local_of(nm)
                        == name {
                        Some((i, j))
                    } else {
                        next_elem(s, name, i + 1)
                    }
                },
            }
        },
    }
}

/// The next closing tag whose local name is `name`.
pub open spec fn next_close(s: Seq<char>, name: Seq<char>, p: int) -> Option<(int, int)>
    decreases s.len() - p when 0 <= p
{
    match find_char_from(s, '<', p) {
        None => None,
        Some(i) => if !(p <= i < s.len()) {
            None
        } else {
            match find_char_from(s, '>', i + 1) {
                None => None,
                Some(j) => if !(i < j < s.len()) {
                    None
                } else {
                    if i + 1 < s.len() && s[i + 1] == '/' && local_of(
                        s.subrange(i + 2, i + 2 + name_run(s, i + 2)),
                    ) == name {
                        Some((i, j))
                    } else {
                        next_close(s, name, i + 1)
                    }
                },
            }
        },
    }
}

/// The raw text content of a simple element: from the character after
/// its `>` up to the next `<`.
pub open spec fn elem_text(s: Seq<char>, cs: int) -> Seq<char> {
    match find_char_from(s, '<', cs) {
        Some(k) => if cs <= k <= s.len() {
            s.subrange(cs, k)
        } else {
            s.subrange(cs, s.len() as int)
        },
        None => s.subrange(cs, s.len() as int),
    }
}

/// The inside of the response's first `entry` element.
pub open spec fn entry_region(s: Seq<char>) -> Option<Seq<char>> {
    match next_elem(s, "entry"@, 0) {
        None => None,
        Some(oj) => match next_close(s, "entry"@, oj.1 + 1) {
            Some(cj) => if oj.1 + 1 <= cj.0 <= s.len() {
                Some(s.subrange(oj.1 + 1, cj.0))
            } else {
                Some(s.subrange(oj.1 + 1, s.len() as int))
            },
            None => Some(s.subrange(oj.1 + 1, s.len() as int)),
        },
    }
}

/// First attribute of a tag block whose key's local part equals `key`.
pub open spec fn first_attr_local_from(t: Seq<char>, p: int, key: Seq<char>) -> Option<Seq<char>>
    decreases t.len() - p when 0 <= p
{
    if p >= t.len() {
        None
    } else {
        match crate::html::attr_at(t, p) {
            None => first_attr_local_from(t, p + 1, key),
            Some(a) => if local_of(a.0) == key {
                Some(a.1)
            } else if p < a.2 <= t.len() {
                first_attr_local_from(t, a.2, key)
            } else {
                None
            },
        }
    }
}

/// The author names of the entry: the first `name` inside each `author`
/// element, trimmed, empties dropped.
pub open spec fn authors_from(r: Seq<char>, p: int) -> Seq<Seq<char>>
    decreases r.len() - p when 0 <= p
{
    match next_elem(r, "author"@, p) {
        None => Seq::empty(),
        Some(oj) => {
            let endpos: int = match next_close(r, "author"@, oj.1 + 1) {
                Some(cj) => cj.0,
                None => r.len() as int,
            };
            let inner: Seq<char> = if oj.1 + 1 <= endpos <= r.len() {
                r.subrange(oj.1 + 1, endpos)
            } else {
                r.subrange(oj.1 + 1, r.len() as int)
            };
            let nm: Seq<Seq<char>> = match next_elem(inner, "name"@, 0) {
                Some(nj) => {
                    let t = trim_sp(elem_text(inner, nj.1 + 1));
                    if t.len() > 0 {
                        seq![t]
                    } else {
                        Seq::empty()
                    }
                },
                None => Seq::empty(),
            };
            match next_close(r, "author"@, oj.1 + 1) {
                Some(cj) => if p <= cj.1 && cj.1 < r.len() {
                    nm + authors_from(r, cj.1 + 1)
                } else {
                    nm
                },
                None => nm,
            }
        },
    }
}

/// The `term` attributes of all `category` elements, in order.
pub open spec fn categories_from(r: Seq<char>, p: int) -> Seq<Seq<char>>
    decreases r.len() - p when 0 <= p
{
    match next_elem(r, "category"@, p) {
        None => Seq::empty(),
        Some(oj) => (match first_attr_local_from(r.subrange(oj.0, oj.1 + 1), 0, "term"@) {
            Some(val) => seq![val],
            None => Seq::empty(),
        }) + (if p <= oj.1 && oj.1 < r.len() {
            categories_from(r, oj.1 + 1)
        } else {
            Seq::empty()
        }),
    }
}

/// The `term` attributes of all `primary_category` elements, in order;
/// the last one wins.
pub open spec fn primaries_from(r: Seq<char>, p: int) -> Seq<Seq<char>>
    decreases r.len() - p when 0 <= p
{
    match next_elem(r, "primary_category"@, p) {
        None => Seq::empty(),
        Some(oj) => (match first_attr_local_from(r.subrange(oj.0, oj.1 + 1), 0, "term"@) {
            Some(val) => seq![val],
            None => Seq::empty(),
        }) + (if p <= oj.1 && oj.1 < r.len() {
            primaries_from(r, oj.1 + 1)
        } else {
            Seq::empty()
        }),
    }
}

/// The trimmed non-empty texts of all `comment` elements, in order.
pub open spec fn comments_from(r: Seq<char>, p: int) -> Seq<Seq<char>>
    decreases r.len() - p when 0 <= p
{
    match next_elem(r, "comment"@, p) {
        None => Seq::empty(),
        Some(oj) => (if trim_sp(elem_text(r, oj.1 + 1)).len() > 0 {
            seq![trim_sp(elem_text(r, oj.1 + 1))]
        } else {
            Seq::empty()
        }) + (if p <= oj.1 && oj.1 < r.len() {
            comments_from(r, oj.1 + 1)
        } else {
            Seq::empty()
        }),
    }
}

// ------------------------------------------------------------------
// Related DOIs
// ------------------------------------------------------------------

/// The DOI in a registrar URL beginning at `i`, when the text there
/// reads `http(s)://(dx.)doi.org/10.<digits>/<suffix>`.
pub open spec fn doiurl_here(s: Seq<char>, i: int) -> Option<Seq<char>> {
    if !occurs_at_ci(s, "http"@, i) {
        None
    } else {
        let a = i + 4;
        let b: int = if a < s.len() && (s[a] == 's' || s[a] == 'S') {
            a + 1
        } else {
            a
        };
        if !occurs_at(s, "://"@, b) {
            None
        } else {
            let c0 = b + 3;
            let d0: int = if occurs_at_ci(s, "dx."@, c0) {
                c0 + 3
            } else {
                c0
            };
            if !occurs_at_ci(s, "doi.org/"@, d0) {
                None
            } else {
                let w = d0 + 8;
                if !(w + 3 <= s.len() && s[w] == '1' && s[w + 1] == '0' && s[w + 2] == '.') {
                    None
                } else {
                    let dd = digit_run(s, w + 3);
                    if !(4 <= dd <= 9 && w + 3 + dd < s.len() && s[w + 3 + dd] == '/') {
                        None
                    } else {
                        let m = sclass_run(s, w + 4 + dd);
                        if m < 1 {
                            None
                        } else {
                            Some(s.subrange(w, w + 4 + dd + m))
                        }
                    }
                }
            }
        }
    }
}

/// The first registrar-URL DOI in the text.
pub open spec fn doiurl_scan(s: Seq<char>, i: int) -> Option<Seq<char>>
    decreases s.len() + 1 - i when 0 <= i
{
    if i > s.len() {
        None
    } else {
        match doiurl_here(s, i) {
            Some(d) => Some(d),
            None => doiurl_scan(s, i + 1),
        }
    }
}

/// What `extract_doi_from_url` returns on a link target.
pub open spec fn spec_extract_doi_from_url(s: Seq<char>) -> Option<Seq<char>> {
    doiurl_scan(s, 0)
}

/// The first `link rel="related"` whose target carries a DOI: its tag
/// position and the DOI.
pub open spec fn link_doi_from(r: Seq<char>, p: int) -> Option<(int, Seq<char>)>
    decreases r.len() - p when 0 <= p
{
    match next_elem(r, "link"@, p) {
        None => None,
        Some(oj) => {
            let tag = r.subrange(oj.0, oj.1 + 1);
            let hit: Option<Seq<char>> = match first_attr_local_from(tag, 0, "rel"@) {
                Some(rel) => if rel == "related"@ {
                    match first_attr_local_from(tag, 0, "href"@) {
                        Some(h) => spec_extract_doi_from_url(h),
                        None => None,
                    }
                } else {
                    None
                },
                None => None,
            };
            match hit {
                Some(d) => Some((oj.0, d)),
                None => if p <= oj.1 && oj.1 < r.len() {
                    link_doi_from(r, oj.1 + 1)
                } else {
                    None
                },
            }
        },
    }
}

/// The first non-empty `doi` element: its tag position and trimmed text.
pub open spec fn doi_elem_from(r: Seq<char>, p: int) -> Option<(int, Seq<char>)>
    decreases r.len() - p when 0 <= p
{
    match next_elem(r, "doi"@, p) {
        None => None,
        Some(oj) => {
            let t = trim_sp(elem_text(r, oj.1 + 1));
            if t.len() > 0 {
                Some((oj.0, t))
            } else if p <= oj.1 && oj.1 < r.len() {
                doi_elem_from(r, oj.1 + 1)
            } else {
                None
            }
        },
    }
}

/// The publisher DOI of the entry: the earlier of the first related-link
/// DOI and the first `doi` element, in document order.
pub open spec fn published_doi_of(r: Seq<char>) -> Option<Seq<char>> {
    match (link_doi_from(r, 0), doi_elem_from(r, 0)) {
        (Some(l), Some(d)) => if l.0 <= d.0 {
            Some(l.1)
        } else {
            Some(d.1)
        },
        (Some(l), None) => Some(l.1),
        (None, Some(d)) => Some(d.1),
        (None, None) => None,
    }
}

// ------------------------------------------------------------------
// The entry's metadata
// ------------------------------------------------------------------

/// The metadata read from one Atom entry.
pub struct ArxivMeta {
    pub title: String,
    pub summary: String,
    pub updated: Option<String>,
    pub authors: Vec<String>,
    pub published_doi: Option<String>,
    pub primary_class: Option<String>,
    pub categories: Vec<String>,
    pub comments: Vec<String>,
}

/// The ghost view of the entry metadata.
pub struct AtomV {
    pub title: Seq<char>,
    pub summary: Seq<char>,
    pub updated: Option<Seq<char>>,
    pub authors: Seq<Seq<char>>,
    pub published_doi: Option<Seq<char>>,
    pub primary_class: Option<Seq<char>>,
    pub categories: Seq<Seq<char>>,
    pub comments: Seq<Seq<char>>,
}

pub open spec fn aview(m: ArxivMeta) -> AtomV {
    AtomV {
        title: m.title@,
        summary: m.summary@,
        updated: sopt(m.updated),
        authors: crate::text::sviews(m.authors@),
        published_doi: sopt(m.published_doi),
        primary_class: sopt(m.primary_class),
        categories: crate::text::sviews(m.categories@),
        comments: crate::text::sviews(m.comments@),
    }
}

/// What the scanner reads from the response: the first entry's fields,
/// all empty when no entry is found.
pub open spec fn spec_atom_meta(s: Seq<char>) -> AtomV {
    match entry_region(s) {
        None => AtomV {
            title: Seq::empty(),
            summary: Seq::empty(),
            updated: None,
            authors: Seq::empty(),
            published_doi: None,
            primary_class: None,
            categories: Seq::empty(),
            comments: Seq::empty(),
        },
        Some(r) => AtomV {
            title: match next_elem(r, "title"@, 0) {
                Some(oj) => crate::text::spec_normalize_ws(elem_text(r, oj.1 + 1)),
                None => Seq::empty(),
            },
            summary: match next_elem(r, "summary"@, 0) {
                Some(oj) => trim_sp(elem_text(r, oj.1 + 1)),
                None => Seq::empty(),
            },
            updated: match next_elem(r, "updated"@, 0) {
                Some(oj) => if trim_sp(elem_text(r, oj.1 + 1)).len() > 0 {
                    Some(trim_sp(elem_text(r, oj.1 + 1)))
                } else {
                    None
                },
                None => None,
            },
            authors: authors_from(r, 0),
            published_doi: published_doi_of(r),
            primary_class: {
                let ps = primaries_from(r, 0);
                if ps.len() > 0 {
                    Some(ps.last())
                } else {
                    None
                }
            },
            categories: categories_from(r, 0),
            comments: comments_from(r, 0),
        },
    }
}

/// The entry is missing: no title, summary or author was found.
pub open spec fn spec_atom_empty(s: Seq<char>) -> bool {
    let m = spec_atom_meta(s);
    m.title.len() == 0 && m.summary.len() == 0 && m.authors.len() == 0
}

// ------------------------------------------------------------------
// Executable scanning
// ------------------------------------------------------------------

proof fn lemma_name_run_exact(s: Seq<char>, i: int, n: int)
    requires
        0 <= i,
        i + n <= s.len(),
        0 <= n,
        forall|j: int| i <= j < i + n ==> is_name_char(s[j]),
        i + n == s.len() || !is_name_char(s[i + n]),
    ensures
        name_run(s, i) == n,
    decreases n,
{
    if n > 0 {
        lemma_name_run_exact(s, i + 1, n - 1);
    }
}

fn run_name(v: &Vec<char>, i: usize) -> (n: usize)
    requires
        i <= v@.len(),
    ensures
        i + n <= v@.len(),
        n == name_run(v@, i as int),
{
    let mut j: usize = i;
    while j < v.len() && v[j] != ' ' && v[j] != '\t' && v[j] != '\n' && v[j] != '\r' && v[j] != '/'
        && v[j] != '>'
        invariant
            i <= j <= v@.len(),
            forall|m: int| i <= m < j ==> is_name_char(v@[m]),
        decreases v.len() - j,
    {
        j += 1;
    }
    proof {
        lemma_name_run_exact(v@, i as int, j - i);
    }
    j - i
}

/// The local part of a possibly prefixed name.
fn local_part(v: &Vec<char>) -> (r: Vec<char>)
    ensures
        r@ == local_of(v@),
{
    let mut cur: usize = 0;
    loop
        invariant
            0 <= cur <= v@.len(),
            local_start(v@, 0) == local_start(v@, cur as int),
        decreases v@.len() - cur,
    {
        let n = v.len();
        match crate::html::find_char(v, ':', cur) {
            Some(k) => {
                cur = k + 1;
            },
            None => {
                let r = crate::text::subvec(v, cur, v.len());
                proof {
                    assert(r@ =~= v@.skip(cur as int));
                }
                return r;
            },
        }
    }
}

/// Find the next opening tag with the given local name.
fn find_elem(v: &Vec<char>, name: &Vec<char>, p: usize) -> (r: Option<(usize, usize)>)
    requires
        p <= v@.len() + 1,
    ensures
        match r {
            Some(t) => {
                &&& next_elem(v@, name@, p as int) == Some((t.0 as int, t.1 as int))
                &&& p <= t.0 < t.1 < v@.len()
            },
            None => next_elem(v@, name@, p as int) is None,
        },
{
    let mut pos: usize = p;
    loop
        invariant
            p <= pos <= v@.len() + 1,
            next_elem(v@, name@, p as int) == next_elem(v@, name@, pos as int),
        decreases v@.len() + 1 - pos,
    {
        let n = v.len();
        match crate::html::find_char(v, '<', pos) {
            None => {
                return None;
            },
            Some(i) => {
                match crate::html::find_char(v, '>', i + 1) {
                    None => {
                        return None;
                    },
                    Some(j) => {
                        let nr = run_name(v, i + 1);
                        let nm = crate::text::subvec(v, i + 1, i + 1 + nr);
                        proof {
                            assert(nm@ =~= v@.subrange(i + 1, i + 1 + name_run(v@, i + 1)));
                        }
                        let local = local_part(&nm);
                        let ok = nm.len() > 0 && nm[0] != '/' && nm[0] != '?' && nm[0] != '!'
                            && crate::text::eq_chars(&local, name);
                        if ok {
                            return Some((i, j));
                        }
                        pos = i + 1;
                    },
                }
            },
        }
    }
}

/// Find the next closing tag with the given local name.
fn find_close(v: &Vec<char>, name: &Vec<char>, p: usize) -> (r: Option<(usize, usize)>)
    requires
        p <= v@.len() + 1,
    ensures
        match r {
            Some(t) => {
                &&& next_close(v@, name@, p as int) == Some((t.0 as int, t.1 as int))
                &&& p <= t.0 < t.1 < v@.len()
            },
            None => next_close(v@, name@, p as int) is None,
        },
{
    let mut pos: usize = p;
    loop
        invariant
            p <= pos <= v@.len() + 1,
            next_close(v@, name@, p as int) == next_close(v@, name@, pos as int),
        decreases v@.len() + 1 - pos,
    {
        let n = v.len();
        match crate::html::find_char(v, '<', pos) {
            None => {
                return None;
            },
            Some(i) => {
                match crate::html::find_char(v, '>', i + 1) {
                    None => {
                        return None;
                    },
                    Some(j) => {
                        let ok: bool;
                        if i + 1 < n && v[i + 1] == '/' {
                            let nr = run_name(v, i + 2);
                            let nm = crate::text::subvec(v, i + 2, i + 2 + nr);
                            proof {
                                assert(nm@ =~= v@.subrange(i + 2, i + 2 + name_run(v@, i + 2)));
                            }
                            let local = local_part(&nm);
                            ok = crate::text::eq_chars(&local, name);
                        } else {
                            ok = false;
                        }
                        if ok {
                            return Some((i, j));
                        }
                        pos = i + 1;
                    },
                }
            },
        }
    }
}

/// The raw text after a tag, up to the next `<`.
fn text_of(v: &Vec<char>, cs: usize) -> (r: Vec<char>)
    requires
        cs <= v@.len(),
    ensures
        r@ == elem_text(v@, cs as int),
{
    match crate::html::find_char(v, '<', cs) {
        Some(k) => crate::text::subvec(v, cs, k),
        None => crate::text::subvec(v, cs, v.len()),
    }
}

/// Find the first attribute whose key's local part equals `key`.
fn attr_local(v: &Vec<char>, key: &Vec<char>) -> (r: Option<Vec<char>>)
    ensures
        crate::html::vopt(r) == first_attr_local_from(v@, 0, key@),
{
    let mut p: usize = 0;
    while p < v.len()
        invariant
            0 <= p <= v@.len() + 1,
            first_attr_local_from(v@, 0, key@) == first_attr_local_from(v@, p as int, key@),
        decreases v@.len() + 1 - p,
    {
        match crate::html::exec_attr_at(v, p) {
            None => {
                p = p + 1;
            },
            Some((k, val, end)) => {
                let local = local_part(&k);
                if crate::text::eq_chars(&local, key) {
                    return Some(val);
                }
                p = end;
            },
        }
    }
    None
}

/// Extract a DOI from a registrar URL, if the link points at one.
pub fn extract_doi_from_url(url: &str) -> (r: Option<String>)
    ensures
        sopt(r) == spec_extract_doi_from_url(url@),
{
    let v = str_to_chars(url);
    let n = v.len();
    let http = str_to_chars("http");
    let sep = str_to_chars("://");
    let dx = str_to_chars("dx.");
    let doiorg = str_to_chars("doi.org/");
    proof {
        reveal_strlit("http");
        reveal_strlit("://");
        reveal_strlit("dx.");
        reveal_strlit("doi.org/");
        assert(http@.len() == 4);
        assert(sep@.len() == 3);
        assert(dx@.len() == 3);
        assert(doiorg@.len() == 8);
    }
    let mut i: usize = 0;
    while i < n
        invariant
            0 <= i <= n,
            n == v@.len(),
            v@ == url@,
            http@ == "http"@,
            sep@ == "://"@,
            dx@ == "dx."@,
            doiorg@ == "doi.org/"@,
            http@.len() == 4,
            sep@.len() == 3,
            dx@.len() == 3,
            doiorg@.len() == 8,
            doiurl_scan(v@, 0) == doiurl_scan(v@, i as int),
        decreases n - i,
    {
        if crate::text::matches_at_ci(&v, &http, i) {
            let a = i + 4;
            let b: usize = if a < n && (v[a] == 's' || v[a] == 'S') {
                a + 1
            } else {
                a
            };
            if crate::text::matches_at(&v, &sep, b) {
                let c0 = b + 3;
                let d0: usize = if crate::text::matches_at_ci(&v, &dx, c0) {
                    c0 + 3
                } else {
                    c0
                };
                if crate::text::matches_at_ci(&v, &doiorg, d0) {
                    let w = d0 + 8;
                    if n - w >= 3 && v[w] == '1' && v[w + 1] == '0' && v[w + 2] == '.' {
                        let dd = crate::doi::run_digits(&v, w + 3);
                        if 4 <= dd && dd <= 9 && w + 3 + dd < n && v[w + 3 + dd] == '/' {
                            let m = crate::doi::run_sclass(&v, w + 4 + dd);
                            if m >= 1 {
                                assert(doiurl_here(v@, i as int) == Some(
                                    v@.subrange(w as int, w + 4 + dd + m),
                                ));
                                let d = crate::text::subvec(&v, w, w + 4 + dd + m);
                                return Some(chars_to_string(&d));
                            } else {
                                assert(doiurl_here(v@, i as int) is None);
                            }
                        } else {
                            assert(doiurl_here(v@, i as int) is None);
                        }
                    } else {
                        assert(doiurl_here(v@, i as int) is None);
                    }
                } else {
                    assert(doiurl_here(v@, i as int) is None);
                }
            } else {
                assert(doiurl_here(v@, i as int) is None);
            }
        } else {
            assert(doiurl_here(v@, i as int) is None);
        }
        i += 1;
    }
    proof {
        assert(doiurl_here(v@, i as int) is None);
        assert(doiurl_scan(v@, i + 1) is None);
        assert(doiurl_scan(v@, 0) is None);
    }
    None
}

// ------------------------------------------------------------------
// Entry collectors
// ------------------------------------------------------------------

fn collect_authors(rv: &Vec<char>) -> (r: Vec<String>)
    ensures
        crate::text::sviews(r@) == authors_from(rv@, 0),
{
    let name_author = str_to_chars("author");
    let name_name = str_to_chars("name");
    let mut out: Vec<String> = Vec::new();
    let mut p: usize = 0;
    loop
        invariant
            0 <= p <= rv@.len() + 1,
            name_author@ == "author"@,
            name_name@ == "name"@,
            authors_from(rv@, 0) == crate::text::sviews(out@) + authors_from(rv@, p as int),
        decreases rv@.len() + 1 - p,
    {
        let n = rv.len();
        match find_elem(rv, &name_author, p) {
            None => {
                proof {
                    assert(crate::text::sviews(out@) + authors_from(rv@, p as int)
                        =~= crate::text::sviews(out@));
                }
                return out;
            },
            Some((i, j)) => {
                let close = find_close(rv, &name_author, j + 1);
                let endpos: usize = match close {
                    Some(c) => c.0,
                    None => rv.len(),
                };
                let inner = crate::text::subvec(rv, j + 1, endpos);
                proof {
                    assert(inner@ =~= rv@.subrange(j + 1, endpos as int));
                }
                let ghost old_view = crate::text::sviews(out@);
                match find_elem(&inner, &name_name, 0) {
                    Some((ni, nj)) => {
                        let raw = text_of(&inner, nj + 1);
                        let t = crate::text::trim_chars(&raw);
                        if t.len() > 0 {
                            let ghost gt = t@;
                            out.push(chars_to_string(&t));
                            proof {
                                assert(crate::text::sviews(out@) =~= old_view.push(gt));
                            }
                        }
                    },
                    None => {},
                }
                match close {
                    Some(c) => {
                        proof {
                            assert(crate::text::sviews(out@) + authors_from(rv@, c.1 + 1)
                                =~= authors_from(rv@, 0));
                        }
                        p = c.1 + 1;
                    },
                    None => {
                        proof {
                            assert(crate::text::sviews(out@) =~= authors_from(rv@, 0));
                        }
                        return out;
                    },
                }
            },
        }
    }
}

fn collect_terms(rv: &Vec<char>, elem_name: &str) -> (r: Vec<String>)
    requires
        elem_name@ == "category"@ || elem_name@ == "primary_category"@,
    ensures
        elem_name@ == "category"@ ==> crate::text::sviews(r@) == categories_from(rv@, 0),
        elem_name@ == "primary_category"@ ==> crate::text::sviews(r@) == primaries_from(rv@, 0),
{
    let en = str_to_chars(elem_name);
    let key = str_to_chars("term");
    let mut out: Vec<String> = Vec::new();
    let mut p: usize = 0;
    loop
        invariant
            0 <= p <= rv@.len() + 1,
            en@ == elem_name@,
            key@ == "term"@,
            elem_name@ == "category"@ || elem_name@ == "primary_category"@,
            elem_name@ == "category"@ ==> categories_from(rv@, 0) == crate::text::sviews(out@)
                + categories_from(rv@, p as int),
            elem_name@ == "primary_category"@ ==> primaries_from(rv@, 0) == crate::text::sviews(
                out@,
            ) + primaries_from(rv@, p as int),
        decreases rv@.len() + 1 - p,
    {
        let n = rv.len();
        match find_elem(rv, &en, p) {
            None => {
                proof {
                    if elem_name@ == "category"@ {
                        assert(crate::text::sviews(out@) + categories_from(rv@, p as int)
                            =~= crate::text::sviews(out@));
                    } else {
                        assert(crate::text::sviews(out@) + primaries_from(rv@, p as int)
                            =~= crate::text::sviews(out@));
                    }
                }
                return out;
            },
            Some((i, j)) => {
                let tag = crate::text::subvec(rv, i, j + 1);
                proof {
                    assert(tag@ =~= rv@.subrange(i as int, j + 1));
                }
                let ghost old_view = crate::text::sviews(out@);
                match attr_local(&tag, &key) {
                    Some(val) => {
                        let ghost gv = val@;
                        out.push(chars_to_string(&val));
                        proof {
                            assert(crate::text::sviews(out@) =~= old_view.push(gv));
                        }
                    },
                    None => {},
                }
                proof {
                    if elem_name@ == "category"@ {
                        assert(crate::text::sviews(out@) + categories_from(rv@, j + 1)
                            =~= categories_from(rv@, 0));
                    } else {
                        assert(crate::text::sviews(out@) + primaries_from(rv@, j + 1)
                            =~= primaries_from(rv@, 0));
                    }
                }
                p = j + 1;
            },
        }
    }
}

fn collect_comments(rv: &Vec<char>) -> (r: Vec<String>)
    ensures
        crate::text::sviews(r@) == comments_from(rv@, 0),
{
    let en = str_to_chars("comment");
    let mut out: Vec<String> = Vec::new();
    let mut p: usize = 0;
    loop
        invariant
            0 <= p <= rv@.len() + 1,
            en@ == "comment"@,
            comments_from(rv@, 0) == crate::text::sviews(out@) + comments_from(rv@, p as int),
        decreases rv@.len() + 1 - p,
    {
        let n = rv.len();
        match find_elem(rv, &en, p) {
            None => {
                proof {
                    assert(crate::text::sviews(out@) + comments_from(rv@, p as int)
                        =~= crate::text::sviews(out@));
                }
                return out;
            },
            Some((i, j)) => {
                let raw = text_of(rv, j + 1);
                let t = crate::text::trim_chars(&raw);
                let ghost old_view = crate::text::sviews(out@);
                if t.len() > 0 {
                    let ghost gt = t@;
                    out.push(chars_to_string(&t));
                    proof {
                        assert(crate::text::sviews(out@) =~= old_view.push(gt));
                    }
                }
                proof {
                    assert(crate::text::sviews(out@) + comments_from(rv@, j + 1)
                        =~= comments_from(rv@, 0));
                }
                p = j + 1;
            },
        }
    }
}

fn first_link_doi(rv: &Vec<char>) -> (r: Option<(usize, String)>)
    ensures
        match r {
            Some(t) => link_doi_from(rv@, 0) == Some((t.0 as int, t.1@)),
            None => link_doi_from(rv@, 0) is None,
        },
{
    let en = str_to_chars("link");
    let key_rel = str_to_chars("rel");
    let key_href = str_to_chars("href");
    let related = str_to_chars("related");
    let mut p: usize = 0;
    loop
        invariant
            0 <= p <= rv@.len() + 1,
            en@ == "link"@,
            key_rel@ == "rel"@,
            key_href@ == "href"@,
            related@ == "related"@,
            link_doi_from(rv@, 0) == link_doi_from(rv@, p as int),
        decreases rv@.len() + 1 - p,
    {
        let n = rv.len();
        match find_elem(rv, &en, p) {
            None => {
                return None;
            },
            Some((i, j)) => {
                let tag = crate::text::subvec(rv, i, j + 1);
                proof {
                    assert(tag@ =~= rv@.subrange(i as int, j + 1));
                }
                let mut hit: Option<String> = None;
                match attr_local(&tag, &key_rel) {
                    Some(rel) => {
                        if crate::text::eq_chars(&rel, &related) {
                            match attr_local(&tag, &key_href) {
                                Some(h) => {
                                    let hs = chars_to_string(&h);
                                    hit = extract_doi_from_url(hs.as_str());
                                },
                                None => {},
                            }
                        }
                    },
                    None => {},
                }
                match hit {
                    Some(d) => {
                        return Some((i, d));
                    },
                    None => {
                        p = j + 1;
                    },
                }
            },
        }
    }
}

fn first_doi_elem(rv: &Vec<char>) -> (r: Option<(usize, String)>)
    ensures
        match r {
            Some(t) => doi_elem_from(rv@, 0) == Some((t.0 as int, t.1@)),
            None => doi_elem_from(rv@, 0) is None,
        },
{
    let en = str_to_chars("doi");
    let mut p: usize = 0;
    loop
        invariant
            0 <= p <= rv@.len() + 1,
            en@ == "doi"@,
            doi_elem_from(rv@, 0) == doi_elem_from(rv@, p as int),
        decreases rv@.len() + 1 - p,
    {
        let n = rv.len();
        match find_elem(rv, &en, p) {
            None => {
                return None;
            },
            Some((i, j)) => {
                let raw = text_of(rv, j + 1);
                let t = crate::text::trim_chars(&raw);
                if t.len() > 0 {
                    return Some((i, chars_to_string(&t)));
                }
                p = j + 1;
            },
        }
    }
}

/// Read the first entry of the metadata API's Atom response.
///
/// The elements are found by tag-level scanning, with no check of XML
/// well-formedness: a malformed document is not reported as such, it
/// simply yields whatever the scan finds, and reading fails only when
/// no title, summary or author comes out of it.
pub fn parse_atom_entry(xml: &str, id: &str) -> (r: Result<ArxivMeta, String>)
    ensures
        match r {
            Ok(m) => !spec_atom_empty(xml@) && aview(m) == spec_atom_meta(xml@),
            Err(e) => spec_atom_empty(xml@) && e@ == "no Atom entry found for arXiv id "@ + id@,
        },
{
    let v = str_to_chars(xml);
    let name_entry = str_to_chars("entry");
    let n0 = v.len();
    let meta: ArxivMeta = match find_elem(&v, &name_entry, 0) {
        None => ArxivMeta {
            title: String::new(),
            summary: String::new(),
            updated: None,
            authors: Vec::new(),
            published_doi: None,
            primary_class: None,
            categories: Vec::new(),
            comments: Vec::new(),
        },
        Some((i, j)) => {
            let endpos: usize = match find_close(&v, &name_entry, j + 1) {
                Some(c) => c.0,
                None => v.len(),
            };
            let rv = crate::text::subvec(&v, j + 1, endpos);
            proof {
                assert(rv@ =~= v@.subrange(j + 1, endpos as int));
            }
            let name_title = str_to_chars("title");
            let name_summary = str_to_chars("summary");
            let name_updated = str_to_chars("updated");
            let title: String = match find_elem(&rv, &name_title, 0) {
                Some((ti, tj)) => {
                    let raw = text_of(&rv, tj + 1);
                    let norm = crate::text::normalize_chars(&raw);
                    chars_to_string(&norm)
                },
                None => String::new(),
            };
            let summary: String = match find_elem(&rv, &name_summary, 0) {
                Some((ti, tj)) => {
                    let raw = text_of(&rv, tj + 1);
                    let t = crate::text::trim_chars(&raw);
                    chars_to_string(&t)
                },
                None => String::new(),
            };
            let updated: Option<String> = match find_elem(&rv, &name_updated, 0) {
                Some((ti, tj)) => {
                    let raw = text_of(&rv, tj + 1);
                    let t = crate::text::trim_chars(&raw);
                    if t.len() > 0 {
                        Some(chars_to_string(&t))
                    } else {
                        None
                    }
                },
                None => None,
            };
            let authors = collect_authors(&rv);
            let published_doi: Option<String> = {
                let l = first_link_doi(&rv);
                let d = first_doi_elem(&rv);
                match (l, d) {
                    (Some(lp), Some(dp)) => if lp.0 <= dp.0 {
                        Some(lp.1)
                    } else {
                        Some(dp.1)
                    },
                    (Some(lp), None) => Some(lp.1),
                    (None, Some(dp)) => Some(dp.1),
                    (None, None) => None,
                }
            };
            let primaries = collect_terms(&rv, "primary_category");
            let primary_class: Option<String> = if primaries.len() > 0 {
                let last = primaries.len() - 1;
                Some(primaries[last].clone())
            } else {
                None
            };
            let categories = collect_terms(&rv, "category");
            let comments = collect_comments(&rv);
            ArxivMeta {
                title,
                summary,
                updated,
                authors,
                published_doi,
                primary_class,
                categories,
                comments,
            }
        },
    };
    if meta.title.as_str().is_empty() && meta.summary.as_str().is_empty() && meta.authors.len()
        == 0 {
        proof {
            assert(crate::text::sviews(meta.authors@).len() == meta.authors@.len());
        }
        let mut e = String::from_str("no Atom entry found for arXiv id ");
        e.append(id);
        Err(e)
    } else {
        proof {
            assert(crate::text::sviews(meta.authors@).len() == meta.authors@.len());
        }
        Ok(meta)
    }
}

// ------------------------------------------------------------------
// The record text
// ------------------------------------------------------------------

/// A label added to the keyword list unless it is already there.
pub open spec fn add_tag(acc: Seq<Seq<char>>, t: Option<Seq<char>>) -> Seq<Seq<char>> {
    match t {
        Some(l) => if acc.contains(l) {
            acc
        } else {
            acc.push(l)
        },
        None => acc,
    }
}

/// The category labels folded left to right into the keyword list.
pub open spec fn tags_fold(
    cats: Seq<Seq<char>>,
    primary: Option<Seq<char>>,
    i: int,
    acc: Seq<Seq<char>>,
) -> Seq<Seq<char>>
    decreases cats.len() - i when 0 <= i
{
    if i >= cats.len() {
        acc
    } else {
        tags_fold(cats, primary, i + 1, add_tag(acc, spec_map_category(cats[i], primary)))
    }
}

/// The keyword labels of the entry: mapped category labels without
/// duplicates, or the primary class's own label when the list comes out
/// empty.
pub open spec fn spec_tags(cats: Seq<Seq<char>>, primary: Option<Seq<char>>) -> Seq<Seq<char>> {
    let t0 = tags_fold(cats, primary, 0, Seq::empty());
    if t0.len() == 0 {
        match primary {
            Some(pc) => match spec_map_category(pc, Some(pc)) {
                Some(l) => seq![l],
                None => t0,
            },
            None => t0,
        }
    } else {
        t0
    }
}

/// The comments joined as one note.
pub open spec fn spec_note(cs: Seq<Seq<char>>) -> Seq<char>
    decreases cs.len(),
{
    if cs.len() == 0 {
        Seq::empty()
    } else if cs.len() == 1 {
        "Comment: "@ + cs[0]
    } else {
        spec_note(cs.drop_last()) + "; Comment: "@ + cs.last()
    }
}

/// The rendered field lines of the entry.
pub open spec fn spec_arxiv_lines(
    m: AtomV,
    id: Seq<char>,
    version: Option<Seq<char>>,
    legacy: bool,
) -> Seq<Seq<char>> {
    let key = "arXiv:"@ + id;
    let url = "https://arxiv.org/abs/"@ + id;
    let doi = match m.published_doi {
        Some(d) => d,
        None => "10.48550/arXiv."@ + id,
    };
    let tags = spec_tags(m.categories, m.primary_class);
    seq!["title = {"@ + m.title + "}"@] + (if trim_sp(m.summary).len() > 0 {
        seq!["abstract = {"@ + m.summary + "}"@]
    } else {
        Seq::<Seq<char>>::empty()
    }) + (match m.updated {
        Some(d) => seq!["date = {"@ + d + "}"@],
        None => Seq::<Seq<char>>::empty(),
    }) + (if m.authors.len() > 0 {
        seq!["author = {"@ + crate::extract::join_with(m.authors, " and "@) + "}"@]
    } else {
        Seq::<Seq<char>>::empty()
    }) + seq!["doi = {"@ + doi + "}"@] + seq!["url = {"@ + url + "}"@] + seq![
        "eprinttype = {arXiv}"@,
    ] + seq!["eprint = {"@ + id + "}"@] + (if !legacy && (match m.primary_class {
        Some(pc) => spec_primary_class_of(pc) is Some,
        None => false,
    }) {
        seq![
            "eprintclass = {"@ + spec_primary_class_of(m.primary_class->Some_0)->Some_0 + "}"@,
        ]
    } else {
        Seq::<Seq<char>>::empty()
    }) + (match version {
        Some(vv) => seq!["eprintversion = {"@ + vv + "}"@],
        None => Seq::<Seq<char>>::empty(),
    }) + seq!["publisher = {arXiv}"@] + seq!["number = {"@ + key + "}"@] + (if tags.len() > 0 {
        seq!["keywords = {"@ + crate::extract::join_with(tags, ", "@) + "}"@]
    } else {
        Seq::<Seq<char>>::empty()
    }) + (if m.comments.len() > 0 {
        seq!["note = {"@ + spec_note(m.comments) + "}"@]
    } else {
        Seq::<Seq<char>>::empty()
    })
}

/// The rendered lines, each indented and comma-terminated.
pub open spec fn render_lines(fs: Seq<Seq<char>>) -> Seq<char>
    decreases fs.len(),
{
    if fs.len() == 0 {
        Seq::empty()
    } else {
        render_lines(fs.drop_last()) + "    "@ + fs.last() + ",\n"@
    }
}

/// The whole constructed record text for an entry.
pub open spec fn spec_build_biblatex(
    m: AtomV,
    id: Seq<char>,
    version: Option<Seq<char>>,
    legacy: bool,
) -> Seq<char> {
    "@online{"@ + ("arXiv:"@ + id) + ",\n"@ + render_lines(
        spec_arxiv_lines(m, id, version, legacy),
    ) + "}\n"@
}

fn line3(pre: &str, mid: &str) -> (r: String)
    ensures
        r@ == pre@ + mid@ + "}"@,
{
    let mut s = String::from_str(pre);
    s.append(mid);
    s.append("}");
    s
}

fn push_line(lines: &mut Vec<String>, line: String)
    ensures
        crate::text::sviews(final(lines)@) == crate::text::sviews(old(lines)@) + seq![line@],
{
    let ghost gl = line@;
    lines.push(line);
    proof {
        assert(crate::text::sviews(lines@) =~= crate::text::sviews(old(lines)@) + seq![gl]);
    }
}

/// Compute the keyword labels of the entry.
fn compute_tags(categories: &Vec<String>, primary: &Option<String>) -> (r: Vec<String>)
    ensures
        crate::text::sviews(r@) == spec_tags(
            crate::text::sviews(categories@),
            sopt(*primary),
        ),
{
    let ghost cv = crate::text::sviews(categories@);
    let ghost pv = sopt(*primary);
    let mut tags: Vec<String> = Vec::new();
    let mut i: usize = 0;
    proof {
        assert(crate::text::sviews(tags@) =~= Seq::<Seq<char>>::empty());
    }
    while i < categories.len()
        invariant
            0 <= i <= categories@.len(),
            cv == crate::text::sviews(categories@),
            pv == sopt(*primary),
            tags_fold(cv, pv, 0, Seq::empty()) == tags_fold(
                cv,
                pv,
                i as int,
                crate::text::sviews(tags@),
            ),
        decreases categories@.len() - i,
    {
        let label: Option<String> = match primary {
            Some(p) => map_category(categories[i].as_str(), Some(p.as_str())),
            None => map_category(categories[i].as_str(), None),
        };
        let ghost pre = crate::text::sviews(tags@);
        match label {
            Some(l) => {
                let lv = str_to_chars(l.as_str());
                let mut seen = false;
                let mut k: usize = 0;
                while k < tags.len()
                    invariant
                        0 <= k <= tags@.len(),
                        lv@ == l@,
                        seen == exists|j: int| 0 <= j < k && tags@[j]@ == l@,
                    decreases tags@.len() - k,
                {
                    let tv = str_to_chars(tags[k].as_str());
                    if crate::text::eq_chars(&tv, &lv) {
                        seen = true;
                    }
                    k += 1;
                }
                proof {
                    if seen {
                        let j = choose|j: int| 0 <= j < tags@.len() && tags@[j]@ == l@;
                        assert(pre[j] == l@);
                        assert(pre.contains(l@));
                    } else {
                        if pre.contains(l@) {
                            let j = choose|j: int| 0 <= j < pre.len() && pre[j] == l@;
                            assert(tags@[j]@ == l@);
                            assert(false);
                        }
                    }
                }
                if !seen {
                    let ghost gl = l@;
                    tags.push(l);
                    proof {
                        assert(crate::text::sviews(tags@) =~= pre.push(gl));
                    }
                }
            },
            None => {},
        }
        proof {
            assert(crate::text::sviews(tags@) == add_tag(pre, spec_map_category(cv[i as int], pv)));
        }
        i += 1;
    }
    if tags.len() == 0 {
        match primary {
            Some(pc) => {
                match map_category(pc.as_str(), Some(pc.as_str())) {
                    Some(l) => {
                        let mut out: Vec<String> = Vec::new();
                        let ghost gl = l@;
                        out.push(l);
                        proof {
                            assert(crate::text::sviews(out@) =~= seq![gl]);
                        }
                        out
                    },
                    None => tags,
                }
            },
            None => tags,
        }
    } else {
        tags
    }
}

/// Construct the BibLaTeX record text for the entry.
#[verifier::rlimit(100)]
pub fn build_biblatex(
    meta: &ArxivMeta,
    id: &str,
    version: Option<&str>,
    legacy: bool,
) -> (r: String)
    ensures
        r@ == spec_build_biblatex(aview(*meta), id@, opt_str_view(version), legacy),
{
    let mut key = String::from_str("arXiv:");
    key.append(id);
    let mut url = String::from_str("https://arxiv.org/abs/");
    url.append(id);
    let doi: String = match &meta.published_doi {
        Some(d) => d.clone(),
        None => {
            let mut s = String::from_str("10.48550/arXiv.");
            s.append(id);
            s
        },
    };
    let tags = compute_tags(&meta.categories, &meta.primary_class);
    let mut lines: Vec<String> = Vec::new();
    proof {
        assert(crate::text::sviews(lines@) =~= Seq::<Seq<char>>::empty());
    }
    push_line(&mut lines, line3("title = {", meta.title.as_str()));
    let sumv = str_to_chars(meta.summary.as_str());
    let sumt = crate::text::trim_chars(&sumv);
    if sumt.len() > 0 {
        push_line(&mut lines, line3("abstract = {", meta.summary.as_str()));
    }
    match &meta.updated {
        Some(d) => {
            push_line(&mut lines, line3("date = {", d.as_str()));
        },
        None => {},
    }
    if meta.authors.len() > 0 {
        let joined = crate::extract::join_strings(&meta.authors, " and ");
        push_line(&mut lines, line3("author = {", joined.as_str()));
    } else {
        proof {
            assert(crate::text::sviews(meta.authors@).len() == 0);
        }
    }
    push_line(&mut lines, line3("doi = {", doi.as_str()));
    push_line(&mut lines, line3("url = {", url.as_str()));
    push_line(&mut lines, String::from_str("eprinttype = {arXiv}"));
    push_line(&mut lines, line3("eprint = {", id));
    if !legacy {
        match &meta.primary_class {
            Some(pc) => {
                match primary_class_of(pc.as_str()) {
                    Some(class) => {
                        push_line(&mut lines, line3("eprintclass = {", class));
                    },
                    None => {},
                }
            },
            None => {},
        }
    }
    match version {
        Some(v) => {
            push_line(&mut lines, line3("eprintversion = {", v));
        },
        None => {},
    }
    push_line(&mut lines, String::from_str("publisher = {arXiv}"));
    push_line(&mut lines, line3("number = {", key.as_str()));
    if tags.len() > 0 {
        let joined = crate::extract::join_strings(&tags, ", ");
        push_line(&mut lines, line3("keywords = {", joined.as_str()));
    }
    if meta.comments.len() > 0 {
        let mut note: Vec<char> = Vec::new();
        let pre1 = str_to_chars("Comment: ");
        let pre2 = str_to_chars("; Comment: ");
        proof {
            reveal_strlit("Comment: ");
            reveal_strlit("; Comment: ");
        }
        let mut k: usize = 0;
        while k < meta.comments.len()
            invariant
                0 <= k <= meta.comments@.len(),
                pre1@ == "Comment: "@,
                pre2@ == "; Comment: "@,
                note@ == spec_note(crate::text::sviews(meta.comments@).take(k as int)),
            decreases meta.comments@.len() - k,
        {
            if k == 0 {
                crate::text::append_all(&mut note, &pre1);
            } else {
                crate::text::append_all(&mut note, &pre2);
            }
            let cv = str_to_chars(meta.comments[k].as_str());
            crate::text::append_all(&mut note, &cv);
            k += 1;
            proof {
                let sv = crate::text::sviews(meta.comments@);
                assert(sv.take(k as int).drop_last() =~= sv.take(k - 1));
                assert(sv.take(k as int).last() == meta.comments@[k - 1]@);
                if k == 1 {
                    assert(note@ =~= spec_note(sv.take(1)));
                } else {
                    assert(note@ =~= spec_note(sv.take(k as int)));
                }
            }
        }
        proof {
            assert(crate::text::sviews(meta.comments@).take(meta.comments@.len() as int)
                =~= crate::text::sviews(meta.comments@));
        }
        let notes = crate::chars::chars_to_string(&note);
        push_line(&mut lines, line3("note = {", notes.as_str()));
    } else {
        proof {
            assert(crate::text::sviews(meta.comments@).len() == 0);
        }
    }
    proof {
        assert(crate::text::sviews(lines@) =~= spec_arxiv_lines(
            aview(*meta),
            id@,
            opt_str_view(version),
            legacy,
        ));
    }
    let mut out = String::from_str("@online{");
    out.append(key.as_str());
    out.append(",\n");
    let mut k: usize = 0;
    while k < lines.len()
        invariant
            0 <= k <= lines@.len(),
            out@ == "@online{"@ + ("arXiv:"@ + id@) + ",\n"@ + render_lines(
                crate::text::sviews(lines@).take(k as int),
            ),
        decreases lines@.len() - k,
    {
        out.append("    ");
        out.append(lines[k].as_str());
        out.append(",\n");
        k += 1;
        proof {
            let sv = crate::text::sviews(lines@);
            assert(sv.take(k as int).drop_last() =~= sv.take(k - 1));
            assert(sv.take(k as int).last() == lines@[k - 1]@);
        }
    }
    proof {
        assert(crate::text::sviews(lines@).take(lines@.len() as int) =~= crate::text::sviews(
            lines@,
        ));
    }
    out.append("}\n");
    out
}

/// What resolving an Atom response yields for an id.
pub open spec fn arxiv_outcome(
    atom: Seq<char>,
    id: Seq<char>,
    version: Option<Seq<char>>,
    legacy: bool,
    r: Result<String, String>,
) -> bool {
    if spec_atom_empty(atom) {
        r matches Err(e) && e@ == "no Atom entry found for arXiv id "@ + id
    } else {
        match crate::record::bib_reparse(
            spec_build_biblatex(spec_atom_meta(atom), id, version, legacy),
        ) {
            Some(Some(t)) => r matches Ok(o) && o@ == t,
            Some(None) => r matches Err(e) && e@
                == "empty bibliography from constructed arXiv record"@,
            None => r matches Err(e) && exists|mm: Seq<char>|
                e@ == "failed to parse constructed BibLaTeX: "@ + mm,
        }
    }
}

impl Arxiv {
    /// Synthesize the record from the metadata API's Atom response for
    /// this id, and re-serialize it through the round-trip check.
    pub fn resolve_atom(&self, atom: &str) -> (r: Result<String, String>)
        ensures
            arxiv_outcome(atom@, self.canonical_id@, sopt(self.version), self.legacy, r),
    {
        let meta = match parse_atom_entry(atom, self.canonical_id.as_str()) {
            Ok(m) => m,
            Err(e) => {
                return Err(e);
            },
        };
        let version: Option<&str> = match &self.version {
            Some(v) => Some(v.as_str()),
            None => None,
        };
        let text = build_biblatex(&meta, self.canonical_id.as_str(), version, self.legacy);
        match crate::record::reparse_first_entry(text.as_str()) {
            crate::record::BibReparse::First(t) => Ok(t),
            crate::record::BibReparse::Empty => Err(
                String::from_str("empty bibliography from constructed arXiv record"),
            ),
            crate::record::BibReparse::Unparsable(m) => {
                let mut e = String::from_str("failed to parse constructed BibLaTeX: ");
                e.append(m.as_str());
                proof {
                    assert(e@ == "failed to parse constructed BibLaTeX: "@ + m@);
                }
                Err(e)
            },
        }
    }
}

} // verus!
