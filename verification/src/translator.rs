//! The standalone DOI translator used by the progress-reporting fetch
//! path: the same recognition and registrar URL as the DOI family, with
//! the full matched text kept alongside the parts.

use vstd::prelude::*;

use crate::chars::{chars_to_string, str_to_chars};
use crate::doi::{preprocess_chars, scan_doi_chars, spec_doi_parse, spec_doi_to_url};
use crate::record::bib_reparse;

verus! {

/// A recognized DOI with its full matched text.
pub struct DoiTranslator {
    pub name: String,
    pub prefix: String,
    pub suffix: String,
}

impl DoiTranslator {
    /// Recognize a DOI as the DOI family does, keeping the full
    /// `prefix/suffix` text too.
    pub fn parse(identifier: &str) -> (r: Option<DoiTranslator>)
        ensures
            match r {
                Some(d) => spec_doi_parse(identifier@) == Some((d.prefix@, d.suffix@)) && d.name@
                    == d.prefix@ + seq!['/'] + d.suffix@,
                None => spec_doi_parse(identifier@) is None,
            },
    {
        let v = str_to_chars(identifier);
        let pre = preprocess_chars(&v);
        match scan_doi_chars(&pre) {
            Some((p, s)) => {
                let mut name = crate::text::subvec(&p, 0, p.len());
                proof {
                    assert(name@ =~= p@);
                }
                name.push('/');
                let ghost mid = name@;
                let mut k: usize = 0;
                while k < s.len()
                    invariant
                        0 <= k <= s@.len(),
                        name@ == mid + s@.take(k as int),
                    decreases s@.len() - k,
                {
                    name.push(s[k]);
                    k += 1;
                    proof {
                        assert(s@.take(k as int) =~= s@.take(k - 1).push(s@[k - 1]));
                    }
                }
                proof {
                    assert(s@.take(s@.len() as int) =~= s@);
                    assert(name@ =~= p@ + seq!['/'] + s@);
                }
                Some(
                    DoiTranslator {
                        name: chars_to_string(&name),
                        prefix: chars_to_string(&p),
                        suffix: chars_to_string(&s),
                    },
                )
            },
            None => None,
        }
    }

    /// The registrar URL text for this DOI.
    pub fn to_url(&self) -> (r: String)
        ensures
            r@ == spec_doi_to_url(self.prefix@, self.suffix@),
    {
        let d = crate::doi::Doi { prefix: self.prefix.clone(), suffix: self.suffix.clone() };
        d.to_url()
    }

    /// Interpret the registrar's response body as the DOI family does.
    pub fn resolve_body(&self, body: &str) -> (r: Result<String, String>)
        ensures
            match r {
                Ok(t) => bib_reparse(body@) == Some(Some(t@)),
                Err(e) => match bib_reparse(body@) {
                    None => exists|m: Seq<char>| e@ == "failed to parse BibLaTeX: "@ + m,
                    Some(o) => o is None && e@ == "empty bibliography"@,
                },
            },
    {
        let d = crate::doi::Doi { prefix: self.prefix.clone(), suffix: self.suffix.clone() };
        d.resolve_body(body)
    }
}

} // verus!
