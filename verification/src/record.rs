//! Rendering canonical records as BibLaTeX text, and the round-trip check
//! that re-parses constructed text through the `biblatex` crate.

use vstd::prelude::*;
use vstd::string::StringExecFns;

use crate::text::esc_braces;

verus! {

/// What re-parsing a BibLaTeX text returns: `None` when the text does not
/// parse, `Some(None)` when it parses to an empty bibliography, and
/// `Some(Some(t))` when the first entry re-serializes as `t`.  The result
/// depends on the text alone.
pub uninterp spec fn bib_reparse(s: Seq<char>) -> Option<Option<Seq<char>>>;

/// Outcome of re-parsing a BibLaTeX text.
pub enum BibReparse {
    /// The text failed to parse; the parser's message.
    Unparsable(String),
    /// The text parsed to an empty bibliography.
    Empty,
    /// The first entry of the parsed bibliography, re-serialized.
    First(String),
}

/// Relies on `biblatex::Bibliography::parse` and
/// `biblatex::Entry::to_biblatex_string`: parsing is a function of the
/// text alone, and the first entry re-serializes to a text that is again a
/// function of the input alone.
#[verifier::external_body]
pub fn reparse_first_entry(s: &str) -> (r: BibReparse)
    ensures
        match r {
            BibReparse::Unparsable(_) => bib_reparse(s@) is None,
            BibReparse::Empty => bib_reparse(s@) == Some(Option::<Seq<char>>::None),
            BibReparse::First(t) => bib_reparse(s@) == Some(Some(t@)),
        },
{
    match biblatex::Bibliography::parse(s) {
        Err(e) => BibReparse::Unparsable(e.to_string()),
        Ok(bib) => match bib.iter().next() {
            None => BibReparse::Empty,
            Some(entry) => BibReparse::First(entry.to_biblatex_string()),
        },
    }
}

/// Relies on `chrono::Utc::now` and `chrono::NaiveDate`'s ISO rendering
/// for today's date; the result depends on the clock, so nothing is
/// promised of it.
#[verifier::external_body]
pub fn current_date_iso() -> String {
    chrono::Utc::now().date_naive().to_string()
}

/// The views of a list of name/value field pairs.
pub open spec fn pviews(fields: Seq<(String, String)>) -> Seq<(Seq<char>, Seq<char>)> {
    Seq::new(fields.len(), |i: int| (fields[i].0@, fields[i].1@))
}

/// The text of one rendered field line: four spaces, the name, ` = {`,
/// the brace-escaped value, `},` and a newline.
pub open spec fn render_fields(fields: Seq<(Seq<char>, Seq<char>)>) -> Seq<char>
    decreases fields.len(),
{
    if fields.len() == 0 {
        Seq::empty()
    } else {
        render_fields(fields.drop_last()) + "    "@ + fields.last().0 + " = {"@ + esc_braces(
            fields.last().1,
        ) + "},\n"@
    }
}

/// The full rendered entry: `<type>{<key>,\n`, the field lines, `}\n`.
pub open spec fn spec_render_entry(
    ty: Seq<char>,
    key: Seq<char>,
    fields: Seq<(Seq<char>, Seq<char>)>,
) -> Seq<char> {
    ty + "{"@ + key + ",\n"@ + render_fields(fields) + "}\n"@
}

/// Render an entry of the given type and key with the given fields, each
/// value brace-escaped.
pub fn render_entry(ty: &str, key: &str, fields: &Vec<(String, String)>) -> (r: String)
    ensures
        r@ == spec_render_entry(ty@, key@, pviews(fields@)),
{
    let mut out = String::new();
    out.append(ty);
    out.append("{");
    out.append(key);
    out.append(",\n");
    let mut i: usize = 0;
    while i < fields.len()
        invariant
            0 <= i <= fields@.len(),
            out@ == ty@ + "{"@ + key@ + ",\n"@ + render_fields(pviews(fields@).take(i as int)),
        decreases fields.len() - i,
    {
        out.append("    ");
        out.append(fields[i].0.as_str());
        out.append(" = {");
        let esc = crate::text::escape_braces(fields[i].1.as_str());
        out.append(esc.as_str());
        out.append("},\n");
        i += 1;
        proof {
            assert(pviews(fields@).take(i as int).drop_last() =~= pviews(fields@).take(i - 1));
            assert(pviews(fields@).take(i as int).last() == (fields@[i - 1].0@, fields@[i
                - 1].1@));
        }
    }
    out.append("}\n");
    proof {
        assert(pviews(fields@).take(fields@.len() as int) =~= pviews(fields@));
    }
    out
}

/// One optional field: a singleton pair when the value is present.
pub open spec fn fopt(name: Seq<char>, v: Option<Seq<char>>) -> Seq<(Seq<char>, Seq<char>)> {
    match v {
        Some(x) => seq![(name, x)],
        None => Seq::empty(),
    }
}

/// Append one field.
pub fn push_field(fields: &mut Vec<(String, String)>, name: &str, value: String)
    ensures
        pviews(final(fields)@) == pviews(old(fields)@) + seq![(name@, value@)],
{
    let ghost gv = value@;
    fields.push((String::from_str(name), value));
    proof {
        assert(pviews(fields@) =~= pviews(old(fields)@) + seq![(name@, gv)]);
    }
}

/// Append one field when a value is present.
pub fn push_opt_field(fields: &mut Vec<(String, String)>, name: &str, value: Option<String>)
    ensures
        pviews(final(fields)@) == pviews(old(fields)@) + fopt(
            name@,
            crate::html::sopt(value),
        ),
{
    match value {
        Some(v) => {
            let ghost gv = v@;
            fields.push((String::from_str(name), v));
            proof {
                assert(pviews(fields@) =~= pviews(old(fields)@) + fopt(name@, Some(gv)));
            }
        },
        None => {
            proof {
                assert(pviews(fields@) =~= pviews(old(fields)@) + fopt(
                    name@,
                    Option::<Seq<char>>::None,
                ));
            }
        },
    }
}

} // verus!
