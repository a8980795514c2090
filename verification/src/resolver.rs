//! The resolution registry and the concurrent harness's ordered
//! reassembly: a priority-ordered dispatch over the identifier families,
//! and the reconstruction of worker results in input order.

use vstd::prelude::*;
use vstd::string::StringExecFns;

use crate::arxiv::{spec_arxiv_parse, Arxiv};
use crate::doi::{spec_doi_parse, Doi};
use crate::embedded::{spec_embedded_accepts, Embedded};
use crate::html::sopt;
use crate::text::{dec_str, sviews};
use crate::urlweb::{url_parts, wview};
use crate::usenix::{usenix_detect, Usenix};

verus! {

/// A raw identifier recognized by one of the families, in priority
/// order: DOI, arXiv, the conference page, the webpage fallback.
pub enum Recognized {
    DoiId(Doi),
    ArxivId(Arxiv),
    UsenixId(Usenix),
    EmbeddedId(Embedded),
}

/// The conference-page family accepts the text.
pub open spec fn usenix_accepts(s: Seq<char>) -> bool {
    usenix_detect(s) && url_parts(s) is Some
}

/// Try each family in priority order and keep the first match.  The
/// order is a correctness property: a more specific family must win over
/// the generic webpage fallback.
pub fn parse(identifier: &str) -> (r: Option<Recognized>)
    ensures
        match r {
            Some(Recognized::DoiId(d)) => spec_doi_parse(identifier@) == Some(
                (d.prefix@, d.suffix@),
            ),
            Some(Recognized::ArxivId(a)) => spec_doi_parse(identifier@) is None
                && spec_arxiv_parse(identifier@) == Some(
                (a.canonical_id@, sopt(a.version), a.legacy),
            ),
            Some(Recognized::UsenixId(u)) => spec_doi_parse(identifier@) is None
                && spec_arxiv_parse(identifier@) is None && usenix_accepts(identifier@)
                && url_parts(identifier@) == Some(wview(u.url)),
            Some(Recognized::EmbeddedId(e)) => spec_doi_parse(identifier@) is None
                && spec_arxiv_parse(identifier@) is None && !usenix_accepts(identifier@)
                && spec_embedded_accepts(identifier@) && url_parts(identifier@) == Some(
                wview(e.url),
            ),
            None => spec_doi_parse(identifier@) is None && spec_arxiv_parse(identifier@) is None
                && !usenix_accepts(identifier@) && !spec_embedded_accepts(identifier@),
        },
{
    match Doi::parse(identifier) {
        Some(d) => {
            return Some(Recognized::DoiId(d));
        },
        None => {},
    }
    match Arxiv::parse(identifier) {
        Some(a) => {
            return Some(Recognized::ArxivId(a));
        },
        None => {},
    }
    match Usenix::parse(identifier) {
        Some(u) => {
            return Some(Recognized::UsenixId(u));
        },
        None => {},
    }
    match Embedded::parse(identifier) {
        Some(e) => {
            return Some(Recognized::EmbeddedId(e));
        },
        None => {},
    }
    None
}

/// The error reported when no family recognizes an identifier.
pub fn unrecognized_message(identifier: &str) -> (r: String)
    ensures
        r@ == "unrecognized identifier: "@ + identifier@,
{
    let mut e = String::from_str("unrecognized identifier: ");
    e.append(identifier);
    e
}

// ------------------------------------------------------------------
// Ordered reassembly
// ------------------------------------------------------------------

/// The success slots after the reported results are applied in arrival
/// order: each `Ok` lands in its input position.
pub open spec fn slots_of(
    rs: Seq<(usize, Result<String, String>)>,
    total: int,
) -> Seq<Option<Seq<char>>>
    decreases rs.len(),
{
    if rs.len() == 0 {
        Seq::new(total as nat, |i: int| None)
    } else {
        let p = slots_of(rs.drop_last(), total);
        match rs.last().1 {
            Ok(s) => p.update(rs.last().0 as int, Some(s@)),
            Err(_) => p,
        }
    }
}

/// The failure messages, in arrival order.
pub open spec fn errs_of(rs: Seq<(usize, Result<String, String>)>) -> Seq<Seq<char>>
    decreases rs.len(),
{
    if rs.len() == 0 {
        Seq::empty()
    } else {
        errs_of(rs.drop_last()) + (match rs.last().1 {
            Err(e) => seq![e@],
            Ok(_) => Seq::empty(),
        })
    }
}

/// The views of a sequence of optional strings.
pub open spec fn ovs(s: Seq<Option<String>>) -> Seq<Option<Seq<char>>> {
    Seq::new(s.len(), |i: int| sopt(s[i]))
}

/// Reassemble worker reports into input order: successes land in their
/// input slots, failures are kept in arrival order.
pub fn assemble_results(total: usize, results: &Vec<(usize, Result<String, String>)>) -> (r: (
    Vec<Option<String>>,
    Vec<String>,
))
    requires
        forall|i: int| 0 <= i < results@.len() ==> #[trigger] results@[i].0 < total,
    ensures
        r.0@.len() == total,
        ovs(r.0@) == slots_of(results@, total as int),
        sviews(r.1@) == errs_of(results@),
{
    let mut slots: Vec<Option<String>> = Vec::new();
    let mut k: usize = 0;
    while k < total
        invariant
            0 <= k <= total,
            slots@.len() == k,
            forall|i: int| 0 <= i < k ==> slots@[i] is None,
        decreases total - k,
    {
        slots.push(None);
        k += 1;
    }
    let mut errors: Vec<String> = Vec::new();
    let mut i: usize = 0;
    proof {
        assert(ovs(slots@) =~= slots_of(results@.take(0), total as int));
        assert(sviews(errors@) =~= errs_of(results@.take(0)));
    }
    while i < results.len()
        invariant
            0 <= i <= results@.len(),
            forall|m: int| 0 <= m < results@.len() ==> #[trigger] results@[m].0 < total,
            slots@.len() == total,
            ovs(slots@) == slots_of(results@.take(i as int), total as int),
            sviews(errors@) == errs_of(results@.take(i as int)),
        decreases results@.len() - i,
    {
        let idx = results[i].0;
        let ghost old_slots = ovs(slots@);
        let ghost old_errs = sviews(errors@);
        match &results[i].1 {
            Ok(s) => {
                let copy = s.clone();
                slots[idx] = Some(copy);
                proof {
                    assert(ovs(slots@) =~= old_slots.update(idx as int, Some(s@)));
                }
            },
            Err(e) => {
                let copy = e.clone();
                let ghost ge = copy@;
                errors.push(copy);
                proof {
                    assert(sviews(errors@) =~= old_errs.push(ge));
                }
            },
        }
        i += 1;
        proof {
            assert(results@.take(i as int).drop_last() =~= results@.take(i - 1));
            assert(results@.take(i as int).last() == results@[i - 1]);
            assert(ovs(slots@) =~= slots_of(results@.take(i as int), total as int));
            assert(sviews(errors@) =~= errs_of(results@.take(i as int)));
        }
    }
    proof {
        assert(results@.take(results@.len() as int) =~= results@);
    }
    (slots, errors)
}

/// The number of filled success slots.
pub open spec fn count_somes(s: Seq<Option<Seq<char>>>) -> int
    decreases s.len(),
{
    if s.len() == 0 {
        0
    } else {
        count_somes(s.drop_last()) + (if s.last() is Some {
            1int
        } else {
            0int
        })
    }
}

/// Count the successes among the slots.
pub fn count_ok(slots: &Vec<Option<String>>) -> (r: usize)
    ensures
        r == count_somes(ovs(slots@)),
{
    let mut n: usize = 0;
    let mut i: usize = 0;
    proof {
        assert(ovs(slots@).take(0) =~= Seq::<Option<Seq<char>>>::empty());
    }
    while i < slots.len()
        invariant
            0 <= i <= slots@.len(),
            n <= i,
            n == count_somes(ovs(slots@).take(i as int)),
        decreases slots@.len() - i,
    {
        match &slots[i] {
            Some(_) => {
                n += 1;
            },
            None => {},
        }
        i += 1;
        proof {
            assert(ovs(slots@).take(i as int).drop_last() =~= ovs(slots@).take(i - 1));
            assert(ovs(slots@).take(i as int).last() == sopt(slots@[i - 1]));
        }
    }
    proof {
        assert(ovs(slots@).take(slots@.len() as int) =~= ovs(slots@));
    }
    n
}

// ------------------------------------------------------------------
// Laws of the reassembly
// ------------------------------------------------------------------

/// No input position is reported twice.
pub open spec fn distinct_indices(rs: Seq<(usize, Result<String, String>)>) -> bool {
    forall|i1: int, i2: int|
        0 <= i1 < i2 < rs.len() ==> #[trigger] rs[i1].0 != #[trigger] rs[i2].0
}

/// Position `j` received a success report.
pub open spec fn has_ok(rs: Seq<(usize, Result<String, String>)>, j: int) -> bool {
    exists|i: int| 0 <= i < rs.len() && #[trigger] rs[i].0 == j && rs[i].1 is Ok
}

/// The success payload reported for position `j`.
pub open spec fn ok_val(rs: Seq<(usize, Result<String, String>)>, j: int) -> Seq<char> {
    let i = choose|i: int| 0 <= i < rs.len() && #[trigger] rs[i].0 == j && rs[i].1 is Ok;
    rs[i].1->Ok_0@
}

/// The reconstructed array always has one slot per input.
pub proof fn lemma_slots_len(rs: Seq<(usize, Result<String, String>)>, total: int)
    requires
        total >= 0,
        forall|i: int| 0 <= i < rs.len() ==> #[trigger] rs[i].0 < total,
    ensures
        slots_of(rs, total).len() == total,
    decreases rs.len(),
{
    if rs.len() > 0 {
        let b = rs.drop_last();
        assert(forall|i: int| 0 <= i < b.len() ==> #[trigger] b[i].0 < total) by {
            assert(forall|i: int| 0 <= i < b.len() ==> b[i] == rs[i]);
        }
        lemma_slots_len(b, total);
    }
}

/// Each slot of the reconstructed output depends only on which report
/// carries that input position, never on arrival order: slot `j` holds
/// the success reported for `j`, or nothing.
pub proof fn lemma_slots_aligned(rs: Seq<(usize, Result<String, String>)>, total: int, j: int)
    requires
        distinct_indices(rs),
        forall|i: int| 0 <= i < rs.len() ==> #[trigger] rs[i].0 < total,
        0 <= j < total,
    ensures
        slots_of(rs, total)[j] == (if has_ok(rs, j) {
            Some(ok_val(rs, j))
        } else {
            Option::<Seq<char>>::None
        }),
    decreases rs.len(),
{
    lemma_slots_len(rs, total);
    if rs.len() == 0 {
    } else {
        let b = rs.drop_last();
        assert(forall|i: int| 0 <= i < b.len() ==> #[trigger] b[i].0 < total) by {
            assert(forall|i: int| 0 <= i < b.len() ==> b[i] == rs[i]);
        }
        lemma_slots_len(b, total);
        assert(distinct_indices(b)) by {
            assert(forall|i1: int, i2: int|
                0 <= i1 < i2 < b.len() ==> #[trigger] b[i1].0 != #[trigger] b[i2].0) by {
                assert(forall|i1: int, i2: int|
                    0 <= i1 < i2 < b.len() ==> b[i1] == rs[i1] && b[i2] == rs[i2]);
            }
        }
        lemma_slots_aligned(b, total, j);
        let last = rs.last();
        if last.0 == j {
            assert(!has_ok(b, j)) by {
                if has_ok(b, j) {
                    let i = choose|i: int|
                        0 <= i < b.len() && #[trigger] b[i].0 == j && b[i].1 is Ok;
                    assert(rs[i].0 == j && rs[rs.len() - 1].0 == j);
                    assert(false);
                }
            }
            match last.1 {
                Ok(s) => {
                    assert(rs[rs.len() - 1].0 == j && rs[rs.len() - 1].1 is Ok);
                    assert(has_ok(rs, j));
                    let i = choose|i: int|
                        0 <= i < rs.len() && #[trigger] rs[i].0 == j && rs[i].1 is Ok;
                    if i < rs.len() - 1 {
                        assert(b[i].0 == j);
                        assert(has_ok(b, j));
                        assert(false);
                    }
                    assert(ok_val(rs, j) == s@);
                },
                Err(_) => {
                    assert(!has_ok(rs, j)) by {
                        if has_ok(rs, j) {
                            let i = choose|i: int|
                                0 <= i < rs.len() && #[trigger] rs[i].0 == j && rs[i].1 is Ok;
                            if i < rs.len() - 1 {
                                assert(b[i].0 == j && b[i].1 is Ok);
                                assert(has_ok(b, j));
                            }
                            assert(false);
                        }
                    }
                },
            }
        } else {
            assert(has_ok(rs, j) == has_ok(b, j)) by {
                if has_ok(rs, j) {
                    let i = choose|i: int|
                        0 <= i < rs.len() && #[trigger] rs[i].0 == j && rs[i].1 is Ok;
                    assert(i < rs.len() - 1);
                    assert(b[i].0 == j && b[i].1 is Ok);
                    assert(has_ok(b, j));
                }
                if has_ok(b, j) {
                    let i = choose|i: int|
                        0 <= i < b.len() && #[trigger] b[i].0 == j && b[i].1 is Ok;
                    assert(rs[i].0 == j && rs[i].1 is Ok);
                    assert(has_ok(rs, j));
                }
            }
            if has_ok(rs, j) {
                let i = choose|i: int|
                    0 <= i < rs.len() && #[trigger] rs[i].0 == j && rs[i].1 is Ok;
                assert(i < rs.len() - 1);
                assert(b[i].0 == j && b[i].1 is Ok);
                let i2 = choose|i2: int|
                    0 <= i2 < b.len() && #[trigger] b[i2].0 == j && b[i2].1 is Ok;
                if i2 != i {
                    assert(rs[i2].0 == j);
                    assert(false);
                }
                assert(ok_val(rs, j) == ok_val(b, j));
            }
        }
    }
}

/// Two report sequences carrying the same reports, in any arrival
/// orders, reconstruct the same output array.
pub proof fn lemma_order_irrelevant(
    rs1: Seq<(usize, Result<String, String>)>,
    rs2: Seq<(usize, Result<String, String>)>,
    total: int,
)
    requires
        total >= 0,
        distinct_indices(rs1),
        distinct_indices(rs2),
        forall|i: int| 0 <= i < rs1.len() ==> #[trigger] rs1[i].0 < total,
        forall|i: int| 0 <= i < rs2.len() ==> #[trigger] rs2[i].0 < total,
        forall|e: (usize, Result<String, String>)|
            #[trigger] rs1.contains(e) <==> #[trigger] rs2.contains(e),
    ensures
        slots_of(rs1, total) == slots_of(rs2, total),
{
    lemma_slots_len(rs1, total);
    lemma_slots_len(rs2, total);
    assert forall|j: int| 0 <= j < total implies slots_of(rs1, total)[j] == slots_of(
        rs2,
        total,
    )[j] by {
        lemma_slots_aligned(rs1, total, j);
        lemma_slots_aligned(rs2, total, j);
        if has_ok(rs1, j) {
            let i = choose|i: int| 0 <= i < rs1.len() && #[trigger] rs1[i].0 == j && rs1[i].1 is Ok;
            assert(rs1.contains(rs1[i]));
            assert(rs2.contains(rs1[i]));
            let i2 = choose|i2: int| 0 <= i2 < rs2.len() && rs2[i2] == rs1[i];
            assert(rs2[i2].0 == j && rs2[i2].1 is Ok);
            assert(has_ok(rs2, j));
            let k2 = choose|k2: int|
                0 <= k2 < rs2.len() && #[trigger] rs2[k2].0 == j && rs2[k2].1 is Ok;
            if k2 != i2 {
                assert(false);
            }
            assert(ok_val(rs2, j) == rs2[i2].1->Ok_0@);
            let k1 = choose|k1: int|
                0 <= k1 < rs1.len() && #[trigger] rs1[k1].0 == j && rs1[k1].1 is Ok;
            if k1 != i {
                assert(false);
            }
            assert(ok_val(rs1, j) == rs1[i].1->Ok_0@);
        } else {
            if has_ok(rs2, j) {
                let i = choose|i: int|
                    0 <= i < rs2.len() && #[trigger] rs2[i].0 == j && rs2[i].1 is Ok;
                assert(rs2.contains(rs2[i]));
                assert(rs1.contains(rs2[i]));
                let i1 = choose|i1: int| 0 <= i1 < rs1.len() && rs1[i1] == rs2[i];
                assert(rs1[i1].0 == j && rs1[i1].1 is Ok);
                assert(has_ok(rs1, j));
                assert(false);
            }
        }
    }
    assert(slots_of(rs1, total) =~= slots_of(rs2, total));
}

// ------------------------------------------------------------------
// Elapsed-time rendering
// ------------------------------------------------------------------

/// A number rendered with at least two digits.
pub open spec fn pad2(n: nat) -> Seq<char> {
    if n < 10 {
        seq!['0'] + dec_str(n)
    } else {
        dec_str(n)
    }
}

/// A number rendered with at least three digits.
pub open spec fn pad3(n: nat) -> Seq<char> {
    if n < 10 {
        seq!['0', '0'] + dec_str(n)
    } else if n < 100 {
        seq!['0'] + dec_str(n)
    } else {
        dec_str(n)
    }
}

/// How an elapsed duration in milliseconds is rendered: minutes and
/// seconds over a minute, seconds and milliseconds over a second, bare
/// milliseconds below that.
pub open spec fn spec_format_duration(ms: nat) -> Seq<char> {
    let secs = ms / 1000;
    if secs >= 60 {
        dec_str(secs / 60) + seq!['m', ' '] + pad2(secs % 60) + seq!['s']
    } else if secs >= 1 {
        dec_str(secs) + seq!['.'] + pad3(ms % 1000) + seq!['s']
    } else {
        dec_str(ms) + seq!['m', 's']
    }
}

/// Render an elapsed duration, given in milliseconds.
pub fn format_duration(ms: u64) -> (r: String)
    ensures
        r@ == spec_format_duration(ms as nat),
{
    let secs = ms / 1000;
    let mut out: Vec<char> = Vec::new();
    if secs >= 60 {
        let m = crate::text::u64_to_chars(secs / 60);
        crate::text::append_all(&mut out, &m);
        out.push('m');
        out.push(' ');
        let s2 = secs % 60;
        if s2 < 10 {
            out.push('0');
        }
        let sv = crate::text::u64_to_chars(s2);
        crate::text::append_all(&mut out, &sv);
        out.push('s');
        proof {
            assert(out@ =~= spec_format_duration(ms as nat));
        }
    } else if secs >= 1 {
        let sv = crate::text::u64_to_chars(secs);
        crate::text::append_all(&mut out, &sv);
        out.push('.');
        let sub = ms % 1000;
        if sub < 10 {
            out.push('0');
            out.push('0');
        } else if sub < 100 {
            out.push('0');
        }
        let mv = crate::text::u64_to_chars(sub);
        crate::text::append_all(&mut out, &mv);
        out.push('s');
        proof {
            assert(out@ =~= spec_format_duration(ms as nat));
        }
    } else {
        let mv = crate::text::u64_to_chars(ms);
        crate::text::append_all(&mut out, &mv);
        out.push('m');
        out.push('s');
        proof {
            assert(out@ =~= spec_format_duration(ms as nat));
        }
    }
    crate::chars::chars_to_string(&out)
}

} // verus!
