//! Linked-data (JSON-LD) signals: a plain tree model of the JSON values
//! embedded in `<script type="application/ld+json">` blocks, and the
//! accessors the resolvers read from it.  Numbers are not read by any
//! accessor and are kept only as a marker.

use vstd::prelude::*;

use crate::chars::{chars_to_string, str_to_chars};
use crate::extract::spec_split_creators;
use crate::html::{find_char_from, find_ci_from, find_from, first_attr_from, sopt, vviews};
use crate::text::{eq_ci, trim_sp};

verus! {

/// A plain JSON tree.
pub enum Json {
    Null,
    Bool(bool),
    Number,
    JStr(String),
    Arr(Vec<Json>),
    Obj(Vec<(String, Json)>),
}

/// What `serde_json` parses a text to, as a plain tree; `None` when the
/// text is not valid JSON.  The result is a function of the text alone.
pub uninterp spec fn json_parse(s: Seq<char>) -> Option<Json>;

/// Relies on `serde_json::Value`: declared so values of it can pass
/// through the conversion below.
#[verifier::external_type_specification]
#[verifier::external_body]
pub struct ExJsonValue(serde_json::Value);

/// Relies on `serde_json::Value`'s variants: each arm moves one node's
/// fields into the plain tree.
#[verifier::external_body]
fn json_value_to_tree(v: &serde_json::Value) -> Json {
    match v {
        serde_json::Value::Null => Json::Null,
        serde_json::Value::Bool(b) => Json::Bool(*b),
        serde_json::Value::Number(_) => Json::Number,
        serde_json::Value::String(s) => Json::JStr(s.clone()),
        serde_json::Value::Array(a) => Json::Arr(a.iter().map(json_value_to_tree).collect()),
        serde_json::Value::Object(m) => Json::Obj(
            m.iter().map(|(k, x)| (k.clone(), json_value_to_tree(x))).collect(),
        ),
    }
}

/// Relies on `serde_json::from_str::<Value>`: parsing depends on the text
/// alone; the parsed value is converted to the plain tree.
#[verifier::external_body]
pub fn parse_json(s: &str) -> (r: Option<Json>)
    ensures
        r == json_parse(s@),
{
    match serde_json::from_str::<serde_json::Value>(s) {
        Ok(v) => Some(json_value_to_tree(&v)),
        Err(_) => None,
    }
}

// ------------------------------------------------------------------
// Script blocks
// ------------------------------------------------------------------

/// All non-overlapping occurrences of `pat` removed, scanning from `p`.
pub open spec fn remove_all_from(s: Seq<char>, pat: Seq<char>, p: int) -> Seq<char>
    decreases s.len() - p when 0 <= p <= s.len() && pat.len() > 0
{
    match find_from(s, pat, p) {
        None => s.subrange(p, s.len() as int),
        Some(i) => if p <= i && i + pat.len() <= s.len() {
            s.subrange(p, i) + remove_all_from(s, pat, i + pat.len())
        } else {
            s.subrange(p, s.len() as int)
        },
    }
}

/// Remove all occurrences of `pat` from `v`.
pub fn remove_all(v: &Vec<char>, pat: &Vec<char>) -> (r: Vec<char>)
    requires
        pat@.len() > 0,
    ensures
        r@ == remove_all_from(v@, pat@, 0),
{
    let mut out: Vec<char> = Vec::new();
    let mut p: usize = 0;
    loop
        invariant
            0 <= p <= v@.len(),
            pat@.len() > 0,
            remove_all_from(v@, pat@, 0) == out@ + remove_all_from(v@, pat@, p as int),
        decreases v@.len() - p,
    {
        match crate::html::find_exact(v, pat, p) {
            None => {
                crate::text::append_range(&mut out, v, p, v.len());
                proof {
                    assert(out@ =~= remove_all_from(v@, pat@, 0));
                }
                return out;
            },
            Some(i) => {
                let n = v.len();
                crate::text::append_range(&mut out, v, p, i);
                p = i + pat.len();
            },
        }
    }
}

/// All non-overlapping occurrences of `pat` replaced by `rep`, scanning
/// from `p`.
pub open spec fn replace_from(s: Seq<char>, pat: Seq<char>, rep: Seq<char>, p: int) -> Seq<char>
    decreases s.len() - p when 0 <= p <= s.len() && pat.len() > 0
{
    match find_from(s, pat, p) {
        None => s.subrange(p, s.len() as int),
        Some(i) => if p <= i && i + pat.len() <= s.len() {
            s.subrange(p, i) + rep + replace_from(s, pat, rep, i + pat.len())
        } else {
            s.subrange(p, s.len() as int)
        },
    }
}

/// All occurrences of `pat` replaced by `rep`.
pub open spec fn replace_seq(s: Seq<char>, pat: Seq<char>, rep: Seq<char>) -> Seq<char> {
    replace_from(s, pat, rep, 0)
}

/// Replace all occurrences of `pat` in `v` with `rep`.
pub fn replace_all(v: &Vec<char>, pat: &Vec<char>, rep: &Vec<char>) -> (r: Vec<char>)
    requires
        pat@.len() > 0,
    ensures
        r@ == replace_seq(v@, pat@, rep@),
{
    let mut out: Vec<char> = Vec::new();
    let mut p: usize = 0;
    loop
        invariant
            0 <= p <= v@.len(),
            pat@.len() > 0,
            replace_seq(v@, pat@, rep@) == out@ + replace_from(v@, pat@, rep@, p as int),
        decreases v@.len() - p,
    {
        match crate::html::find_exact(v, pat, p) {
            None => {
                crate::text::append_range(&mut out, v, p, v.len());
                proof {
                    assert(out@ =~= replace_seq(v@, pat@, rep@));
                }
                return out;
            },
            Some(i) => {
                let n = v.len();
                crate::text::append_range(&mut out, v, p, i);
                crate::text::append_all(&mut out, rep);
                p = i + pat.len();
                proof {
                    assert(out@ + replace_from(v@, pat@, rep@, p as int) =~= replace_seq(
                        v@,
                        pat@,
                        rep@,
                    ));
                }
            },
        }
    }
}

/// One raw script block cleaned as the resolvers do before parsing:
/// trimmed, comment markers and stray NUL characters removed.
pub open spec fn clean_block(b: Seq<char>) -> Seq<char> {
    remove_all_from(
        remove_all_from(remove_all_from(trim_sp(b), "<!--"@, 0), "-->"@, 0),
        seq!['\u{0}'],
        0,
    )
}

/// The inner texts of the document's `application/ld+json` script
/// blocks, in order, scanning from `p`.
pub open spec fn ld_blocks_from(s: Seq<char>, p: int) -> Seq<Seq<char>>
    decreases s.len() - p when 0 <= p
{
    match find_ci_from(s, "<script"@, p) {
        None => Seq::empty(),
        Some(i) => if !(p <= i && i + 7 <= s.len()) {
            Seq::empty()
        } else if i + 7 < s.len() && crate::chars::is_word(s[i + 7]) {
            ld_blocks_from(s, i + 1)
        } else {
            match find_char_from(s, '>', i + 7) {
                None => Seq::empty(),
                Some(j) => if !(i + 7 <= j < s.len()) {
                    Seq::empty()
                } else {
                    let tag = s.subrange(i, j + 1);
                    let is_ld = match first_attr_from(tag, 0, "type"@) {
                        Some(t) => eq_ci(t, "application/ld+json"@),
                        None => false,
                    };
                    if is_ld {
                        match find_ci_from(s, "</script>"@, j + 1) {
                            None => Seq::empty(),
                            Some(c) => if j + 1 <= c && c + 9 <= s.len() {
                                seq![s.subrange(j + 1, c)] + ld_blocks_from(s, c + 9)
                            } else {
                                Seq::empty()
                            },
                        }
                    } else {
                        ld_blocks_from(s, j + 1)
                    }
                },
            }
        },
    }
}

/// The parsed linked-data nodes of a sequence of cleaned blocks: each
/// block that parses contributes its value, a top-level array spliced
/// into its elements.
pub open spec fn nodes_of_blocks(bs: Seq<Seq<char>>) -> Seq<Json>
    decreases bs.len(),
{
    if bs.len() == 0 {
        Seq::empty()
    } else {
        nodes_of_blocks(bs.drop_last()) + (match json_parse(clean_block(bs.last())) {
            Some(Json::Arr(a)) => a@,
            Some(other) => seq![other],
            None => Seq::empty(),
        })
    }
}

/// Collect the script blocks of the document.
fn collect_ld_blocks(v: &Vec<char>) -> (r: Vec<Vec<char>>)
    ensures
        vviews(r@) == ld_blocks_from(v@, 0),
{
    let pat = str_to_chars("<script");
    let close = str_to_chars("</script>");
    let key = str_to_chars("type");
    let ld = str_to_chars("application/ld+json");
    proof {
        reveal_strlit("<script");
        reveal_strlit("</script>");
        assert(pat@.len() == 7);
        assert(close@.len() == 9);
    }
    let mut out: Vec<Vec<char>> = Vec::new();
    let mut p: usize = 0;
    loop
        invariant
            0 <= p <= v@.len() + 1,
            pat@ == "<script"@,
            close@ == "</script>"@,
            key@ == "type"@,
            ld@ == "application/ld+json"@,
            pat@.len() == 7,
            close@.len() == 9,
            ld_blocks_from(v@, 0) == vviews(out@) + ld_blocks_from(v@, p as int),
        decreases v@.len() + 1 - p,
    {
        let n = v.len();
        match crate::html::find_ci(v, &pat, p) {
            None => {
                proof {
                    assert(vviews(out@) + ld_blocks_from(v@, p as int) =~= vviews(out@));
                }
                return out;
            },
            Some(i) => {
                if i + 7 < n && crate::chars::word(v[i + 7]) {
                    p = i + 1;
                } else {
                    match crate::html::find_char(v, '>', i + 7) {
                        None => {
                            proof {
                                assert(vviews(out@) + ld_blocks_from(v@, p as int) =~= vviews(
                                    out@,
                                ));
                            }
                            return out;
                        },
                        Some(j) => {
                            let tag = crate::text::subvec(v, i, j + 1);
                            let is_ld = match crate::html::first_attr(&tag, &key) {
                                Some(t) => crate::text::eq_chars_ci(&t, &ld),
                                None => false,
                            };
                            if is_ld {
                                match crate::html::find_ci(v, &close, j + 1) {
                                    None => {
                                        proof {
                                            assert(vviews(out@) + ld_blocks_from(v@, p as int)
                                                =~= vviews(out@));
                                        }
                                        return out;
                                    },
                                    Some(c) => {
                                        let block = crate::text::subvec(v, j + 1, c);
                                        let ghost old_out = out@;
                                        out.push(block);
                                        proof {
                                            assert(vviews(out@) =~= vviews(old_out).push(
                                                v@.subrange(j + 1, c as int),
                                            ));
                                            assert(vviews(old_out).push(
                                                v@.subrange(j + 1, c as int),
                                            ) + ld_blocks_from(v@, c + 9) =~= vviews(old_out) + (
                                            seq![v@.subrange(j + 1, c as int)] + ld_blocks_from(
                                                v@,
                                                c + 9,
                                            )));
                                        }
                                        p = c + 9;
                                    },
                                }
                            } else {
                                p = j + 1;
                            }
                        },
                    }
                }
            },
        }
    }
}

/// Extract and parse the document's linked-data nodes.
pub fn collect_json_ld(html: &str) -> (r: Vec<Json>)
    ensures
        r@ == nodes_of_blocks(ld_blocks_from(html@, 0)),
{
    let v = str_to_chars(html);
    let blocks = collect_ld_blocks(&v);
    let open_c = str_to_chars("<!--");
    let close_c = str_to_chars("-->");
    let mut nul: Vec<char> = Vec::new();
    nul.push('\u{0}');
    proof {
        reveal_strlit("<!--");
        reveal_strlit("-->");
        assert(nul@ =~= seq!['\u{0}']);
    }
    let mut out: Vec<Json> = Vec::new();
    let mut i: usize = 0;
    while i < blocks.len()
        invariant
            0 <= i <= blocks@.len(),
            open_c@ == "<!--"@,
            close_c@ == "-->"@,
            open_c@.len() > 0,
            close_c@.len() > 0,
            nul@ == seq!['\u{0}'],
            vviews(blocks@) == ld_blocks_from(html@, 0),
            out@ == nodes_of_blocks(vviews(blocks@).take(i as int)),
        decreases blocks@.len() - i,
    {
        let t = crate::text::trim_chars(&blocks[i]);
        let c1 = remove_all(&t, &open_c);
        let c2 = remove_all(&c1, &close_c);
        let c3 = remove_all(&c2, &nul);
        let cs = chars_to_string(&c3);
        let ghost old_out = out@;
        match parse_json(cs.as_str()) {
            Some(node) => {
                match node {
                    Json::Arr(a) => {
                        let mut a2 = a;
                        let ghost av = a2@;
                        let total: usize = a2.len();
                        let mut k: usize = 0;
                        while k < total
                            invariant
                                0 <= k <= total,
                                total == av.len(),
                                a2@ == av.skip(k as int),
                                out@ == old_out + av.take(k as int),
                            decreases total - k,
                        {
                            let x = a2.remove(0);
                            out.push(x);
                            k += 1;
                            proof {
                                assert(av.skip(k - 1).drop_first() =~= av.skip(k as int));
                                assert(old_out + av.take(k as int) =~= (old_out + av.take(
                                    k - 1,
                                )).push(av[k - 1]));
                            }
                        }
                        proof {
                            assert(av.take(total as int) =~= av);
                            assert(out@ =~= old_out + av);
                        }
                    },
                    other => {
                        out.push(other);
                        proof {
                            assert(out@ =~= old_out + seq![out@.last()]);
                        }
                    },
                }
            },
            None => {},
        }
        i += 1;
        proof {
            assert(vviews(blocks@).take(i as int).drop_last() =~= vviews(blocks@).take(i - 1));
            assert(vviews(blocks@).take(i as int).last() == blocks@[i - 1]@);
            assert(out@ =~= nodes_of_blocks(vviews(blocks@).take(i as int)));
        }
    }
    proof {
        assert(vviews(blocks@).take(blocks@.len() as int) =~= vviews(blocks@));
    }
    out
}

// ------------------------------------------------------------------
// Reading the nodes
// ------------------------------------------------------------------

/// The value of the first field with this key, if any.
pub open spec fn obj_get(fields: Seq<(String, Json)>, key: Seq<char>) -> Option<Json>
    decreases fields.len(),
{
    if fields.len() == 0 {
        None
    } else if fields[0].0@ == key {
        Some(fields[0].1)
    } else {
        obj_get(fields.drop_first(), key)
    }
}

/// Look a key up in an object's fields.
pub fn obj_get_ref<'a>(fields: &'a Vec<(String, Json)>, key: &Vec<char>) -> (r: Option<&'a Json>)
    ensures
        match r {
            Some(j) => obj_get(fields@, key@) == Some(*j),
            None => obj_get(fields@, key@) is None,
        },
{
    let mut i: usize = 0;
    proof {
        assert(fields@.skip(0) =~= fields@);
    }
    while i < fields.len()
        invariant
            0 <= i <= fields@.len(),
            obj_get(fields@, key@) == obj_get(fields@.skip(i as int), key@),
        decreases fields@.len() - i,
    {
        proof {
            assert(fields@.skip(i as int)[0] == fields@[i as int]);
        }
        let k = str_to_chars(fields[i].0.as_str());
        if crate::text::eq_chars(&k, key) {
            return Some(&fields[i].1);
        }
        i += 1;
        proof {
            assert(fields@.skip(i - 1).drop_first() =~= fields@.skip(i as int));
        }
    }
    proof {
        assert(fields@.skip(i as int) =~= Seq::<(String, Json)>::empty());
    }
    None
}

/// The first string value under `key` among the nodes: a node whose
/// `key` field is a string yields it; any other node is passed over.
pub open spec fn spec_json_str_key(nodes: Seq<Json>, key: Seq<char>) -> Option<Seq<char>>
    decreases nodes.len(),
{
    if nodes.len() == 0 {
        None
    } else {
        let rest = spec_json_str_key(nodes.drop_first(), key);
        match nodes[0] {
            Json::Obj(f) => match obj_get(f@, key) {
                Some(Json::JStr(s)) => Some(s@),
                _ => rest,
            },
            _ => rest,
        }
    }
}

/// Find the first string-valued `key` field among the nodes.
pub fn json_str_key(nodes: &Vec<Json>, key: &str) -> (r: Option<String>)
    ensures
        sopt(r) == spec_json_str_key(nodes@, key@),
{
    let kv = str_to_chars(key);
    let mut i: usize = 0;
    proof {
        assert(nodes@.skip(0) =~= nodes@);
    }
    while i < nodes.len()
        invariant
            0 <= i <= nodes@.len(),
            kv@ == key@,
            spec_json_str_key(nodes@, key@) == spec_json_str_key(nodes@.skip(i as int), key@),
        decreases nodes@.len() - i,
    {
        proof {
            assert(nodes@.skip(i as int)[0] == nodes@[i as int]);
            assert(nodes@.skip(i as int).drop_first() =~= nodes@.skip(i + 1));
        }
        match &nodes[i] {
            Json::Obj(f) => {
                match obj_get_ref(f, &kv) {
                    Some(Json::JStr(s)) => {
                        return Some(s.clone());
                    },
                    _ => {},
                }
            },
            _ => {},
        }
        i += 1;
    }
    proof {
        assert(nodes@.skip(i as int) =~= Seq::<Json>::empty());
    }
    None
}

/// The date a linked-data node declares it was published.
pub fn json_date_published(nodes: &Vec<Json>) -> (r: Option<String>)
    ensures
        sopt(r) == spec_json_str_key(nodes@, "datePublished"@),
{
    json_str_key(nodes, "datePublished")
}

/// The description a linked-data node carries.
pub fn json_description(nodes: &Vec<Json>) -> (r: Option<String>)
    ensures
        sopt(r) == spec_json_str_key(nodes@, "description"@),
{
    json_str_key(nodes, "description")
}

/// The URL a linked-data node declares.
pub fn json_url(nodes: &Vec<Json>) -> (r: Option<String>)
    ensures
        sopt(r) == spec_json_str_key(nodes@, "url"@),
{
    json_str_key(nodes, "url")
}

/// The alternative headline a linked-data node offers as a short title.
pub fn json_short_title(nodes: &Vec<Json>) -> (r: Option<String>)
    ensures
        sopt(r) == spec_json_str_key(nodes@, "alternativeHeadline"@),
{
    json_str_key(nodes, "alternativeHeadline")
}

/// The first node naming its subject: `name` preferred, then `headline`.
pub open spec fn spec_json_name(nodes: Seq<Json>) -> Option<Seq<char>>
    decreases nodes.len(),
{
    if nodes.len() == 0 {
        None
    } else {
        let rest = spec_json_name(nodes.drop_first());
        match nodes[0] {
            Json::Obj(f) => match obj_get(f@, "name"@) {
                Some(Json::JStr(s)) => Some(s@),
                _ => match obj_get(f@, "headline"@) {
                    Some(Json::JStr(s)) => Some(s@),
                    _ => rest,
                },
            },
            _ => rest,
        }
    }
}

/// Read a node's name, preferring `name` over `headline`.
pub fn json_name(nodes: &Vec<Json>) -> (r: Option<String>)
    ensures
        sopt(r) == spec_json_name(nodes@),
{
    let key_name = str_to_chars("name");
    let key_headline = str_to_chars("headline");
    let mut i: usize = 0;
    proof {
        assert(nodes@.skip(0) =~= nodes@);
    }
    while i < nodes.len()
        invariant
            0 <= i <= nodes@.len(),
            key_name@ == "name"@,
            key_headline@ == "headline"@,
            spec_json_name(nodes@) == spec_json_name(nodes@.skip(i as int)),
        decreases nodes@.len() - i,
    {
        proof {
            assert(nodes@.skip(i as int)[0] == nodes@[i as int]);
            assert(nodes@.skip(i as int).drop_first() =~= nodes@.skip(i + 1));
        }
        match &nodes[i] {
            Json::Obj(f) => {
                match obj_get_ref(f, &key_name) {
                    Some(Json::JStr(s)) => {
                        return Some(s.clone());
                    },
                    _ => {
                        match obj_get_ref(f, &key_headline) {
                            Some(Json::JStr(s)) => {
                                return Some(s.clone());
                            },
                            _ => {},
                        }
                    },
                }
            },
            _ => {},
        }
        i += 1;
    }
    proof {
        assert(nodes@.skip(i as int) =~= Seq::<Json>::empty());
    }
    None
}

/// The first node stating the subject's headline, falling back to its
/// name only when the node has no `headline` field at all.
pub open spec fn spec_json_headline(nodes: Seq<Json>) -> Option<Seq<char>>
    decreases nodes.len(),
{
    if nodes.len() == 0 {
        None
    } else {
        let rest = spec_json_headline(nodes.drop_first());
        match nodes[0] {
            Json::Obj(f) => match obj_get(f@, "headline"@) {
                Some(Json::JStr(s)) => Some(s@),
                Some(_) => rest,
                None => match obj_get(f@, "name"@) {
                    Some(Json::JStr(s)) => Some(s@),
                    _ => rest,
                },
            },
            _ => rest,
        }
    }
}

/// Read a node's headline, falling back to `name` when no `headline`
/// field is present.
pub fn json_headline(nodes: &Vec<Json>) -> (r: Option<String>)
    ensures
        sopt(r) == spec_json_headline(nodes@),
{
    let key_name = str_to_chars("name");
    let key_headline = str_to_chars("headline");
    let mut i: usize = 0;
    proof {
        assert(nodes@.skip(0) =~= nodes@);
    }
    while i < nodes.len()
        invariant
            0 <= i <= nodes@.len(),
            key_name@ == "name"@,
            key_headline@ == "headline"@,
            spec_json_headline(nodes@) == spec_json_headline(nodes@.skip(i as int)),
        decreases nodes@.len() - i,
    {
        proof {
            assert(nodes@.skip(i as int)[0] == nodes@[i as int]);
            assert(nodes@.skip(i as int).drop_first() =~= nodes@.skip(i + 1));
        }
        match &nodes[i] {
            Json::Obj(f) => {
                match obj_get_ref(f, &key_headline) {
                    Some(Json::JStr(s)) => {
                        return Some(s.clone());
                    },
                    Some(_) => {},
                    None => {
                        match obj_get_ref(f, &key_name) {
                            Some(Json::JStr(s)) => {
                                return Some(s.clone());
                            },
                            _ => {},
                        }
                    },
                }
            },
            _ => {},
        }
        i += 1;
    }
    proof {
        assert(nodes@.skip(i as int) =~= Seq::<Json>::empty());
    }
    None
}

/// The first node whose `isPartOf` object carries a string name.
pub open spec fn spec_json_is_part_of_name(nodes: Seq<Json>) -> Option<Seq<char>>
    decreases nodes.len(),
{
    if nodes.len() == 0 {
        None
    } else {
        let rest = spec_json_is_part_of_name(nodes.drop_first());
        match nodes[0] {
            Json::Obj(f) => match obj_get(f@, "isPartOf"@) {
                Some(Json::Obj(ff)) => match obj_get(ff@, "name"@) {
                    Some(Json::JStr(s)) => Some(s@),
                    _ => rest,
                },
                _ => rest,
            },
            _ => rest,
        }
    }
}

/// Read the container name a node declares through `isPartOf`.
pub fn json_is_part_of_name(nodes: &Vec<Json>) -> (r: Option<String>)
    ensures
        sopt(r) == spec_json_is_part_of_name(nodes@),
{
    let key_part = str_to_chars("isPartOf");
    let key_name = str_to_chars("name");
    let mut i: usize = 0;
    proof {
        assert(nodes@.skip(0) =~= nodes@);
    }
    while i < nodes.len()
        invariant
            0 <= i <= nodes@.len(),
            key_part@ == "isPartOf"@,
            key_name@ == "name"@,
            spec_json_is_part_of_name(nodes@) == spec_json_is_part_of_name(
                nodes@.skip(i as int),
            ),
        decreases nodes@.len() - i,
    {
        proof {
            assert(nodes@.skip(i as int)[0] == nodes@[i as int]);
            assert(nodes@.skip(i as int).drop_first() =~= nodes@.skip(i + 1));
        }
        match &nodes[i] {
            Json::Obj(f) => {
                match obj_get_ref(f, &key_part) {
                    Some(Json::Obj(ff)) => {
                        match obj_get_ref(ff, &key_name) {
                            Some(Json::JStr(s)) => {
                                return Some(s.clone());
                            },
                            _ => {},
                        }
                    },
                    _ => {},
                }
            },
            _ => {},
        }
        i += 1;
    }
    proof {
        assert(nodes@.skip(i as int) =~= Seq::<Json>::empty());
    }
    None
}

/// The string elements of an array of nodes.
pub open spec fn str_elems(a: Seq<Json>) -> Seq<Seq<char>>
    decreases a.len(),
{
    if a.len() == 0 {
        Seq::empty()
    } else {
        str_elems(a.drop_last()) + (match a.last() {
            Json::JStr(s) => seq![s@],
            _ => Seq::empty(),
        })
    }
}

fn str_elems_exec(a: &Vec<Json>) -> (r: Vec<String>)
    ensures
        crate::text::sviews(r@) == str_elems(a@),
{
    let mut out: Vec<String> = Vec::new();
    let mut i: usize = 0;
    while i < a.len()
        invariant
            0 <= i <= a@.len(),
            crate::text::sviews(out@) == str_elems(a@.take(i as int)),
        decreases a@.len() - i,
    {
        match &a[i] {
            Json::JStr(s) => {
                out.push(s.clone());
            },
            _ => {},
        }
        i += 1;
        proof {
            assert(a@.take(i as int).drop_last() =~= a@.take(i - 1));
            assert(a@.take(i as int).last() == a@[i - 1]);
            assert(crate::text::sviews(out@) =~= str_elems(a@.take(i as int)));
        }
    }
    proof {
        assert(a@.take(a@.len() as int) =~= a@);
    }
    out
}

/// The declared types of all nodes, `@type` strings and arrays spliced in
/// order.
pub open spec fn spec_json_ld_types(nodes: Seq<Json>) -> Seq<Seq<char>>
    decreases nodes.len(),
{
    if nodes.len() == 0 {
        Seq::empty()
    } else {
        spec_json_ld_types(nodes.drop_last()) + (match nodes.last() {
            Json::Obj(f) => match obj_get(f@, "@type"@) {
                Some(Json::JStr(s)) => seq![s@],
                Some(Json::Arr(a)) => str_elems(a@),
                _ => Seq::empty(),
            },
            _ => Seq::empty(),
        })
    }
}

/// Collect the `@type` declarations of all nodes.
pub fn json_ld_types(nodes: &Vec<Json>) -> (r: Vec<String>)
    ensures
        crate::text::sviews(r@) == spec_json_ld_types(nodes@),
{
    let key = str_to_chars("@type");
    let mut out: Vec<String> = Vec::new();
    let mut i: usize = 0;
    while i < nodes.len()
        invariant
            0 <= i <= nodes@.len(),
            key@ == "@type"@,
            crate::text::sviews(out@) == spec_json_ld_types(nodes@.take(i as int)),
        decreases nodes@.len() - i,
    {
        let ghost old_view = crate::text::sviews(out@);
        match &nodes[i] {
            Json::Obj(f) => {
                match obj_get_ref(f, &key) {
                    Some(Json::JStr(s)) => {
                        let ghost gs = s@;
                        out.push(s.clone());
                        proof {
                            assert(crate::text::sviews(out@) =~= old_view.push(gs));
                        }
                    },
                    Some(Json::Arr(a)) => {
                        let elems = str_elems_exec(a);
                        let mut k: usize = 0;
                        while k < elems.len()
                            invariant
                                0 <= k <= elems@.len(),
                                crate::text::sviews(out@) == old_view + crate::text::sviews(
                                    elems@,
                                ).take(k as int),
                            decreases elems@.len() - k,
                        {
                            let ghost pre = crate::text::sviews(out@);
                            let ghost ge = elems@[k as int]@;
                            out.push(elems[k].clone());
                            k += 1;
                            proof {
                                let sv = crate::text::sviews(elems@);
                                assert(crate::text::sviews(out@) =~= pre.push(ge));
                                assert(sv.take(k as int).drop_last() =~= sv.take(k - 1));
                                assert(sv.take(k as int).last() == ge);
                                assert(pre.push(ge) =~= old_view + sv.take(k as int));
                            }
                        }
                        proof {
                            assert(crate::text::sviews(elems@).take(elems@.len() as int)
                                =~= crate::text::sviews(elems@));
                        }
                    },
                    _ => {},
                }
            },
            _ => {},
        }
        i += 1;
        proof {
            assert(nodes@.take(i as int).drop_last() =~= nodes@.take(i - 1));
            assert(nodes@.take(i as int).last() == nodes@[i - 1]);
            assert(crate::text::sviews(out@) =~= spec_json_ld_types(nodes@.take(i as int)));
        }
    }
    proof {
        assert(nodes@.take(nodes@.len() as int) =~= nodes@);
    }
    out
}

/// The names in a JSON author array: string elements, and objects with a
/// string `name`.
pub open spec fn author_names(a: Seq<Json>) -> Seq<Seq<char>>
    decreases a.len(),
{
    if a.len() == 0 {
        Seq::empty()
    } else {
        author_names(a.drop_last()) + (match a.last() {
            Json::JStr(s) => seq![s@],
            Json::Obj(f) => match obj_get(f@, "name"@) {
                Some(Json::JStr(n)) => seq![n@],
                _ => Seq::empty(),
            },
            _ => Seq::empty(),
        })
    }
}

/// The author list of the first node that yields one: a string `author`
/// splits as a creator value; an array contributes its names when any.
pub open spec fn spec_json_authors(nodes: Seq<Json>) -> Option<Seq<Seq<char>>>
    decreases nodes.len(),
{
    if nodes.len() == 0 {
        None
    } else {
        let rest = spec_json_authors(nodes.drop_first());
        match nodes[0] {
            Json::Obj(f) => match obj_get(f@, "author"@) {
                Some(Json::JStr(s)) => Some(spec_split_creators(s@)),
                Some(Json::Arr(a)) => if author_names(a@).len() > 0 {
                    Some(author_names(a@))
                } else {
                    rest
                },
                _ => rest,
            },
            _ => rest,
        }
    }
}

fn author_names_exec(a: &Vec<Json>) -> (r: Vec<String>)
    ensures
        crate::text::sviews(r@) == author_names(a@),
{
    let key = str_to_chars("name");
    let mut out: Vec<String> = Vec::new();
    let mut i: usize = 0;
    while i < a.len()
        invariant
            0 <= i <= a@.len(),
            key@ == "name"@,
            crate::text::sviews(out@) == author_names(a@.take(i as int)),
        decreases a@.len() - i,
    {
        match &a[i] {
            Json::JStr(s) => {
                out.push(s.clone());
            },
            Json::Obj(f) => {
                match obj_get_ref(f, &key) {
                    Some(Json::JStr(n)) => {
                        out.push(n.clone());
                    },
                    _ => {},
                }
            },
            _ => {},
        }
        i += 1;
        proof {
            assert(a@.take(i as int).drop_last() =~= a@.take(i - 1));
            assert(a@.take(i as int).last() == a@[i - 1]);
            assert(crate::text::sviews(out@) =~= author_names(a@.take(i as int)));
        }
    }
    proof {
        assert(a@.take(a@.len() as int) =~= a@);
    }
    out
}

/// Read the author list of the first node that yields one.
pub fn json_authors(nodes: &Vec<Json>) -> (r: Option<Vec<String>>)
    ensures
        match r {
            Some(v) => spec_json_authors(nodes@) == Some(crate::text::sviews(v@)),
            None => spec_json_authors(nodes@) is None,
        },
{
    let key = str_to_chars("author");
    let mut i: usize = 0;
    proof {
        assert(nodes@.skip(0) =~= nodes@);
    }
    while i < nodes.len()
        invariant
            0 <= i <= nodes@.len(),
            key@ == "author"@,
            spec_json_authors(nodes@) == spec_json_authors(nodes@.skip(i as int)),
        decreases nodes@.len() - i,
    {
        proof {
            assert(nodes@.skip(i as int)[0] == nodes@[i as int]);
            assert(nodes@.skip(i as int).drop_first() =~= nodes@.skip(i + 1));
        }
        match &nodes[i] {
            Json::Obj(f) => {
                match obj_get_ref(f, &key) {
                    Some(Json::JStr(s)) => {
                        return Some(crate::extract::split_creators(s.as_str()));
                    },
                    Some(Json::Arr(a)) => {
                        let names = author_names_exec(a);
                        if names.len() > 0 {
                            proof {
                                assert(crate::text::sviews(names@).len() == names@.len());
                            }
                            return Some(names);
                        }
                    },
                    _ => {},
                }
            },
            _ => {},
        }
        i += 1;
    }
    proof {
        assert(nodes@.skip(i as int) =~= Seq::<Json>::empty());
    }
    None
}

/// Strings joined with a comma and a space.
pub open spec fn join_comma(xs: Seq<Seq<char>>) -> Seq<char>
    decreases xs.len(),
{
    if xs.len() == 0 {
        Seq::empty()
    } else if xs.len() == 1 {
        xs[0]
    } else {
        join_comma(xs.drop_last()) + ", "@ + xs.last()
    }
}

/// The keyword value of the first node that yields one: a string as it
/// stands, an array as its string elements joined with `, `.
pub open spec fn spec_json_keywords(nodes: Seq<Json>) -> Option<Seq<char>>
    decreases nodes.len(),
{
    if nodes.len() == 0 {
        None
    } else {
        let rest = spec_json_keywords(nodes.drop_first());
        match nodes[0] {
            Json::Obj(f) => match obj_get(f@, "keywords"@) {
                Some(Json::JStr(s)) => Some(s@),
                Some(Json::Arr(a)) => Some(join_comma(str_elems(a@))),
                _ => rest,
            },
            _ => rest,
        }
    }
}

/// Read the keyword value of the first node that yields one.
pub fn json_keywords(nodes: &Vec<Json>) -> (r: Option<String>)
    ensures
        sopt(r) == spec_json_keywords(nodes@),
{
    let key = str_to_chars("keywords");
    let mut i: usize = 0;
    proof {
        assert(nodes@.skip(0) =~= nodes@);
    }
    while i < nodes.len()
        invariant
            0 <= i <= nodes@.len(),
            key@ == "keywords"@,
            spec_json_keywords(nodes@) == spec_json_keywords(nodes@.skip(i as int)),
        decreases nodes@.len() - i,
    {
        proof {
            assert(nodes@.skip(i as int)[0] == nodes@[i as int]);
            assert(nodes@.skip(i as int).drop_first() =~= nodes@.skip(i + 1));
        }
        match &nodes[i] {
            Json::Obj(f) => {
                match obj_get_ref(f, &key) {
                    Some(Json::JStr(s)) => {
                        return Some(s.clone());
                    },
                    Some(Json::Arr(a)) => {
                        let elems = str_elems_exec(a);
                        let mut outv: Vec<char> = Vec::new();
                        let mut k: usize = 0;
                        while k < elems.len()
                            invariant
                                0 <= k <= elems@.len(),
                                outv@ == join_comma(crate::text::sviews(elems@).take(k as int)),
                            decreases elems@.len() - k,
                        {
                            if k > 0 {
                                outv.push(',');
                                outv.push(' ');
                            }
                            let ev = str_to_chars(elems[k].as_str());
                            crate::text::append_all(&mut outv, &ev);
                            k += 1;
                            proof {
                                let sv = crate::text::sviews(elems@);
                                assert(sv.take(k as int).drop_last() =~= sv.take(k - 1));
                                assert(sv.take(k as int).last() == elems@[k - 1]@);
                                if k == 1 {
                                    assert(outv@ =~= join_comma(sv.take(1)));
                                } else {
                                    assert(", "@ =~= seq![',', ' ']) by {
                                        reveal_strlit(", ");
                                    }
                                    assert(outv@ =~= join_comma(sv.take(k as int)));
                                }
                            }
                        }
                        proof {
                            assert(crate::text::sviews(elems@).take(elems@.len() as int)
                                =~= crate::text::sviews(elems@));
                        }
                        return Some(chars_to_string(&outv));
                    },
                    _ => {},
                }
            },
            _ => {},
        }
        i += 1;
    }
    proof {
        assert(nodes@.skip(i as int) =~= Seq::<Json>::empty());
    }
    None
}

} // verus!
