//! The document codec and the content entities built on it. A document is a
//! frontmatter block between three-dash delimiter lines followed by a body;
//! `MarkdownDocument::parse` and `MarkdownDocument::to_string` convert both
//! ways, and `lemma_serialize_parse_round_trip` proves that parsing a
//! serialized document gives the document back.

use vstd::prelude::*;
use vstd::string::StringExecFns;

use crate::error::Error;
use crate::meta::{
    Value, ValueV, Tok, TokV, entries_view, entries_wf_v, entries_height, emit_entries_v,
    emit_value, render_tok, sp_classify, sp_parse_entries, toks_view, value_wf, value_height,
    key_ok, val_ok, lemma_entries_view_len, lemma_entries_inv, lemma_classify_render,
    lemma_render_line_ok, suffix_ok, emit_entries_x, parse_entries_x, classify_x, render_tok_x,
    esc_entries, unesc_entries, entries_struct_wf, value_struct_wf, escape_entries_x,
    unescape_entries_x, check_struct_entries, lemma_esc_entries_wf, lemma_unesc_entries_inv,
    lemma_esc_entries_concat, lemma_entries_struct_concat,
};
use crate::text::{
    chars_of_str, copy_chars, find_delim_from, has_delim_at, is_trimmed, is_ws, join_lines,
    lemma_join_ends, lemma_join_no_delim, lemma_split_join, lemma_trim_nl_wrap,
    lemma_trim_ws_prefix, line_clean, no_triple_dash, sp_join_lines, sp_split_lines, sp_trim,
    sp_trim_nl, split_lines, str_eq, string_of_chars, trim, trim_nl,
};

verus! {

/// Deepest mapping nesting the codec will write; deeper custom metadata is
/// reported as structurally un-encodable.
pub const MAX_NEST: usize = 64;

/// The metadata block of a content file: the recognized fields, and every
/// unrecognized top-level key in insertion order.
#[derive(Debug)]
pub struct Frontmatter {
    pub title: String,
    pub date: String,
    pub tags: Vec<String>,
    pub categories: Vec<String>,
    pub permalink: Option<String>,
    pub list_image: Option<String>,
    pub list_image_alt: Option<String>,
    pub main_image: Option<String>,
    pub main_image_alt: Option<String>,
    pub custom_fields: Vec<(String, Value)>,
}

/// The mathematical shape of a `Frontmatter`.
pub ghost struct FrontmatterV {
    pub title: Seq<char>,
    pub date: Seq<char>,
    pub tags: Seq<Seq<char>>,
    pub categories: Seq<Seq<char>>,
    pub permalink: Option<Seq<char>>,
    pub list_image: Option<Seq<char>>,
    pub list_image_alt: Option<Seq<char>>,
    pub main_image: Option<Seq<char>>,
    pub main_image_alt: Option<Seq<char>>,
    pub custom_fields: Seq<(Seq<char>, ValueV)>,
}

/// The view of an optional string.
pub open spec fn opt_view(o: Option<String>) -> Option<Seq<char>> {
    match o {
        Some(s) => Some(s@),
        None => None,
    }
}

impl View for Frontmatter {
    type V = FrontmatterV;

    open spec fn view(&self) -> FrontmatterV {
        FrontmatterV {
            title: self.title@,
            date: self.date@,
            tags: self.tags.deep_view(),
            categories: self.categories.deep_view(),
            permalink: opt_view(self.permalink),
            list_image: opt_view(self.list_image),
            list_image_alt: opt_view(self.list_image_alt),
            main_image: opt_view(self.main_image),
            main_image_alt: opt_view(self.main_image_alt),
            custom_fields: entries_view(self.custom_fields@),
        }
    }
}

/// A parsed document: frontmatter plus the trimmed body.
#[derive(Debug)]
pub struct MarkdownDocument {
    pub frontmatter: Frontmatter,
    pub content: String,
}

/// The mathematical shape of a document.
pub ghost struct MarkdownDocumentV {
    pub frontmatter: FrontmatterV,
    pub content: Seq<char>,
}

impl View for MarkdownDocument {
    type V = MarkdownDocumentV;

    open spec fn view(&self) -> MarkdownDocumentV {
        MarkdownDocumentV { frontmatter: self.frontmatter@, content: self.content@ }
    }
}

/// The entry of an optional scalar field, present only when set.
pub open spec fn opt_entry(name: Seq<char>, o: Option<Seq<char>>) -> Seq<(Seq<char>, ValueV)> {
    match o {
        Some(s) => seq![(name, ValueV::Scalar(s))],
        None => Seq::empty(),
    }
}

/// The entry of a string-list field, present only when nonempty.
pub open spec fn list_entry(name: Seq<char>, items: Seq<Seq<char>>) -> Seq<(Seq<char>, ValueV)> {
    if items.len() == 0 {
        Seq::empty()
    } else {
        seq![(name, ValueV::Items(items))]
    }
}

/// The recognized fields of a frontmatter, in the fixed output order.
pub open spec fn known_entries(fm: FrontmatterV) -> Seq<(Seq<char>, ValueV)> {
    seq![("title"@, ValueV::Scalar(fm.title)), ("date"@, ValueV::Scalar(fm.date))] + (list_entry(
        "tags"@,
        fm.tags,
    ) + (list_entry("categories"@, fm.categories) + (opt_entry("permalink"@, fm.permalink) + (
    opt_entry("listImage"@, fm.list_image) + (opt_entry("listImageAlt"@, fm.list_image_alt) + (
    opt_entry("mainImage"@, fm.main_image) + opt_entry("mainImageAlt"@, fm.main_image_alt)))))))
}

/// All entries a frontmatter writes: recognized fields first, then the
/// custom fields in their stored order.
pub open spec fn fm_entries(fm: FrontmatterV) -> Seq<(Seq<char>, ValueV)> {
    known_entries(fm) + fm.custom_fields
}

/// A key the codec recognizes as a named frontmatter field.
pub open spec fn is_known_key(k: Seq<char>) -> bool {
    k == "title"@ || k == "date"@ || k == "tags"@ || k == "categories"@ || k == "permalink"@ || k
        == "listImage"@ || k == "listImageAlt"@ || k == "mainImage"@ || k == "mainImageAlt"@
}

/// A frontmatter the codec writes and reads back: its custom values are
/// structurally sound, and no custom key shadows a recognized field (the
/// data model's invariant). Text content is unconstrained: the written
/// spelling quotes whatever the plain line format cannot carry.
pub open spec fn fm_wf(fm: FrontmatterV) -> bool {
    fm_encodable(fm) && forall|i: int|
        0 <= i < fm.custom_fields.len() ==> !is_known_key((#[trigger] fm.custom_fields[i]).0)
}

/// A document the round-trip law speaks of: well-formed frontmatter and an
/// already-trimmed body.
pub open spec fn doc_wf(d: MarkdownDocumentV) -> bool {
    fm_wf(d.frontmatter) && is_trimmed(d.content)
}

/// Partial frontmatter while entries are consumed; `None` marks a field not
/// seen yet.
pub ghost struct FmAccV {
    pub title: Option<Seq<char>>,
    pub date: Option<Seq<char>>,
    pub tags: Option<Seq<Seq<char>>>,
    pub categories: Option<Seq<Seq<char>>>,
    pub permalink: Option<Seq<char>>,
    pub list_image: Option<Seq<char>>,
    pub list_image_alt: Option<Seq<char>>,
    pub main_image: Option<Seq<char>>,
    pub main_image_alt: Option<Seq<char>>,
    pub custom_fields: Seq<(Seq<char>, ValueV)>,
}

/// Nothing seen yet.
pub open spec fn acc_init() -> FmAccV {
    FmAccV {
        title: None,
        date: None,
        tags: None,
        categories: None,
        permalink: None,
        list_image: None,
        list_image_alt: None,
        main_image: None,
        main_image_alt: None,
        custom_fields: Seq::empty(),
    }
}

/// Consume one entry: a recognized key must carry the right shape of value
/// and must not repeat; everything else lands in the custom fields.
pub open spec fn acc_step(acc: FmAccV, k: Seq<char>, v: ValueV) -> Option<FmAccV> {
    if k == "title"@ {
        match (acc.title, v) {
            (None, ValueV::Scalar(s)) => Some(FmAccV { title: Some(s), ..acc }),
            _ => None,
        }
    } else if k == "date"@ {
        match (acc.date, v) {
            (None, ValueV::Scalar(s)) => Some(FmAccV { date: Some(s), ..acc }),
            _ => None,
        }
    } else if k == "tags"@ {
        match (acc.tags, v) {
            (None, ValueV::Items(items)) => Some(FmAccV { tags: Some(items), ..acc }),
            _ => None,
        }
    } else if k == "categories"@ {
        match (acc.categories, v) {
            (None, ValueV::Items(items)) => Some(FmAccV { categories: Some(items), ..acc }),
            _ => None,
        }
    } else if k == "permalink"@ {
        match (acc.permalink, v) {
            (None, ValueV::Scalar(s)) => Some(FmAccV { permalink: Some(s), ..acc }),
            _ => None,
        }
    } else if k == "listImage"@ {
        match (acc.list_image, v) {
            (None, ValueV::Scalar(s)) => Some(FmAccV { list_image: Some(s), ..acc }),
            _ => None,
        }
    } else if k == "listImageAlt"@ {
        match (acc.list_image_alt, v) {
            (None, ValueV::Scalar(s)) => Some(FmAccV { list_image_alt: Some(s), ..acc }),
            _ => None,
        }
    } else if k == "mainImage"@ {
        match (acc.main_image, v) {
            (None, ValueV::Scalar(s)) => Some(FmAccV { main_image: Some(s), ..acc }),
            _ => None,
        }
    } else if k == "mainImageAlt"@ {
        match (acc.main_image_alt, v) {
            (None, ValueV::Scalar(s)) => Some(FmAccV { main_image_alt: Some(s), ..acc }),
            _ => None,
        }
    } else {
        Some(FmAccV { custom_fields: acc.custom_fields.push((k, v)), ..acc })
    }
}

/// The frontmatter an accumulator finishes into, once title and date are
/// both present; absent lists read as empty.
pub open spec fn acc_finish(acc: FmAccV) -> Option<FrontmatterV> {
    match (acc.title, acc.date) {
        (Some(t), Some(d)) => Some(
            FrontmatterV {
                title: t,
                date: d,
                tags: match acc.tags {
                    Some(x) => x,
                    None => Seq::empty(),
                },
                categories: match acc.categories {
                    Some(x) => x,
                    None => Seq::empty(),
                },
                permalink: acc.permalink,
                list_image: acc.list_image,
                list_image_alt: acc.list_image_alt,
                main_image: acc.main_image,
                main_image_alt: acc.main_image_alt,
                custom_fields: acc.custom_fields,
            },
        ),
        _ => None,
    }
}

/// Fold all entries into a frontmatter.
pub open spec fn sp_fm_of_entries(es: Seq<(Seq<char>, ValueV)>, acc: FmAccV) -> Option<
    FrontmatterV,
>
    decreases es.len(),
{
    if es.len() == 0 {
        acc_finish(acc)
    } else {
        match acc_step(acc, es[0].0, es[0].1) {
            None => None,
            Some(a2) => sp_fm_of_entries(es.drop_first(), a2),
        }
    }
}

/// Where the parse of a raw text ends up.
pub ghost enum DocOutcome {
    NotFm,
    Malformed,
    BadMeta,
    Doc(MarkdownDocumentV),
}

/// The raw text begins with the delimiter.
pub open spec fn starts_delim(s: Seq<char>) -> bool {
    s.len() >= 3 && s[0] == '-' && s[1] == '-' && s[2] == '-'
}

/// First delimiter occurrence at or after `from`.
pub open spec fn sp_find_delim(s: Seq<char>, from: nat) -> Option<nat>
    decreases s.len() + 3 - from,
{
    if from + 3 > s.len() {
        None
    } else if has_delim_at(s, from as int) {
        Some(from)
    } else {
        sp_find_delim(s, from + 1)
    }
}

/// `sp_find_delim`, characterized.
pub proof fn lemma_find_delim_char(s: Seq<char>, from: nat)
    ensures
        match sp_find_delim(s, from) {
            Some(i) => from <= i && has_delim_at(s, i as int) && forall|j: int|
                from <= j < i ==> !has_delim_at(s, j),
            None => forall|j: int| from <= j ==> !has_delim_at(s, j),
        },
    decreases s.len() + 3 - from,
{
    if from + 3 > s.len() {
    } else if has_delim_at(s, from as int) {
    } else {
        lemma_find_delim_char(s, from + 1);
    }
}

/// The classified tokens of the metadata lines, when every line is fine.
pub open spec fn lines_toks(lines: Seq<Seq<char>>) -> Option<Seq<TokV>> {
    if exists|k: int| 0 <= k < lines.len() && sp_classify(#[trigger] lines[k]) is None {
        None
    } else {
        Some(lines.map_values(|l: Seq<char>| sp_classify(l).unwrap()))
    }
}

/// The whole parse, as a function of the raw text.
pub open spec fn sp_parse_doc(s: Seq<char>) -> DocOutcome {
    if !starts_delim(s) {
        DocOutcome::NotFm
    } else {
        match sp_find_delim(s, 3) {
            None => DocOutcome::Malformed,
            Some(i) => {
                let meta = sp_trim_nl(s.subrange(3, i as int));
                let body = sp_trim(s.skip(i as int + 3));
                match lines_toks(sp_split_lines(meta)) {
                    None => DocOutcome::BadMeta,
                    Some(toks) => match sp_parse_entries(toks, 0) {
                        None => DocOutcome::BadMeta,
                        Some(p) => if p.1.len() != 0 {
                            DocOutcome::BadMeta
                        } else {
                            match unesc_entries(p.0) {
                                None => DocOutcome::BadMeta,
                                Some(u) => match sp_fm_of_entries(u, acc_init()) {
                                    None => DocOutcome::BadMeta,
                                    Some(fm) => DocOutcome::Doc(
                                        MarkdownDocumentV { frontmatter: fm, content: body },
                                    ),
                                },
                            }
                        },
                    },
                }
            },
        }
    }
}

/// The written form of a document: delimiter line, metadata lines, delimiter
/// line, blank line, body.
pub open spec fn sp_serialize_doc(d: MarkdownDocumentV) -> Seq<char> {
    let toks = emit_entries_v(esc_entries(fm_entries(d.frontmatter)), 0);
    let lines = toks.map_values(|t: TokV| render_tok(t));
    seq!['-', '-', '-', '\n'] + sp_join_lines(lines) + seq!['\n', '-', '-', '-', '\n', '\n']
        + d.content
}


/// The height of a concatenation is the greater of the two heights.
pub proof fn lemma_entries_height_concat(a: Seq<(Seq<char>, ValueV)>, b: Seq<(Seq<char>, ValueV)>)
    ensures
        entries_height(a + b) == if entries_height(a) > entries_height(b) {
            entries_height(a)
        } else {
            entries_height(b)
        },
    decreases a.len(),
{
    if a.len() == 0 {
        assert(a + b =~= b);
    } else {
        lemma_entries_height_concat(a.drop_first(), b);
        assert((a + b).drop_first() =~= a.drop_first() + b);
        assert((a + b)[0] == a[0]);
    }
}

/// Emission distributes over concatenation of entry lists.
pub proof fn lemma_emit_concat(a: Seq<(Seq<char>, ValueV)>, b: Seq<(Seq<char>, ValueV)>, ind: nat)
    ensures
        emit_entries_v(a + b, ind) == emit_entries_v(a, ind) + emit_entries_v(b, ind),
    decreases a.len(),
{
    if a.len() == 0 {
        assert(a + b =~= b);
        assert(emit_entries_v(a, ind) + emit_entries_v(b, ind) =~= emit_entries_v(b, ind));
    } else {
        lemma_emit_concat(a.drop_first(), b, ind);
        assert((a + b).drop_first() =~= a.drop_first() + b);
        assert((a + b)[0] == a[0]);
        assert(emit_entries_v(a + b, ind) =~= emit_entries_v(a, ind) + emit_entries_v(b, ind));
    }
}

/// Every token a well-formed entry list emits is itself well formed.
pub proof fn lemma_emit_all_wf(es: Seq<(Seq<char>, ValueV)>, ind: nat)
    requires
        entries_wf_v(es),
    ensures
        forall|t: int|
            0 <= t < emit_entries_v(es, ind).len() ==> (#[trigger] emit_entries_v(es, ind)[t]).wf(),
    decreases es,
{
    if es.len() == 0 {
    } else {
        let e0 = es[0];
        let etoks = emit_value(e0.0, e0.1, ind);
        let rtoks = emit_entries_v(es.drop_first(), ind);
        lemma_emit_all_wf(es.drop_first(), ind);
        assert(key_ok(e0.0) && value_wf(e0.1));
        assert forall|t: int| 0 <= t < etoks.len() implies (#[trigger] etoks[t]).wf() by {
            match e0.1 {
                ValueV::Scalar(_) => {},
                ValueV::Items(items) => {
                    if t >= 1 {
                        let mapped = items.map_values(
                            |x: Seq<char>| TokV::Item { indent: (ind + 2) as nat, val: x },
                        );
                        assert(etoks[t] == mapped[t - 1]);
                        assert(val_ok(items[t - 1]));
                    }
                },
                ValueV::Mapping(sub) => {
                    if t >= 1 {
                        lemma_emit_all_wf(sub, (ind + 2) as nat);
                        assert(etoks[t] == emit_entries_v(sub, (ind + 2) as nat)[t - 1]);
                    }
                },
            }
        }
        assert forall|t: int|
            0 <= t < emit_entries_v(es, ind).len() implies (#[trigger] emit_entries_v(es, ind)[t]).wf() by {
            assert(emit_entries_v(es, ind) == etoks + rtoks);
            if t < etoks.len() {
                assert(emit_entries_v(es, ind)[t] == etoks[t]);
            } else {
                assert(emit_entries_v(es, ind)[t] == rtoks[t - etoks.len()]);
            }
        }
    }
}

/// Owned copies of a list of strings.
fn clone_strings(v: &Vec<String>) -> (r: Vec<String>)
    ensures
        r.deep_view() == v.deep_view(),
{
    let mut r: Vec<String> = Vec::new();
    let mut i: usize = 0;
    while i < v.len()
        invariant
            i <= v@.len(),
            r@.len() == i,
            forall|k: int| 0 <= k < i ==> (#[trigger] r@[k])@ == v@[k]@,
        decreases v@.len() - i,
    {
        r.push(v[i].clone());
        i = i + 1;
    }
    assert(r.deep_view() =~~= v.deep_view());
    r
}

/// The recognized fields of a frontmatter as an owned entry list, in the
/// fixed output order.
#[verifier::rlimit(100)]
fn known_entries_x(fm: &Frontmatter) -> (r: Vec<(String, Value)>)
    ensures
        entries_view(r@) == known_entries(fm@),
{
    let mut r: Vec<(String, Value)> = Vec::new();
    r.push((String::from_str("title"), Value::Scalar(fm.title.clone())));
    r.push((String::from_str("date"), Value::Scalar(fm.date.clone())));
    if fm.tags.len() > 0 {
        r.push((String::from_str("tags"), Value::Items(clone_strings(&fm.tags))));
    }
    if fm.categories.len() > 0 {
        r.push((String::from_str("categories"), Value::Items(clone_strings(&fm.categories))));
    }
    match &fm.permalink {
        Some(s) => r.push((String::from_str("permalink"), Value::Scalar(s.clone()))),
        None => {},
    }
    match &fm.list_image {
        Some(s) => r.push((String::from_str("listImage"), Value::Scalar(s.clone()))),
        None => {},
    }
    match &fm.list_image_alt {
        Some(s) => r.push((String::from_str("listImageAlt"), Value::Scalar(s.clone()))),
        None => {},
    }
    match &fm.main_image {
        Some(s) => r.push((String::from_str("mainImage"), Value::Scalar(s.clone()))),
        None => {},
    }
    match &fm.main_image_alt {
        Some(s) => r.push((String::from_str("mainImageAlt"), Value::Scalar(s.clone()))),
        None => {},
    }
    proof {
        lemma_entries_view_len(r@);
        assert(entries_view(r@) =~= known_entries(fm@));
    }
    r
}

/// Whether the codec can write this frontmatter: every entry well formed and
/// nesting within `MAX_NEST`.
pub open spec fn fm_encodable(fm: FrontmatterV) -> bool {
    entries_struct_wf(fm.custom_fields) && entries_height(fm.custom_fields) <= MAX_NEST as nat
}

/// The recognized fields are always structurally sound and flat: empty
/// lists and unset options are simply not written.
pub proof fn lemma_known_struct(fm: FrontmatterV)
    ensures
        entries_struct_wf(known_entries(fm)),
        entries_height(known_entries(fm)) == 0,
{
    let g0 = seq![("title"@, ValueV::Scalar(fm.title)), ("date"@, ValueV::Scalar(fm.date))];
    let g1 = list_entry("tags"@, fm.tags);
    let g2 = list_entry("categories"@, fm.categories);
    let g3 = opt_entry("permalink"@, fm.permalink);
    let g4 = opt_entry("listImage"@, fm.list_image);
    let g5 = opt_entry("listImageAlt"@, fm.list_image_alt);
    let g6 = opt_entry("mainImage"@, fm.main_image);
    let g7 = opt_entry("mainImageAlt"@, fm.main_image_alt);
    assert(entries_struct_wf(g0) && entries_height(g0) == 0) by {
        assert(g0[0] == ("title"@, ValueV::Scalar(fm.title)));
        let s1 = g0.drop_first();
        assert(s1 =~= seq![("date"@, ValueV::Scalar(fm.date))]);
        assert(s1[0] == ("date"@, ValueV::Scalar(fm.date)));
        assert(s1.drop_first() =~= Seq::<(Seq<char>, ValueV)>::empty());
        assert(entries_struct_wf(s1.drop_first()));
        assert(entries_height(s1.drop_first()) == 0);
        assert(value_struct_wf(g0[0].1) && value_height(g0[0].1) == 0);
        assert(value_struct_wf(s1[0].1) && value_height(s1[0].1) == 0);
        assert(entries_struct_wf(s1));
        assert(entries_height(s1) == 0);
    }
    assert(entries_struct_wf(g1) && entries_height(g1) == 0) by {
        if fm.tags.len() > 0 {
            assert(g1[0] == ("tags"@, ValueV::Items(fm.tags)));
            assert(g1.drop_first() =~= Seq::<(Seq<char>, ValueV)>::empty());
            assert(entries_struct_wf(g1.drop_first()));
            assert(entries_height(g1.drop_first()) == 0);
            assert(value_struct_wf(g1[0].1) && value_height(g1[0].1) == 0);
        }
    }
    assert(entries_struct_wf(g2) && entries_height(g2) == 0) by {
        if fm.categories.len() > 0 {
            assert(g2[0] == ("categories"@, ValueV::Items(fm.categories)));
            assert(g2.drop_first() =~= Seq::<(Seq<char>, ValueV)>::empty());
            assert(entries_struct_wf(g2.drop_first()));
            assert(entries_height(g2.drop_first()) == 0);
            assert(value_struct_wf(g2[0].1) && value_height(g2[0].1) == 0);
        }
    }
    assert(entries_struct_wf(g3) && entries_height(g3) == 0) by {
        match fm.permalink {
            Some(x) => {
                assert(g3[0] == ("permalink"@, ValueV::Scalar(x)));
                assert(g3.drop_first() =~= Seq::<(Seq<char>, ValueV)>::empty());
                assert(entries_struct_wf(g3.drop_first()));
                assert(entries_height(g3.drop_first()) == 0);
                assert(value_struct_wf(g3[0].1) && value_height(g3[0].1) == 0);
            },
            None => {
                assert(g3.len() == 0);
            },
        }
    }
    assert(entries_struct_wf(g4) && entries_height(g4) == 0) by {
        match fm.list_image {
            Some(x) => {
                assert(g4[0] == ("listImage"@, ValueV::Scalar(x)));
                assert(g4.drop_first() =~= Seq::<(Seq<char>, ValueV)>::empty());
                assert(entries_struct_wf(g4.drop_first()));
                assert(entries_height(g4.drop_first()) == 0);
                assert(value_struct_wf(g4[0].1) && value_height(g4[0].1) == 0);
            },
            None => {
                assert(g4.len() == 0);
            },
        }
    }
    assert(entries_struct_wf(g5) && entries_height(g5) == 0) by {
        match fm.list_image_alt {
            Some(x) => {
                assert(g5[0] == ("listImageAlt"@, ValueV::Scalar(x)));
                assert(g5.drop_first() =~= Seq::<(Seq<char>, ValueV)>::empty());
                assert(entries_struct_wf(g5.drop_first()));
                assert(entries_height(g5.drop_first()) == 0);
                assert(value_struct_wf(g5[0].1) && value_height(g5[0].1) == 0);
            },
            None => {
                assert(g5.len() == 0);
            },
        }
    }
    assert(entries_struct_wf(g6) && entries_height(g6) == 0) by {
        match fm.main_image {
            Some(x) => {
                assert(g6[0] == ("mainImage"@, ValueV::Scalar(x)));
                assert(g6.drop_first() =~= Seq::<(Seq<char>, ValueV)>::empty());
                assert(entries_struct_wf(g6.drop_first()));
                assert(entries_height(g6.drop_first()) == 0);
                assert(value_struct_wf(g6[0].1) && value_height(g6[0].1) == 0);
            },
            None => {
                assert(g6.len() == 0);
            },
        }
    }
    assert(entries_struct_wf(g7) && entries_height(g7) == 0) by {
        match fm.main_image_alt {
            Some(x) => {
                assert(g7[0] == ("mainImageAlt"@, ValueV::Scalar(x)));
                assert(g7.drop_first() =~= Seq::<(Seq<char>, ValueV)>::empty());
                assert(entries_struct_wf(g7.drop_first()));
                assert(entries_height(g7.drop_first()) == 0);
                assert(value_struct_wf(g7[0].1) && value_height(g7[0].1) == 0);
            },
            None => {
                assert(g7.len() == 0);
            },
        }
    }
    lemma_entries_struct_concat(g6, g7);
    lemma_entries_height_concat(g6, g7);
    lemma_entries_struct_concat(g5, g6 + g7);
    lemma_entries_height_concat(g5, g6 + g7);
    lemma_entries_struct_concat(g4, g5 + (g6 + g7));
    lemma_entries_height_concat(g4, g5 + (g6 + g7));
    lemma_entries_struct_concat(g3, g4 + (g5 + (g6 + g7)));
    lemma_entries_height_concat(g3, g4 + (g5 + (g6 + g7)));
    lemma_entries_struct_concat(g2, g3 + (g4 + (g5 + (g6 + g7))));
    lemma_entries_height_concat(g2, g3 + (g4 + (g5 + (g6 + g7))));
    lemma_entries_struct_concat(g1, g2 + (g3 + (g4 + (g5 + (g6 + g7)))));
    lemma_entries_height_concat(g1, g2 + (g3 + (g4 + (g5 + (g6 + g7)))));
    lemma_entries_struct_concat(g0, g1 + (g2 + (g3 + (g4 + (g5 + (g6 + g7))))));
    lemma_entries_height_concat(g0, g1 + (g2 + (g3 + (g4 + (g5 + (g6 + g7))))));
}

/// Serialize a frontmatter and body into the document text. Total except on
/// structurally un-encodable custom values: an empty block sequence or
/// mapping, or nesting past `MAX_NEST`. Text content never fails: scalars
/// and keys the plain line format cannot carry are written in a quoted,
/// escaped spelling that parsing reads back.
pub fn serialize_parts(fm: &Frontmatter, content: &str) -> (r: Result<String, Error>)
    ensures
        match r {
            Ok(s) => fm_encodable(fm@) && s@ == sp_serialize_doc(
                MarkdownDocumentV { frontmatter: fm@, content: content@ },
            ),
            Err(e) => !fm_encodable(fm@) && (e matches Error::InvalidMetadata(m) && m@
                == "unencodable custom metadata"@),
        },
{
    let known = known_entries_x(fm);
    let ok = check_struct_entries(fm.custom_fields.as_slice(), MAX_NEST);
    if !ok {
        return Err(Error::InvalidMetadata(String::from_str("unencodable custom metadata")));
    }
    proof {
        lemma_known_struct(fm@);
        lemma_entries_struct_concat(known_entries(fm@), fm@.custom_fields);
        lemma_entries_height_concat(known_entries(fm@), fm@.custom_fields);
        lemma_esc_entries_wf(known_entries(fm@));
        lemma_esc_entries_wf(fm@.custom_fields);
        lemma_esc_entries_concat(known_entries(fm@), fm@.custom_fields);
    }
    let esc_known = escape_entries_x(known.as_slice());
    let esc_custom = escape_entries_x(fm.custom_fields.as_slice());
    let mut toks = emit_entries_x(esc_known.as_slice(), 0);
    let mut toks2 = emit_entries_x(esc_custom.as_slice(), 0);
    toks.append(&mut toks2);
    proof {
        lemma_emit_concat(esc_entries(known_entries(fm@)), esc_entries(fm@.custom_fields), 0);
        assert(toks_view(toks@) =~= emit_entries_v(esc_entries(fm_entries(fm@)), 0));
    }
    let ghost tv = toks_view(toks@);
    let mut lines: Vec<Vec<char>> = Vec::new();
    let mut i: usize = 0;
    while i < toks.len()
        invariant
            tv == toks_view(toks@),
            tv.len() == toks@.len(),
            i <= toks@.len(),
            lines@.len() == i,
            forall|k: int| 0 <= k < i ==> (#[trigger] lines@[k])@ == render_tok(tv[k]),
        decreases toks@.len() - i,
    {
        assert(tv[i as int] == toks@[i as int]@);
        let line = render_tok_x(&toks[i]);
        lines.push(line);
        i = i + 1;
    }
    let j = join_lines(lines.as_slice());
    proof {
        assert(lines.deep_view() =~~= tv.map_values(|t: TokV| render_tok(t)));
    }
    let mut out: Vec<char> = Vec::new();
    out.push('-');
    out.push('-');
    out.push('-');
    out.push('\n');
    let mut jv = j;
    out.append(&mut jv);
    out.push('\n');
    out.push('-');
    out.push('-');
    out.push('-');
    out.push('\n');
    out.push('\n');
    let bc = chars_of_str(content);
    copy_chars(&mut out, bc.as_slice());
    let s = string_of_chars(out.as_slice());
    proof {
        assert(s@ =~= sp_serialize_doc(MarkdownDocumentV { frontmatter: fm@, content: content@ }));
    }
    Ok(s)
}


/// Partial frontmatter while entries are consumed, executable form.
struct FmAcc {
    title: Option<String>,
    date: Option<String>,
    tags: Option<Vec<String>>,
    categories: Option<Vec<String>>,
    permalink: Option<String>,
    list_image: Option<String>,
    list_image_alt: Option<String>,
    main_image: Option<String>,
    main_image_alt: Option<String>,
    custom_fields: Vec<(String, Value)>,
}

impl View for FmAcc {
    type V = FmAccV;

    closed spec fn view(&self) -> FmAccV {
        FmAccV {
            title: opt_view(self.title),
            date: opt_view(self.date),
            tags: match self.tags {
                Some(x) => Some(x.deep_view()),
                None => None,
            },
            categories: match self.categories {
                Some(x) => Some(x.deep_view()),
                None => None,
            },
            permalink: opt_view(self.permalink),
            list_image: opt_view(self.list_image),
            list_image_alt: opt_view(self.list_image_alt),
            main_image: opt_view(self.main_image),
            main_image_alt: opt_view(self.main_image_alt),
            custom_fields: entries_view(self.custom_fields@),
        }
    }
}

/// Fold entries into a frontmatter, executable form of `sp_fm_of_entries`.
#[verifier::rlimit(100)]
fn fm_of_entries_x(es: Vec<(String, Value)>, acc: FmAcc) -> (r: Result<Frontmatter, ()>)
    ensures
        match sp_fm_of_entries(entries_view(es@), acc@) {
            None => r is Err,
            Some(fmv) => match r {
                Ok(fm) => fm@ == fmv,
                Err(_) => false,
            },
        },
    decreases es@.len(),
{
    let ghost ev = entries_view(es@);
    proof {
        lemma_entries_view_len(es@);
    }
    if es.len() == 0 {
        let FmAcc {
            title,
            date,
            tags,
            categories,
            permalink,
            list_image,
            list_image_alt,
            main_image,
            main_image_alt,
            custom_fields,
        } = acc;
        match (title, date) {
            (Some(t), Some(d)) => {
                let fm = Frontmatter {
                    title: t,
                    date: d,
                    tags: match tags {
                        Some(x) => x,
                        None => Vec::new(),
                    },
                    categories: match categories {
                        Some(x) => x,
                        None => Vec::new(),
                    },
                    permalink,
                    list_image,
                    list_image_alt,
                    main_image,
                    main_image_alt,
                    custom_fields,
                };
                assert(fm.tags.deep_view() =~~= acc_finish(acc@).unwrap().tags);
                assert(fm.categories.deep_view() =~~= acc_finish(acc@).unwrap().categories);
                Ok(fm)
            },
            _ => Err(()),
        }
    } else {
        let mut es2 = es;
        let (k, v) = es2.remove(0);
        proof {
            assert(es2@ =~= es@.drop_first());
            assert(entries_view(es2@) =~= ev.drop_first());
            assert(ev[0] == (k@, v@));
        }
        let mut acc2 = acc;
        if str_eq(k.as_str(), "title") {
            if acc2.title.is_some() {
                return Err(());
            }
            match v {
                Value::Scalar(s) => {
                    acc2.title = Some(s);
                },
                _ => {
                    return Err(());
                },
            }
        } else if str_eq(k.as_str(), "date") {
            if acc2.date.is_some() {
                return Err(());
            }
            match v {
                Value::Scalar(s) => {
                    acc2.date = Some(s);
                },
                _ => {
                    return Err(());
                },
            }
        } else if str_eq(k.as_str(), "tags") {
            if acc2.tags.is_some() {
                return Err(());
            }
            match v {
                Value::Items(items) => {
                    acc2.tags = Some(items);
                },
                _ => {
                    return Err(());
                },
            }
        } else if str_eq(k.as_str(), "categories") {
            if acc2.categories.is_some() {
                return Err(());
            }
            match v {
                Value::Items(items) => {
                    acc2.categories = Some(items);
                },
                _ => {
                    return Err(());
                },
            }
        } else if str_eq(k.as_str(), "permalink") {
            if acc2.permalink.is_some() {
                return Err(());
            }
            match v {
                Value::Scalar(s) => {
                    acc2.permalink = Some(s);
                },
                _ => {
                    return Err(());
                },
            }
        } else if str_eq(k.as_str(), "listImage") {
            if acc2.list_image.is_some() {
                return Err(());
            }
            match v {
                Value::Scalar(s) => {
                    acc2.list_image = Some(s);
                },
                _ => {
                    return Err(());
                },
            }
        } else if str_eq(k.as_str(), "listImageAlt") {
            if acc2.list_image_alt.is_some() {
                return Err(());
            }
            match v {
                Value::Scalar(s) => {
                    acc2.list_image_alt = Some(s);
                },
                _ => {
                    return Err(());
                },
            }
        } else if str_eq(k.as_str(), "mainImage") {
            if acc2.main_image.is_some() {
                return Err(());
            }
            match v {
                Value::Scalar(s) => {
                    acc2.main_image = Some(s);
                },
                _ => {
                    return Err(());
                },
            }
        } else if str_eq(k.as_str(), "mainImageAlt") {
            if acc2.main_image_alt.is_some() {
                return Err(());
            }
            match v {
                Value::Scalar(s) => {
                    acc2.main_image_alt = Some(s);
                },
                _ => {
                    return Err(());
                },
            }
        } else {
            let ghost oldc = acc2.custom_fields@;
            acc2.custom_fields.push((k, v));
            proof {
                lemma_entries_view_len(oldc);
                lemma_entries_view_len(acc2.custom_fields@);
                assert(entries_view(acc2.custom_fields@) =~= entries_view(oldc).push((k@, v@)));
            }
        }
        assert(acc_step(acc@, ev[0].0, ev[0].1) == Some(acc2@));
        fm_of_entries_x(es2, acc2)
    }
}

/// An accumulator with nothing seen yet, executable.
fn acc_init_x() -> (r: FmAcc)
    ensures
        r@ == acc_init(),
{
    let r = FmAcc {
        title: None,
        date: None,
        tags: None,
        categories: None,
        permalink: None,
        list_image: None,
        list_image_alt: None,
        main_image: None,
        main_image_alt: None,
        custom_fields: Vec::new(),
    };
    assert(entries_view(r.custom_fields@) =~= Seq::<(Seq<char>, ValueV)>::empty());
    r
}

impl MarkdownDocument {
    /// Parse a raw text: it must open with the three-dash delimiter
    /// (`NotFrontmatter` otherwise) and hold a second delimiter
    /// (`MalformedFrontmatter` otherwise); the metadata between them must
    /// decode (`InvalidMetadata` otherwise). The body is everything after
    /// the second delimiter, trimmed.
    pub fn parse(raw: &str) -> (r: Result<MarkdownDocument, Error>)
        ensures
            match sp_parse_doc(raw@) {
                DocOutcome::NotFm => r matches Err(Error::NotFrontmatter),
                DocOutcome::Malformed => r matches Err(Error::MalformedFrontmatter),
                DocOutcome::BadMeta => (r matches Err(Error::InvalidMetadata(m)) && m@
                    == "metadata does not decode"@),
                DocOutcome::Doc(d) => r matches Ok(doc) && doc@ == d,
            },
            r matches Err(Error::NotFrontmatter) <==> !starts_delim(raw@),
            r matches Err(Error::MalformedFrontmatter) <==> (starts_delim(raw@) && sp_find_delim(
                raw@,
                3,
            ) is None),
    {
        let cs = chars_of_str(raw);
        if !(cs.len() >= 3 && cs[0] == '-' && cs[1] == '-' && cs[2] == '-') {
            return Err(Error::NotFrontmatter);
        }
        let found = find_delim_from(cs.as_slice(), 3);
        proof {
            lemma_find_delim_char(raw@, 3);
        }
        let i = match found {
            None => {
                proof {
                    match sp_find_delim(raw@, 3) {
                        Some(w) => {
                            assert(has_delim_at(raw@, w as int));
                        },
                        None => {},
                    }
                }
                return Err(Error::MalformedFrontmatter);
            },
            Some(i) => i,
        };
        proof {
            match sp_find_delim(raw@, 3) {
                Some(w) => {
                    if w < i {
                        assert(has_delim_at(raw@, w as int));
                    }
                    if i < w {
                        assert(has_delim_at(raw@, i as int));
                    }
                },
                None => {
                    assert(has_delim_at(raw@, i as int));
                },
            }
            assert(sp_find_delim(raw@, 3) == Some(i as nat));
        }
        let meta_seg = &cs[3..i];
        let meta = trim_nl(meta_seg);
        proof {
            assert(meta_seg@ =~= raw@.subrange(3, i as int));
        }
        let body_slice = trim(&cs[i + 3..cs.len()]);
        proof {
            assert(cs@.subrange(i as int + 3, cs@.len() as int) =~= raw@.skip(i as int + 3));
        }
        let lines = split_lines(meta);
        let ghost lv = lines.deep_view();
        let mut toks: Vec<Tok> = Vec::new();
        let mut k: usize = 0;
        while k < lines.len()
            invariant
                starts_delim(raw@),
                sp_find_delim(raw@, 3) == Some(i as nat),
                lv == sp_split_lines(sp_trim_nl(raw@.subrange(3, i as int))),
                lv == lines.deep_view(),
                lv.len() == lines@.len(),
                k <= lines@.len(),
                toks@.len() == k,
                forall|m: int|
                    0 <= m < k ==> sp_classify(#[trigger] lv[m]) is Some && toks@[m]@
                        == sp_classify(lv[m]).unwrap(),
            decreases lines@.len() - k,
        {
            assert(lv[k as int] == lines@[k as int]@);
            match classify_x(lines[k].as_slice()) {
                None => {
                    proof {
                        assert(sp_classify(lv[k as int]) is None);
                    }
                    return Err(Error::InvalidMetadata(String::from_str("metadata does not decode")));
                },
                Some(t) => {
                    toks.push(t);
                },
            }
            k = k + 1;
        }
        proof {
            assert(lines_toks(lv) == Some(toks_view(toks@))) by {
                assert(forall|m: int| 0 <= m < lv.len() ==> !(sp_classify(#[trigger] lv[m]) is None));
                assert(toks_view(toks@) =~= lv.map_values(|l: Seq<char>| sp_classify(l).unwrap()));
            }
        }
        match parse_entries_x(toks.as_slice(), 0) {
            Err(()) => Err(Error::InvalidMetadata(String::from_str("metadata does not decode"))),
            Ok(p) => {
                let (es, rest) = p;
                if rest.len() != 0 {
                    return Err(Error::InvalidMetadata(String::from_str("metadata does not decode")));
                }
                match unescape_entries_x(es) {
                    Err(()) => Err(
                        Error::InvalidMetadata(String::from_str("metadata does not decode")),
                    ),
                    Ok(es2) => match fm_of_entries_x(es2, acc_init_x()) {
                        Err(()) => Err(
                            Error::InvalidMetadata(String::from_str("metadata does not decode")),
                        ),
                        Ok(fm) => {
                            let content = string_of_chars(body_slice);
                            Ok(MarkdownDocument { frontmatter: fm, content })
                        },
                    },
                }
            },
        }
    }

    /// Serialize this document; see `serialize_parts`.
    pub fn to_string(&self) -> (r: Result<String, Error>)
        ensures
            match r {
                Ok(s) => fm_encodable(self.frontmatter@) && s@ == sp_serialize_doc(self@),
                Err(e) => !fm_encodable(self.frontmatter@) && (e
                    matches Error::InvalidMetadata(m) && m@ == "unencodable custom metadata"@),
            },
    {
        serialize_parts(&self.frontmatter, self.content.as_str())
    }
}


/// Fold entries into an accumulator without finishing.
pub open spec fn sp_fold(es: Seq<(Seq<char>, ValueV)>, acc: FmAccV) -> Option<FmAccV>
    decreases es.len(),
{
    if es.len() == 0 {
        Some(acc)
    } else {
        match acc_step(acc, es[0].0, es[0].1) {
            None => None,
            Some(a2) => sp_fold(es.drop_first(), a2),
        }
    }
}

/// Folding then finishing is the whole decode.
pub proof fn lemma_fold_finish(es: Seq<(Seq<char>, ValueV)>, acc: FmAccV)
    ensures
        sp_fm_of_entries(es, acc) == match sp_fold(es, acc) {
            None => None,
            Some(a) => acc_finish(a),
        },
    decreases es.len(),
{
    if es.len() > 0 {
        match acc_step(acc, es[0].0, es[0].1) {
            None => {},
            Some(a2) => {
                lemma_fold_finish(es.drop_first(), a2);
            },
        }
    }
}

/// Folding a concatenation folds the parts in turn.
pub proof fn lemma_fold_concat(a: Seq<(Seq<char>, ValueV)>, b: Seq<(Seq<char>, ValueV)>, acc: FmAccV)
    ensures
        sp_fold(a + b, acc) == match sp_fold(a, acc) {
            None => None,
            Some(x) => sp_fold(b, x),
        },
    decreases a.len(),
{
    if a.len() == 0 {
        assert(a + b =~= b);
    } else {
        assert((a + b)[0] == a[0]);
        match acc_step(acc, a[0].0, a[0].1) {
            None => {},
            Some(a2) => {
                assert((a + b).drop_first() =~= a.drop_first() + b);
                lemma_fold_concat(a.drop_first(), b, a2);
            },
        }
    }
}

/// Entries with unrecognized keys only append to the custom fields.
pub proof fn lemma_fold_custom(cs: Seq<(Seq<char>, ValueV)>, acc: FmAccV)
    requires
        forall|i: int| 0 <= i < cs.len() ==> !is_known_key((#[trigger] cs[i]).0),
    ensures
        sp_fold(cs, acc) == Some(FmAccV { custom_fields: acc.custom_fields + cs, ..acc }),
    decreases cs.len(),
{
    if cs.len() == 0 {
        assert(acc.custom_fields + cs =~= acc.custom_fields);
        assert((FmAccV { custom_fields: acc.custom_fields + cs, ..acc }) == acc);
    } else {
        let a2 = FmAccV { custom_fields: acc.custom_fields.push(cs[0]), ..acc };
        assert(acc_step(acc, cs[0].0, cs[0].1) == Some(a2));
        lemma_fold_custom(cs.drop_first(), a2);
        assert(acc.custom_fields.push(cs[0]) + cs.drop_first() =~= acc.custom_fields + cs);
    }
}

/// The nine recognized keys are pairwise distinct.
#[verifier::rlimit(100)]
#[verifier::spinoff_prover]
proof fn lemma_key_facts()
    ensures
        "date"@ != "title"@,
        "tags"@ != "title"@,
        "tags"@ != "date"@,
        "categories"@ != "title"@,
        "categories"@ != "date"@,
        "categories"@ != "tags"@,
        "permalink"@ != "title"@,
        "permalink"@ != "date"@,
        "permalink"@ != "tags"@,
        "permalink"@ != "categories"@,
        "listImage"@ != "title"@,
        "listImage"@ != "date"@,
        "listImage"@ != "tags"@,
        "listImage"@ != "categories"@,
        "listImage"@ != "permalink"@,
        "listImageAlt"@ != "title"@,
        "listImageAlt"@ != "date"@,
        "listImageAlt"@ != "tags"@,
        "listImageAlt"@ != "categories"@,
        "listImageAlt"@ != "permalink"@,
        "listImageAlt"@ != "listImage"@,
        "mainImage"@ != "title"@,
        "mainImage"@ != "date"@,
        "mainImage"@ != "tags"@,
        "mainImage"@ != "categories"@,
        "mainImage"@ != "permalink"@,
        "mainImage"@ != "listImage"@,
        "mainImage"@ != "listImageAlt"@,
        "mainImageAlt"@ != "title"@,
        "mainImageAlt"@ != "date"@,
        "mainImageAlt"@ != "tags"@,
        "mainImageAlt"@ != "categories"@,
        "mainImageAlt"@ != "permalink"@,
        "mainImageAlt"@ != "listImage"@,
        "mainImageAlt"@ != "listImageAlt"@,
        "mainImageAlt"@ != "mainImage"@,
{
    reveal_strlit("title");
    reveal_strlit("date");
    reveal_strlit("tags");
    reveal_strlit("categories");
    reveal_strlit("permalink");
    reveal_strlit("listImage");
    reveal_strlit("listImageAlt");
    reveal_strlit("mainImage");
    reveal_strlit("mainImageAlt");
    assert("title"@[0] == 't' && "date"@[0] == 'd' && "tags"@[0] == 't' && "categories"@[0] == 'c'
        && "permalink"@[0] == 'p' && "listImage"@[0] == 'l' && "mainImage"@[0] == 'm'
        && "listImageAlt"@[0] == 'l' && "mainImageAlt"@[0] == 'm');
    assert("title"@.len() == 5 && "date"@.len() == 4 && "tags"@.len() == 4 && "categories"@.len()
        == 10 && "permalink"@.len() == 9 && "listImage"@.len() == 9 && "mainImage"@.len() == 9
        && "listImageAlt"@.len() == 12 && "mainImageAlt"@.len() == 12);
    assert("listImage"@[0] == 'l' && "permalink"@[0] == 'p' && "mainImage"@[0] == 'm');
    assert("listImageAlt"@[0] == 'l' && "mainImageAlt"@[0] == 'm');
    assert("tags"@[0] == 't' && "date"@[0] == 'd');
}

/// The accumulator after the recognized fields have been consumed.
pub open spec fn acc_after_known(fm: FrontmatterV) -> FmAccV {
    FmAccV {
        title: Some(fm.title),
        date: Some(fm.date),
        tags: if fm.tags.len() > 0 {
            Some(fm.tags)
        } else {
            None
        },
        categories: if fm.categories.len() > 0 {
            Some(fm.categories)
        } else {
            None
        },
        permalink: fm.permalink,
        list_image: fm.list_image,
        list_image_alt: fm.list_image_alt,
        main_image: fm.main_image,
        main_image_alt: fm.main_image_alt,
        custom_fields: Seq::empty(),
    }
}

/// Folding the recognized fields from an empty accumulator.
#[verifier::rlimit(100)]
#[verifier::spinoff_prover]
proof fn lemma_fold_known(fm: FrontmatterV)
    ensures
        sp_fold(known_entries(fm), acc_init()) == Some(acc_after_known(fm)),
{
    lemma_key_facts();
    let k = known_entries(fm);
    let acc0 = acc_init();
    let g0 = seq![("title"@, ValueV::Scalar(fm.title)), ("date"@, ValueV::Scalar(fm.date))];
    let g1 = list_entry("tags"@, fm.tags);
    let g2 = list_entry("categories"@, fm.categories);
    let g3 = opt_entry("permalink"@, fm.permalink);
    let g4 = opt_entry("listImage"@, fm.list_image);
    let g5 = opt_entry("listImageAlt"@, fm.list_image_alt);
    let g6 = opt_entry("mainImage"@, fm.main_image);
    let g7 = opt_entry("mainImageAlt"@, fm.main_image_alt);
    let acc1 = FmAccV { title: Some(fm.title), date: Some(fm.date), ..acc0 };
    assert(sp_fold(g0, acc0) == Some(acc1)) by {
        assert(g0[0] == ("title"@, ValueV::Scalar(fm.title)));
        let acc_a = FmAccV { title: Some(fm.title), ..acc0 };
        assert(acc_step(acc0, g0[0].0, g0[0].1) == Some(acc_a));
        let s1 = g0.drop_first();
        assert(s1 =~= seq![("date"@, ValueV::Scalar(fm.date))]);
        assert(s1[0] == ("date"@, ValueV::Scalar(fm.date)));
        assert("date"@ != "title"@);
        assert(acc_step(acc_a, s1[0].0, s1[0].1) == Some(acc1));
        let s2 = s1.drop_first();
        assert(s2.len() == 0);
        assert(sp_fold(s2, acc1) == Some(acc1));
        assert(sp_fold(s1, acc_a) == Some(acc1));
    }
    let acc2 = if fm.tags.len() > 0 {
        FmAccV { tags: Some(fm.tags), ..acc1 }
    } else {
        acc1
    };
    assert(sp_fold(g1, acc1) == Some(acc2)) by {
        if fm.tags.len() > 0 {
            assert(g1[0] == ("tags"@, ValueV::Items(fm.tags)));
            assert("tags"@ != "title"@ && "tags"@ != "date"@);
            assert(acc_step(acc1, g1[0].0, g1[0].1) == Some(acc2));
            let s1 = g1.drop_first();
            assert(s1.len() == 0);
            assert(sp_fold(s1, acc2) == Some(acc2));
        }
    }
    let acc3 = if fm.categories.len() > 0 {
        FmAccV { categories: Some(fm.categories), ..acc2 }
    } else {
        acc2
    };
    assert(sp_fold(g2, acc2) == Some(acc3)) by {
        if fm.categories.len() > 0 {
            assert(g2[0] == ("categories"@, ValueV::Items(fm.categories)));
            assert("categories"@ != "title"@ && "categories"@ != "date"@ && "categories"@
                != "tags"@);
            assert(acc_step(acc2, g2[0].0, g2[0].1) == Some(acc3));
            let s1 = g2.drop_first();
            assert(s1.len() == 0);
            assert(sp_fold(s1, acc3) == Some(acc3));
        }
    }
    let acc4 = FmAccV { permalink: fm.permalink, ..acc3 };
    assert(sp_fold(g3, acc3) == Some(acc4)) by {
        match fm.permalink {
            Some(x) => {
                assert(g3[0] == ("permalink"@, ValueV::Scalar(x)));
                assert(acc_step(acc3, g3[0].0, g3[0].1) == Some(acc4));
                let s1 = g3.drop_first();
                assert(s1.len() == 0);
                assert(sp_fold(s1, acc4) == Some(acc4));
            },
            None => {
                assert(acc4 == acc3);
                assert(g3.len() == 0);
            },
        }
    }
    let acc5 = FmAccV { list_image: fm.list_image, ..acc4 };
    assert(sp_fold(g4, acc4) == Some(acc5)) by {
        match fm.list_image {
            Some(x) => {
                assert(g4[0] == ("listImage"@, ValueV::Scalar(x)));
                assert(acc_step(acc4, g4[0].0, g4[0].1) == Some(acc5));
                let s1 = g4.drop_first();
                assert(s1.len() == 0);
                assert(sp_fold(s1, acc5) == Some(acc5));
            },
            None => {
                assert(acc5 == acc4);
                assert(g4.len() == 0);
            },
        }
    }
    let acc6 = FmAccV { list_image_alt: fm.list_image_alt, ..acc5 };
    assert(sp_fold(g5, acc5) == Some(acc6)) by {
        match fm.list_image_alt {
            Some(x) => {
                assert(g5[0] == ("listImageAlt"@, ValueV::Scalar(x)));
                assert(acc_step(acc5, g5[0].0, g5[0].1) == Some(acc6));
                let s1 = g5.drop_first();
                assert(s1.len() == 0);
                assert(sp_fold(s1, acc6) == Some(acc6));
            },
            None => {
                assert(acc6 == acc5);
                assert(g5.len() == 0);
            },
        }
    }
    let acc7 = FmAccV { main_image: fm.main_image, ..acc6 };
    assert(sp_fold(g6, acc6) == Some(acc7)) by {
        match fm.main_image {
            Some(x) => {
                assert(g6[0] == ("mainImage"@, ValueV::Scalar(x)));
                assert(acc_step(acc6, g6[0].0, g6[0].1) == Some(acc7));
                let s1 = g6.drop_first();
                assert(s1.len() == 0);
                assert(sp_fold(s1, acc7) == Some(acc7));
            },
            None => {
                assert(acc7 == acc6);
                assert(g6.len() == 0);
            },
        }
    }
    let acc8 = FmAccV { main_image_alt: fm.main_image_alt, ..acc7 };
    assert(sp_fold(g7, acc7) == Some(acc8)) by {
        match fm.main_image_alt {
            Some(x) => {
                assert(g7[0] == ("mainImageAlt"@, ValueV::Scalar(x)));
                assert(acc_step(acc7, g7[0].0, g7[0].1) == Some(acc8));
                let s1 = g7.drop_first();
                assert(s1.len() == 0);
                assert(sp_fold(s1, acc8) == Some(acc8));
            },
            None => {
                assert(acc8 == acc7);
                assert(g7.len() == 0);
            },
        }
    }
    assert(sp_fold(k, acc0) == Some(acc8)) by {
        lemma_fold_concat(g0, g1 + (g2 + (g3 + (g4 + (g5 + (g6 + g7))))), acc0);
        lemma_fold_concat(g1, g2 + (g3 + (g4 + (g5 + (g6 + g7)))), acc1);
        lemma_fold_concat(g2, g3 + (g4 + (g5 + (g6 + g7))), acc2);
        lemma_fold_concat(g3, g4 + (g5 + (g6 + g7)), acc3);
        lemma_fold_concat(g4, g5 + (g6 + g7), acc4);
        lemma_fold_concat(g5, g6 + g7, acc5);
        lemma_fold_concat(g6, g7, acc6);
    }
    assert(acc8 == acc_after_known(fm));
}

/// Decoding the entries a well-formed frontmatter writes gives the
/// frontmatter back.
#[verifier::rlimit(100)]
#[verifier::spinoff_prover]
pub proof fn lemma_fm_inv(fm: FrontmatterV)
    requires
        forall|i: int|
            0 <= i < fm.custom_fields.len() ==> !is_known_key((#[trigger] fm.custom_fields[i]).0),
    ensures
        sp_fm_of_entries(fm_entries(fm), acc_init()) == Some(fm),
{
    let k = known_entries(fm);
    let acc0 = acc_init();
    lemma_fold_finish(fm_entries(fm), acc0);
    lemma_fold_concat(k, fm.custom_fields, acc0);
    lemma_fold_known(fm);
    let acc8 = acc_after_known(fm);
    lemma_fold_custom(fm.custom_fields, acc8);
    let acc9 = FmAccV { custom_fields: acc8.custom_fields + fm.custom_fields, ..acc8 };
    assert(acc9.custom_fields =~= fm.custom_fields);
    assert(acc_finish(acc9) == Some(fm)) by {
        let out = acc_finish(acc9).unwrap();
        if fm.tags.len() == 0 {
            assert(out.tags =~= fm.tags);
        }
        if fm.categories.len() == 0 {
            assert(out.categories =~= fm.categories);
        }
    }
}


/// The round-trip law of the codec: parsing a serialized well-formed
/// document yields the document again, custom fields and their order
/// included, whatever characters its titles, scalars and keys hold. The
/// document must be well formed (`doc_wf`): its body already trimmed, its
/// custom values structurally sound, and no custom key shadowing a
/// recognized field.
#[verifier::rlimit(100)]
#[verifier::spinoff_prover]
pub proof fn lemma_serialize_parse_round_trip(d: MarkdownDocumentV)
    requires
        doc_wf(d),
    ensures
        sp_parse_doc(sp_serialize_doc(d)) == DocOutcome::Doc(d),
{
    let fm = d.frontmatter;
    let es = fm_entries(fm);
    lemma_known_struct(fm);
    lemma_entries_struct_concat(known_entries(fm), fm.custom_fields);
    assert(entries_struct_wf(es));
    lemma_esc_entries_wf(es);
    let ts = esc_entries(es);
    let toks = emit_entries_v(ts, 0);
    let lines = toks.map_values(|t: TokV| render_tok(t));
    let jl = sp_join_lines(lines);
    let s = sp_serialize_doc(d);
    assert(s == seq!['-', '-', '-', '\n'] + jl + seq!['\n', '-', '-', '-', '\n', '\n'] + d.content);
    lemma_emit_all_wf(ts, 0);
    assert(es.len() >= 2) by {
        assert(known_entries(fm).len() >= 2);
    }
    assert(ts.len() >= 2);
    crate::meta::lemma_emit_first(ts, 0);
    assert(toks.len() >= 1);
    assert(lines.len() >= 1);
    assert forall|k: int| 0 <= k < lines.len() implies line_clean(#[trigger] lines[k])
        && no_triple_dash(lines[k]) && lines[k].len() > 0 by {
        assert(lines[k] == render_tok(toks[k]));
        assert(toks[k].wf());
        lemma_render_line_ok(toks[k]);
    }
    lemma_join_no_delim(lines);
    lemma_join_ends(lines);
    let p: int = jl.len() as int + 5;
    assert(s.len() == jl.len() + 10 + d.content.len());
    assert(s[0] == '-' && s[1] == '-' && s[2] == '-');
    assert(starts_delim(s));
    assert(s[3] == '\n');
    assert forall|m: int| 0 <= m < jl.len() implies s[4 + m] == jl[m] by {}
    assert(s[4 + jl.len() as int] == '\n');
    assert(s[p] == '-' && s[p + 1] == '-' && s[p + 2] == '-');
    assert(s[p + 3] == '\n' && s[p + 4] == '\n');
    assert forall|m: int| 0 <= m < d.content.len() implies s[p + 5 + m] == d.content[m] by {}
    assert(has_delim_at(s, p));
    assert forall|j: int| 3 <= j < p implies !has_delim_at(s, j) by {
        if j == 3 {
            assert(s[3] == '\n');
        } else if j + 3 <= 4 + jl.len() {
            assert(s[j] == jl[j - 4] && s[j + 1] == jl[j - 3] && s[j + 2] == jl[j - 2]);
        } else {
            let q = 4 + jl.len() as int;
            assert(j <= q <= j + 2);
            assert(s[q] == '\n');
        }
    }
    lemma_find_delim_char(s, 3);
    match sp_find_delim(s, 3) {
        Some(w) => {
            if w < p {
                assert(has_delim_at(s, w as int));
            }
            if p < w {
                assert(has_delim_at(s, p));
            }
        },
        None => {
            assert(has_delim_at(s, p));
        },
    }
    assert(sp_find_delim(s, 3) == Some(p as nat));
    let meta_seg = s.subrange(3, p);
    assert(meta_seg =~= seq!['\n'] + jl + seq!['\n']);
    lemma_trim_nl_wrap(jl);
    assert(sp_trim_nl(meta_seg) == jl);
    lemma_split_join(lines);
    assert(sp_split_lines(jl) == lines);
    assert(lines_toks(lines) == Some(toks)) by {
        assert forall|k: int| 0 <= k < lines.len() implies !(sp_classify(#[trigger] lines[k])
            is None) && sp_classify(lines[k]).unwrap() == toks[k] by {
            assert(lines[k] == render_tok(toks[k]));
            assert(toks[k].wf());
            lemma_classify_render(toks[k]);
        }
        assert(lines.map_values(|l: Seq<char>| sp_classify(l).unwrap()) =~= toks);
    }
    assert(toks + Seq::<TokV>::empty() =~= toks);
    lemma_entries_inv(ts, 0, Seq::<TokV>::empty());
    assert(sp_parse_entries(toks, 0) == Some((ts, Seq::<TokV>::empty())));
    lemma_unesc_entries_inv(es);
    assert(unesc_entries(ts) == Some(es));
    lemma_fm_inv(fm);
    assert(sp_fm_of_entries(es, acc_init()) == Some(fm));
    let rest = s.skip(p + 3);
    assert(rest =~= seq!['\n', '\n'] + d.content);
    lemma_trim_ws_prefix(seq!['\n', '\n'], d.content);
    assert(sp_trim(rest) == d.content);
}


/// The identity of a content file: its path relative to the project root
/// with forward slashes, or the absolute path when it is not under the root.
pub open spec fn sp_entity_id(path: Seq<char>, root: Seq<char>) -> Seq<char> {
    if root.len() < path.len() && path.take(root.len() as int) == root && path[root.len() as int]
        == '/' {
        path.skip(root.len() as int + 1)
    } else {
        path
    }
}

/// Whether `b` is a prefix of `a`.
fn chars_prefix_eq(a: &[char], b: &[char]) -> (r: bool)
    requires
        b@.len() <= a@.len(),
    ensures
        r == (a@.take(b@.len() as int) == b@),
{
    let mut i: usize = 0;
    while i < b.len()
        invariant
            b@.len() <= a@.len(),
            i <= b@.len(),
            forall|k: int| 0 <= k < i ==> a@[k] == b@[k],
        decreases b@.len() - i,
    {
        if a[i] != b[i] {
            assert(a@.take(b@.len() as int)[i as int] != b@[i as int]);
            return false;
        }
        i = i + 1;
    }
    assert(a@.take(b@.len() as int) =~= b@);
    true
}

/// Compute a content file's identity; see `sp_entity_id`.
pub fn entity_id(path: &str, project_root: &str) -> (r: String)
    ensures
        r@ == sp_entity_id(path@, project_root@),
{
    let pc = chars_of_str(path);
    let rc = chars_of_str(project_root);
    if rc.len() < pc.len() && pc[rc.len()] == '/' && chars_prefix_eq(pc.as_slice(), rc.as_slice())
    {
        let tail = &pc[rc.len() + 1..pc.len()];
        proof {
            assert(tail@ =~= path@.skip(project_root@.len() as int + 1));
        }
        string_of_chars(tail)
    } else {
        path.to_owned()
    }
}

/// A post loaded from a file: parsed document plus provenance.
#[derive(Debug)]
pub struct Post {
    pub id: String,
    pub title: String,
    pub date: String,
    pub content: String,
    pub frontmatter: Frontmatter,
    pub file_path: String,
    pub created_at: i64,
    pub modified_at: i64,
}

/// A page: like a post, loaded from the source directory.
#[derive(Debug)]
pub struct Page {
    pub id: String,
    pub title: String,
    pub content: String,
    pub frontmatter: Frontmatter,
    pub file_path: String,
    pub created_at: i64,
    pub modified_at: i64,
}

/// A draft: like a post, loaded from the drafts directory.
#[derive(Debug)]
pub struct Draft {
    pub id: String,
    pub title: String,
    pub content: String,
    pub frontmatter: Frontmatter,
    pub file_path: String,
    pub created_at: i64,
    pub modified_at: i64,
}

/// A file in the project's image directory.
#[derive(Debug)]
pub struct ImageInfo {
    pub filename: String,
    pub path: String,
    pub full_path: String,
    pub url: String,
    pub size: u64,
    pub width: Option<u32>,
    pub height: Option<u32>,
    pub created_at: i64,
}

impl Post {
    /// Build a post from a file's raw content and its filesystem facts. The
    /// caller reads the file and its metadata; parsing, identity and the
    /// timestamp fallback chain (creation time, else modification time,
    /// else zero) are decided here. Codec errors pass through unchanged.
    pub fn from_file(
        file_path: &str,
        project_path: &str,
        raw: &str,
        created: Option<i64>,
        modified: Option<i64>,
    ) -> (r: Result<Post, Error>)
        ensures
            match sp_parse_doc(raw@) {
                DocOutcome::NotFm => r matches Err(Error::NotFrontmatter),
                DocOutcome::Malformed => r matches Err(Error::MalformedFrontmatter),
                DocOutcome::BadMeta => (r matches Err(Error::InvalidMetadata(m)) && m@
                    == "metadata does not decode"@),
                DocOutcome::Doc(d) => match r {
                    Ok(p) => p.id@ == sp_entity_id(file_path@, project_path@) && p.title@
                        == d.frontmatter.title && p.date@ == d.frontmatter.date && p.content@
                        == d.content && p.frontmatter@ == d.frontmatter && p.file_path@
                        == file_path@ && p.created_at == (match created {
                        Some(c) => c,
                        None => match modified {
                            Some(m) => m,
                            None => 0i64,
                        },
                    }) && p.modified_at == (match modified {
                        Some(m) => m,
                        None => 0i64,
                    }),
                    Err(_) => false,
                },
            },
    {
        match MarkdownDocument::parse(raw) {
            Err(e) => Err(e),
            Ok(doc) => {
                let id = entity_id(file_path, project_path);
                let title = doc.frontmatter.title.clone();
                let date = doc.frontmatter.date.clone();
                let MarkdownDocument { frontmatter, content } = doc;
                let created_at = match created {
                    Some(c) => c,
                    None => match modified {
                        Some(m) => m,
                        None => 0,
                    },
                };
                let modified_at = match modified {
                    Some(m) => m,
                    None => 0,
                };
                Ok(
                    Post {
                        id,
                        title,
                        date,
                        content,
                        frontmatter,
                        file_path: file_path.to_owned(),
                        created_at,
                        modified_at,
                    },
                )
            },
        }
    }

    /// Serialize this post's frontmatter and content back to document text.
    pub fn to_markdown(&self) -> (r: Result<String, Error>)
        ensures
            match r {
                Ok(s) => fm_encodable(self.frontmatter@) && s@ == sp_serialize_doc(
                    MarkdownDocumentV { frontmatter: self.frontmatter@, content: self.content@ },
                ),
                Err(e) => !fm_encodable(self.frontmatter@) && (e
                    matches Error::InvalidMetadata(m) && m@ == "unencodable custom metadata"@),
            },
    {
        serialize_parts(&self.frontmatter, self.content.as_str())
    }
}

impl Page {
    /// Serialize this page's frontmatter and content back to document text.
    pub fn to_markdown(&self) -> (r: Result<String, Error>)
        ensures
            match r {
                Ok(s) => fm_encodable(self.frontmatter@) && s@ == sp_serialize_doc(
                    MarkdownDocumentV { frontmatter: self.frontmatter@, content: self.content@ },
                ),
                Err(e) => !fm_encodable(self.frontmatter@) && (e
                    matches Error::InvalidMetadata(m) && m@ == "unencodable custom metadata"@),
            },
    {
        serialize_parts(&self.frontmatter, self.content.as_str())
    }
}

impl Draft {
    /// Serialize this draft's frontmatter and content back to document text.
    pub fn to_markdown(&self) -> (r: Result<String, Error>)
        ensures
            match r {
                Ok(s) => fm_encodable(self.frontmatter@) && s@ == sp_serialize_doc(
                    MarkdownDocumentV { frontmatter: self.frontmatter@, content: self.content@ },
                ),
                Err(e) => !fm_encodable(self.frontmatter@) && (e
                    matches Error::InvalidMetadata(m) && m@ == "unencodable custom metadata"@),
            },
    {
        serialize_parts(&self.frontmatter, self.content.as_str())
    }
}

} // verus!
