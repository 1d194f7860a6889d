//! The metadata block of a document: an ordered list of keyed values in a
//! line-oriented, indentation-based block format. A value is a scalar, a
//! block sequence of scalar items, or a nested mapping; unrecognized keys of
//! a document's frontmatter round-trip through this form losslessly.

use vstd::prelude::*;

use crate::text::{line_clean, no_triple_dash, copy_chars, string_of_chars, chars_of_str};

verus! {

/// A metadata value: scalar text, a block sequence of scalar items, or a
/// nested mapping whose insertion order is kept.
#[derive(Debug)]
pub enum Value {
    Scalar(String),
    Items(Vec<String>),
    Mapping(Vec<(String, Value)>),
}

/// The mathematical shape of a `Value`: the same tree over character
/// sequences.
pub ghost enum ValueV {
    Scalar(Seq<char>),
    Items(Seq<Seq<char>>),
    Mapping(Seq<(Seq<char>, ValueV)>),
}

/// The view of a `Value`.
pub open spec fn value_view(v: Value) -> ValueV
    decreases v,
{
    match v {
        Value::Scalar(s) => ValueV::Scalar(s@),
        Value::Items(items) => ValueV::Items(items.deep_view()),
        Value::Mapping(entries) => ValueV::Mapping(entries_view(entries@)),
    }
}

/// The view of a mapping's entry list.
pub open spec fn entries_view(es: Seq<(String, Value)>) -> Seq<(Seq<char>, ValueV)>
    decreases es,
{
    if es.len() == 0 {
        Seq::empty()
    } else {
        seq![(es[0].0@, value_view(es[0].1))] + entries_view(es.drop_first())
    }
}

impl View for Value {
    type V = ValueV;

    open spec fn view(&self) -> ValueV {
        value_view(*self)
    }
}

/// A valid metadata key: nonempty, no leading space, and free of newlines,
/// colons and dashes, so a rendered line reads back unambiguously.
pub open spec fn key_ok(k: Seq<char>) -> bool {
    k.len() > 0 && k[0] != ' ' && forall|i: int|
        0 <= i < k.len() ==> (#[trigger] k[i]) != '\n' && k[i] != ':' && k[i] != '-'
}

/// A valid scalar: newline-free and without a three-dash run that the
/// document-level delimiter search would trip over.
pub open spec fn val_ok(v: Seq<char>) -> bool {
    line_clean(v) && no_triple_dash(v)
}

/// Structural well-formedness of a value: valid scalars throughout, and no
/// empty block sequence or mapping (an empty block has no written form).
pub open spec fn value_wf(v: ValueV) -> bool
    decreases v,
{
    match v {
        ValueV::Scalar(s) => val_ok(s),
        ValueV::Items(items) => items.len() > 0 && forall|i: int|
            0 <= i < items.len() ==> val_ok(#[trigger] items[i]),
        ValueV::Mapping(es) => es.len() > 0 && entries_wf_v(es),
    }
}

/// Well-formedness of an entry list.
pub open spec fn entries_wf_v(es: Seq<(Seq<char>, ValueV)>) -> bool
    decreases es,
{
    if es.len() == 0 {
        true
    } else {
        key_ok(es[0].0) && value_wf(es[0].1) && entries_wf_v(es.drop_first())
    }
}

/// Nesting height of a value: mappings nest, everything else is flat.
pub open spec fn value_height(v: ValueV) -> nat
    decreases v,
{
    match v {
        ValueV::Scalar(_) => 0,
        ValueV::Items(_) => 0,
        ValueV::Mapping(es) => 1 + entries_height(es),
    }
}

/// Greatest value height in an entry list.
pub open spec fn entries_height(es: Seq<(Seq<char>, ValueV)>) -> nat
    decreases es,
{
    if es.len() == 0 {
        0
    } else {
        let h0 = value_height(es[0].1);
        let hr = entries_height(es.drop_first());
        if h0 > hr {
            h0
        } else {
            hr
        }
    }
}

/// One classified line of the metadata block.
pub ghost enum TokV {
    KeyOnly { indent: nat, key: Seq<char> },
    KeyVal { indent: nat, key: Seq<char>, val: Seq<char> },
    Item { indent: nat, val: Seq<char> },
}

impl TokV {
    pub open spec fn indent(self) -> nat {
        match self {
            TokV::KeyOnly { indent, .. } => indent,
            TokV::KeyVal { indent, .. } => indent,
            TokV::Item { indent, .. } => indent,
        }
    }

    pub open spec fn key(self) -> Seq<char> {
        match self {
            TokV::KeyOnly { key, .. } => key,
            TokV::KeyVal { key, .. } => key,
            TokV::Item { .. } => Seq::empty(),
        }
    }

    pub open spec fn val(self) -> Seq<char> {
        match self {
            TokV::KeyVal { val, .. } => val,
            TokV::Item { val, .. } => val,
            TokV::KeyOnly { .. } => Seq::empty(),
        }
    }

    pub open spec fn is_item(self) -> bool {
        self matches TokV::Item { .. }
    }

    pub open spec fn is_keyval(self) -> bool {
        self matches TokV::KeyVal { .. }
    }

    pub open spec fn is_key(self) -> bool {
        self matches TokV::KeyOnly { .. } || self matches TokV::KeyVal { .. }
    }

    pub open spec fn wf(self) -> bool {
        match self {
            TokV::KeyOnly { key, .. } => key_ok(key),
            TokV::KeyVal { key, val, .. } => key_ok(key) && val_ok(val),
            TokV::Item { val, .. } => val_ok(val),
        }
    }
}

/// The token lines of one keyed value at the given indent.
pub open spec fn emit_value(key: Seq<char>, v: ValueV, ind: nat) -> Seq<TokV>
    decreases v,
{
    match v {
        ValueV::Scalar(s) => seq![TokV::KeyVal { indent: ind, key: key, val: s }],
        ValueV::Items(items) => seq![TokV::KeyOnly { indent: ind, key: key }] + items.map_values(
            |s: Seq<char>| TokV::Item { indent: (ind + 2) as nat, val: s },
        ),
        ValueV::Mapping(es) => seq![TokV::KeyOnly { indent: ind, key: key }] + emit_entries_v(
            es,
            (ind + 2) as nat,
        ),
    }
}

/// The token lines of an entry list at the given indent.
pub open spec fn emit_entries_v(es: Seq<(Seq<char>, ValueV)>, ind: nat) -> Seq<TokV>
    decreases es,
{
    if es.len() == 0 {
        Seq::empty()
    } else {
        emit_value(es[0].0, es[0].1, ind) + emit_entries_v(es.drop_first(), ind)
    }
}

/// Consume the leading run of items of the given indent.
pub open spec fn sp_parse_items(toks: Seq<TokV>, ind: nat) -> (Seq<Seq<char>>, Seq<TokV>)
    decreases toks.len(),
{
    if toks.len() > 0 && toks[0].is_item() && toks[0].indent() == ind {
        let r = sp_parse_items(toks.drop_first(), ind);
        (seq![toks[0].val()] + r.0, r.1)
    } else {
        (Seq::empty(), toks)
    }
}

/// Parse the entries of one indent level, returning them with the tokens
/// that follow the level. `None` is a malformed block; a token that merely
/// ends the level (wrong indent, or an item) is left for the caller.
pub open spec fn sp_parse_entries(toks: Seq<TokV>, ind: nat) -> Option<
    (Seq<(Seq<char>, ValueV)>, Seq<TokV>),
>
    decreases toks.len(),
{
    if toks.len() == 0 {
        Some((Seq::empty(), toks))
    } else if !(toks[0].is_key() && toks[0].indent() == ind) {
        Some((Seq::empty(), toks))
    } else if toks[0].is_keyval() {
        match sp_parse_entries(toks.drop_first(), ind) {
            None => None,
            Some(r) => Some((seq![(toks[0].key(), ValueV::Scalar(toks[0].val()))] + r.0, r.1)),
        }
    } else {
        let tail = toks.drop_first();
        if tail.len() > 0 && tail[0].is_item() && tail[0].indent() == ind + 2 {
            let ir = sp_parse_items(tail, (ind + 2) as nat);
            if ir.1.len() < toks.len() {
                match sp_parse_entries(ir.1, ind) {
                    None => None,
                    Some(r) => Some(
                        (seq![(toks[0].key(), ValueV::Items(ir.0))] + r.0, r.1),
                    ),
                }
            } else {
                None
            }
        } else if tail.len() > 0 && tail[0].is_key() && tail[0].indent() == ind + 2 {
            match sp_parse_entries(tail, (ind + 2) as nat) {
                None => None,
                Some(sr) => if sr.0.len() == 0 || sr.1.len() >= toks.len() {
                    None
                } else {
                    match sp_parse_entries(sr.1, ind) {
                        None => None,
                        Some(r) => Some(
                            (seq![(toks[0].key(), ValueV::Mapping(sr.0))] + r.0, r.1),
                        ),
                    }
                },
            }
        } else {
            None
        }
    }
}

/// What must hold of the tokens after a run of items for the run to end
/// exactly there.
pub open spec fn suffix_ok_items(suffix: Seq<TokV>, ind: nat) -> bool {
    suffix.len() == 0 || !(suffix[0].is_item() && suffix[0].indent() == ind)
}

/// What must hold of the tokens after a level for parsing to stop exactly
/// there: nothing, or a key line of a strictly shallower indent.
pub open spec fn suffix_ok(suffix: Seq<TokV>, ind: nat) -> bool {
    suffix.len() == 0 || (suffix[0].is_key() && suffix[0].indent() < ind)
}

/// A nonempty entry list emits at least one token, and the first one is a
/// key line of the level's indent.
pub proof fn lemma_emit_first(es: Seq<(Seq<char>, ValueV)>, ind: nat)
    requires
        es.len() > 0,
    ensures
        emit_entries_v(es, ind).len() >= 1,
        emit_entries_v(es, ind)[0].is_key(),
        emit_entries_v(es, ind)[0].indent() == ind,
{
    let e = emit_value(es[0].0, es[0].1, ind);
    assert(e.len() >= 1 && e[0].is_key() && e[0].indent() == ind) by {
        match es[0].1 {
            ValueV::Scalar(_) => {},
            ValueV::Items(_) => {},
            ValueV::Mapping(_) => {},
        }
    }
    assert(emit_entries_v(es, ind)[0] == e[0]);
}

/// A run of item tokens followed by a non-item parses back to exactly the
/// run's payloads, leaving the rest untouched.
pub proof fn lemma_items_inv(items: Seq<Seq<char>>, ind: nat, suffix: Seq<TokV>)
    requires
        suffix_ok_items(suffix, ind),
    ensures
        sp_parse_items(
            items.map_values(|s: Seq<char>| TokV::Item { indent: ind, val: s }) + suffix,
            ind,
        ) == (items, suffix),
    decreases items.len(),
{
    let mapped = items.map_values(|s: Seq<char>| TokV::Item { indent: ind, val: s });
    let toks = mapped + suffix;
    if items.len() == 0 {
        assert(toks =~= suffix);
        if suffix.len() > 0 {
            assert(!(toks[0].is_item() && toks[0].indent() == ind));
        }
        assert(sp_parse_items(toks, ind).0 =~= items);
    } else {
        assert(toks[0] == mapped[0]);
        assert(toks[0] == TokV::Item { indent: ind, val: items[0] });
        lemma_items_inv(items.drop_first(), ind, suffix);
        assert(toks.drop_first() =~= items.drop_first().map_values(
            |s: Seq<char>| TokV::Item { indent: ind, val: s },
        ) + suffix);
        let r = sp_parse_items(toks.drop_first(), ind);
        assert(r == (items.drop_first(), suffix));
        assert(seq![toks[0].val()] + items.drop_first() =~= items);
    }
}

/// The inversion at the token level: parsing what a well-formed entry list
/// emits gives the list back and stops exactly at the suffix.
pub proof fn lemma_entries_inv(es: Seq<(Seq<char>, ValueV)>, ind: nat, suffix: Seq<TokV>)
    requires
        entries_wf_v(es),
        suffix_ok(suffix, ind),
    ensures
        sp_parse_entries(emit_entries_v(es, ind) + suffix, ind) == Some((es, suffix)),
    decreases es,
{
    let toks = emit_entries_v(es, ind) + suffix;
    if es.len() == 0 {
        assert(toks =~= suffix);
        if suffix.len() > 0 {
            assert(!(toks[0].is_key() && toks[0].indent() == ind));
        }
        assert(es =~= Seq::<(Seq<char>, ValueV)>::empty());
        assert(sp_parse_entries(toks, ind) == Some((Seq::<(Seq<char>, ValueV)>::empty(), toks)));
    } else {
        let e0 = es[0];
        let rest = es.drop_first();
        let etoks = emit_value(e0.0, e0.1, ind);
        let rtoks = emit_entries_v(rest, ind);
        let suffix2 = rtoks + suffix;
        assert(key_ok(e0.0) && value_wf(e0.1) && entries_wf_v(rest));
        assert(emit_entries_v(es, ind) == etoks + rtoks);
        assert(toks =~= etoks + suffix2);
        assert(suffix_ok(suffix2, ind + 2)) by {
            if rest.len() > 0 {
                lemma_emit_first(rest, ind);
                assert(suffix2[0] == rtoks[0]);
            } else {
                assert(suffix2 =~= suffix);
            }
        }
        match e0.1 {
            ValueV::Scalar(s) => {
                assert(etoks == seq![TokV::KeyVal { indent: ind, key: e0.0, val: s }]);
                assert(toks[0] == TokV::KeyVal { indent: ind, key: e0.0, val: s });
                assert(toks.drop_first() =~= suffix2);
                lemma_entries_inv(rest, ind, suffix);
                assert(sp_parse_entries(toks.drop_first(), ind) == Some((rest, suffix)));
                assert(toks[0].key() == e0.0 && toks[0].val() == s);
                assert(seq![(e0.0, ValueV::Scalar(s))] + rest =~= es);
            },
            ValueV::Items(items) => {
                assert(items.len() > 0);
                let mapped = items.map_values(
                    |t: Seq<char>| TokV::Item { indent: (ind + 2) as nat, val: t },
                );
                assert(etoks == seq![TokV::KeyOnly { indent: ind, key: e0.0 }] + mapped);
                assert(toks[0] == TokV::KeyOnly { indent: ind, key: e0.0 });
                let tail = toks.drop_first();
                assert(tail =~= mapped + suffix2);
                assert(tail[0] == mapped[0]);
                assert(tail[0] == TokV::Item { indent: (ind + 2) as nat, val: items[0] });
                assert(suffix_ok_items(suffix2, (ind + 2) as nat)) by {
                    if rest.len() > 0 {
                        lemma_emit_first(rest, ind);
                        assert(suffix2[0] == rtoks[0]);
                    } else {
                        assert(suffix2 =~= suffix);
                    }
                }
                lemma_items_inv(items, (ind + 2) as nat, suffix2);
                assert(sp_parse_items(tail, (ind + 2) as nat) == (items, suffix2));
                assert(suffix2.len() < toks.len());
                lemma_entries_inv(rest, ind, suffix);
                assert(sp_parse_entries(suffix2, ind) == Some((rest, suffix)));
                assert(toks[0].key() == e0.0);
                assert(seq![(e0.0, ValueV::Items(items))] + rest =~= es);
            },
            ValueV::Mapping(sub) => {
                assert(sub.len() > 0 && entries_wf_v(sub));
                let stoks = emit_entries_v(sub, (ind + 2) as nat);
                assert(etoks == seq![TokV::KeyOnly { indent: ind, key: e0.0 }] + stoks);
                assert(toks[0] == TokV::KeyOnly { indent: ind, key: e0.0 });
                let tail = toks.drop_first();
                assert(tail =~= stoks + suffix2);
                lemma_emit_first(sub, (ind + 2) as nat);
                assert(tail[0] == stoks[0]);
                assert(tail[0].is_key() && tail[0].indent() == ind + 2);
                assert(!tail[0].is_item());
                lemma_entries_inv(sub, (ind + 2) as nat, suffix2);
                assert(sp_parse_entries(tail, (ind + 2) as nat) == Some((sub, suffix2)));
                assert(suffix2.len() < toks.len());
                lemma_entries_inv(rest, ind, suffix);
                assert(sp_parse_entries(suffix2, ind) == Some((rest, suffix)));
                assert(toks[0].key() == e0.0);
                assert(seq![(e0.0, ValueV::Mapping(sub))] + rest =~= es);
            },
        }
    }
}

/// `n` spaces.
pub open spec fn sp_spaces(n: nat) -> Seq<char>
    decreases n,
{
    if n == 0 {
        Seq::empty()
    } else {
        seq![' '] + sp_spaces((n - 1) as nat)
    }
}

/// The written form of one token line.
pub open spec fn render_tok(t: TokV) -> Seq<char> {
    match t {
        TokV::KeyOnly { indent, key } => sp_spaces(indent) + key + seq![':'],
        TokV::KeyVal { indent, key, val } => sp_spaces(indent) + key + seq![':', ' '] + val,
        TokV::Item { indent, val } => sp_spaces(indent) + seq!['-', ' '] + val,
    }
}

/// Length of the leading run of spaces.
pub open spec fn sp_lead_spaces(l: Seq<char>) -> nat
    decreases l.len(),
{
    if l.len() > 0 && l[0] == ' ' {
        1 + sp_lead_spaces(l.drop_first())
    } else {
        0
    }
}

/// Position of the first colon, if any.
pub open spec fn sp_find_colon(l: Seq<char>) -> Option<nat>
    decreases l.len(),
{
    if l.len() == 0 {
        None
    } else if l[0] == ':' {
        Some(0)
    } else {
        match sp_find_colon(l.drop_first()) {
            None => None,
            Some(j) => Some(j + 1),
        }
    }
}

/// Read one line back into a token; `None` is a malformed line.
pub open spec fn sp_classify(l: Seq<char>) -> Option<TokV> {
    let ind = sp_lead_spaces(l);
    let rest = l.skip(ind as int);
    if rest.len() == 0 {
        None
    } else if rest[0] == '-' {
        if rest.len() >= 2 && rest[1] == ' ' {
            Some(TokV::Item { indent: ind, val: rest.skip(2) })
        } else {
            None
        }
    } else {
        match sp_find_colon(rest) {
            None => None,
            Some(j) => if j == 0 {
                None
            } else if j + 1 == rest.len() {
                Some(TokV::KeyOnly { indent: ind, key: rest.take(j as int) })
            } else if rest[j as int + 1] == ' ' {
                Some(
                    TokV::KeyVal {
                        indent: ind,
                        key: rest.take(j as int),
                        val: rest.skip(j as int + 2),
                    },
                )
            } else {
                None
            },
        }
    }
}

/// Facts about a run of spaces.
pub proof fn lemma_spaces(n: nat)
    ensures
        sp_spaces(n).len() == n,
        forall|i: int| 0 <= i < n ==> sp_spaces(n)[i] == ' ',
    decreases n,
{
    if n > 0 {
        lemma_spaces((n - 1) as nat);
    }
}

/// Leading spaces of a padded text whose remainder starts with a non-space.
pub proof fn lemma_lead_spaces(n: nat, rest: Seq<char>)
    requires
        rest.len() > 0,
        rest[0] != ' ',
    ensures
        sp_lead_spaces(sp_spaces(n) + rest) == n,
        (sp_spaces(n) + rest).skip(n as int) == rest,
    decreases n,
{
    let s = sp_spaces(n) + rest;
    lemma_spaces(n);
    if n == 0 {
        assert(s =~= rest);
    } else {
        lemma_lead_spaces((n - 1) as nat, rest);
        assert(s[0] == ' ');
        assert(s.drop_first() =~= sp_spaces((n - 1) as nat) + rest);
        assert(s.skip(n as int) =~= rest);
    }
}

/// First colon of a colon-free key with a colon right behind it.
pub proof fn lemma_find_colon(key: Seq<char>, rest: Seq<char>)
    requires
        forall|i: int| 0 <= i < key.len() ==> (#[trigger] key[i]) != ':',
        rest.len() > 0,
        rest[0] == ':',
    ensures
        sp_find_colon(key + rest) == Some(key.len() as nat),
    decreases key.len(),
{
    let s = key + rest;
    if key.len() == 0 {
        assert(s =~= rest);
    } else {
        assert(s[0] == key[0]);
        lemma_find_colon(key.drop_first(), rest);
        assert(s.drop_first() =~= key.drop_first() + rest);
    }
}

/// Reading a rendered well-formed token back yields the token.
pub proof fn lemma_classify_render(t: TokV)
    requires
        t.wf(),
    ensures
        sp_classify(render_tok(t)) == Some(t),
{
    match t {
        TokV::Item { indent, val } => {
            let rest0 = seq!['-', ' '] + val;
            let l = render_tok(t);
            assert(l =~= sp_spaces(indent) + rest0);
            lemma_lead_spaces(indent, rest0);
            assert(rest0[0] == '-' && rest0[1] == ' ');
            assert(rest0.skip(2) =~= val);
        },
        TokV::KeyOnly { indent, key } => {
            let rest0 = key + seq![':'];
            let l = render_tok(t);
            assert(l =~= sp_spaces(indent) + rest0);
            assert(rest0[0] == key[0]);
            lemma_lead_spaces(indent, rest0);
            lemma_find_colon(key, seq![':']);
            assert(sp_find_colon(rest0) == Some(key.len() as nat));
            assert(rest0.take(key.len() as int) =~= key);
        },
        TokV::KeyVal { indent, key, val } => {
            let rest0 = key + seq![':', ' '] + val;
            let l = render_tok(t);
            assert(l =~= sp_spaces(indent) + rest0);
            assert(rest0[0] == key[0]);
            lemma_lead_spaces(indent, rest0);
            assert(rest0 =~= key + (seq![':', ' '] + val));
            lemma_find_colon(key, seq![':', ' '] + val);
            assert(sp_find_colon(rest0) == Some(key.len() as nat));
            assert(rest0[key.len() as int + 1] == ' ');
            assert(key.len() + 1 < rest0.len());
            assert(rest0.take(key.len() as int) =~= key);
            assert(rest0.skip(key.len() as int + 2) =~= val);
        },
    }
}

/// A rendered well-formed token is a clean line: nonempty, newline-free and
/// without a delimiter run.
pub proof fn lemma_render_line_ok(t: TokV)
    requires
        t.wf(),
    ensures
        render_tok(t).len() > 0,
        line_clean(render_tok(t)),
        no_triple_dash(render_tok(t)),
    decreases t,
{
    let l = render_tok(t);
    lemma_spaces(t.indent());
    match t {
        TokV::Item { indent, val } => {
            assert(l =~= sp_spaces(indent) + seq!['-', ' '] + val);
            assert forall|i: int| 0 <= i < l.len() implies l[i] != '\n' by {
                if i >= indent + 2 {
                    assert(l[i] == val[i - indent - 2]);
                }
            }
            assert forall|j: int|
                0 <= j && j + 3 <= l.len() implies !(#[trigger] l[j] == '-' && l[j + 1] == '-'
                && l[j + 2] == '-') by {
                if j >= indent + 2 {
                    assert(l[j] == val[j - indent - 2]);
                    assert(l[j + 1] == val[j + 1 - indent - 2]);
                    assert(l[j + 2] == val[j + 2 - indent - 2]);
                } else if j == indent + 1 || j == indent {
                    assert(l[indent as int + 1] == ' ');
                } else {
                    assert(l[j] == ' ');
                }
            }
        },
        TokV::KeyOnly { indent, key } => {
            assert(l =~= sp_spaces(indent) + key + seq![':']);
            assert forall|i: int| 0 <= i < l.len() implies l[i] != '\n' by {
                if indent <= i < indent + key.len() {
                    assert(l[i] == key[i - indent]);
                }
            }
            assert forall|j: int|
                0 <= j && j + 3 <= l.len() implies !(#[trigger] l[j] == '-' && l[j + 1] == '-'
                && l[j + 2] == '-') by {
                if j < indent {
                    assert(l[j] == ' ');
                } else {
                    assert(l[j] == key[j - indent]);
                    assert(key[j - indent] != '-');
                }
            }
        },
        TokV::KeyVal { indent, key, val } => {
            assert(l =~= sp_spaces(indent) + key + seq![':', ' '] + val);
            assert forall|i: int| 0 <= i < l.len() implies l[i] != '\n' by {
                if indent <= i < indent + key.len() {
                    assert(l[i] == key[i - indent]);
                } else if i >= indent + key.len() + 2 {
                    assert(l[i] == val[i - indent - key.len() - 2]);
                }
            }
            assert forall|j: int|
                0 <= j && j + 3 <= l.len() implies !(#[trigger] l[j] == '-' && l[j + 1] == '-'
                && l[j + 2] == '-') by {
                if j < indent {
                    assert(l[j] == ' ');
                } else if j < indent + key.len() {
                    assert(l[j] == key[j - indent]);
                } else if j == indent + key.len() {
                    assert(l[j] == ':');
                } else if j == indent + key.len() + 1 {
                    assert(l[j] == ' ');
                } else {
                    assert(l[j] == val[j - indent - key.len() - 2]);
                    assert(l[j + 1] == val[j + 1 - indent - key.len() - 2]);
                    assert(l[j + 2] == val[j + 2 - indent - key.len() - 2]);
                }
            }
        },
    }
}

/// One classified line, executable form; fields hold characters.
#[derive(Debug)]
pub enum Tok {
    KeyOnly { indent: usize, key: Vec<char> },
    KeyVal { indent: usize, key: Vec<char>, val: Vec<char> },
    Item { indent: usize, val: Vec<char> },
}

impl View for Tok {
    type V = TokV;

    open spec fn view(&self) -> TokV {
        match self {
            Tok::KeyOnly { indent, key } => TokV::KeyOnly { indent: *indent as nat, key: key@ },
            Tok::KeyVal { indent, key, val } => TokV::KeyVal {
                indent: *indent as nat,
                key: key@,
                val: val@,
            },
            Tok::Item { indent, val } => TokV::Item { indent: *indent as nat, val: val@ },
        }
    }
}

/// The views of a token list.
pub open spec fn toks_view(s: Seq<Tok>) -> Seq<TokV> {
    s.map_values(|t: Tok| t@)
}

impl Tok {
    /// The token's indent.
    pub(crate) fn get_indent(&self) -> (r: usize)
        ensures
            r as nat == self@.indent(),
    {
        match self {
            Tok::KeyOnly { indent, .. } => *indent,
            Tok::KeyVal { indent, .. } => *indent,
            Tok::Item { indent, .. } => *indent,
        }
    }

    /// Whether this is an item line.
    pub(crate) fn is_item_line(&self) -> (r: bool)
        ensures
            r == self@.is_item(),
    {
        match self {
            Tok::Item { .. } => true,
            _ => false,
        }
    }

    /// Whether this is a key line (with or without an inline scalar).
    pub(crate) fn is_key_line(&self) -> (r: bool)
        ensures
            r == self@.is_key(),
    {
        match self {
            Tok::Item { .. } => false,
            _ => true,
        }
    }
}

/// Whether `v` is a valid scalar, decided in executable code.
pub(crate) fn scan_val_ok(v: &[char]) -> (b: bool)
    ensures
        b == val_ok(v@),
{
    let n = v.len();
    let mut i: usize = 0;
    while i < n
        invariant
            n == v@.len(),
            i <= n,
            forall|j: int| 0 <= j < i ==> (#[trigger] v@[j]) != '\n',
        decreases n - i,
    {
        if v[i] == '\n' {
            return false;
        }
        i = i + 1;
    }
    if n < 3 {
        return true;
    }
    let mut j: usize = 0;
    while j <= n - 3
        invariant
            n >= 3,
            n == v@.len(),
            forall|i2: int| 0 <= i2 < n ==> (#[trigger] v@[i2]) != '\n',
            j <= n - 2,
            forall|k: int|
                0 <= k < j && k + 3 <= n ==> !(#[trigger] v@[k] == '-' && v@[k + 1] == '-'
                    && v@[k + 2] == '-'),
        decreases n - j,
    {
        if v[j] == '-' && v[j + 1] == '-' && v[j + 2] == '-' {
            return false;
        }
        j = j + 1;
    }
    true
}

/// Whether `k` is a valid key, decided in executable code.
pub(crate) fn scan_key_ok(k: &[char]) -> (b: bool)
    ensures
        b == key_ok(k@),
{
    if k.len() == 0 {
        return false;
    }
    if k[0] == ' ' {
        return false;
    }
    let n = k.len();
    let mut i: usize = 0;
    while i < n
        invariant
            n == k@.len(),
            i <= n,
            forall|j: int|
                0 <= j < i ==> (#[trigger] k@[j]) != '\n' && k@[j] != ':' && k@[j] != '-',
        decreases n - i,
    {
        if k[i] == '\n' || k[i] == ':' || k[i] == '-' {
            return false;
        }
        i = i + 1;
    }
    true
}

/// `entries_view` of a nonempty list is the head's view followed by the
/// tail's.
pub proof fn lemma_entries_view_parts(es: Seq<(String, Value)>)
    requires
        es.len() > 0,
    ensures
        entries_view(es) == seq![(es[0].0@, value_view(es[0].1))] + entries_view(es.drop_first()),
        entries_view(es).len() == es.len(),
    decreases es,
{
    lemma_entries_view_len(es);
}

/// `entries_view` keeps the length.
pub proof fn lemma_entries_view_len(es: Seq<(String, Value)>)
    ensures
        entries_view(es).len() == es.len(),
        forall|i: int|
            0 <= i < es.len() ==> #[trigger] entries_view(es)[i] == (
                es[i].0@,
                value_view(es[i].1),
            ),
    decreases es,
{
    if es.len() > 0 {
        lemma_entries_view_len(es.drop_first());
    }
}


/// Token lines of one keyed value, executable form of `emit_value`.
pub(crate) fn emit_value_x(key: &Vec<char>, v: &Value, ind: usize) -> (r: Vec<Tok>)
    requires
        ind + 2 * value_height(v@) + 2 <= usize::MAX,
    ensures
        toks_view(r@) == emit_value(key@, v@, ind as nat),
    decreases *v,
{
    match v {
        Value::Scalar(s) => {
            let sc = chars_of_str(s.as_str());
            let mut k2: Vec<char> = Vec::new();
            copy_chars(&mut k2, key.as_slice());
            let mut r: Vec<Tok> = Vec::new();
            r.push(Tok::KeyVal { indent: ind, key: k2, val: sc });
            assert(toks_view(r@) =~= emit_value(key@, v@, ind as nat));
            r
        },
        Value::Items(items) => {
            let ghost iv = items.deep_view();
            let mut k2: Vec<char> = Vec::new();
            copy_chars(&mut k2, key.as_slice());
            let mut r: Vec<Tok> = Vec::new();
            r.push(Tok::KeyOnly { indent: ind, key: k2 });
            let mut i: usize = 0;
            while i < items.len()
                invariant
                    v@ == ValueV::Items(iv),
                    iv == items.deep_view(),
                    iv.len() == items@.len(),
                    i <= items@.len(),
                    ind + 2 <= usize::MAX,
                    r@.len() == i + 1,
                    r@[0]@ == (TokV::KeyOnly { indent: ind as nat, key: key@ }),
                    forall|k: int|
                        0 <= k < i ==> (#[trigger] r@[k + 1])@ == (TokV::Item {
                            indent: (ind + 2) as nat,
                            val: iv[k],
                        }),
                decreases items@.len() - i,
            {
                let vc = chars_of_str(items[i].as_str());
                assert(vc@ == iv[i as int]);
                r.push(Tok::Item { indent: ind + 2, val: vc });
                i = i + 1;
            }
            proof {
                let mapped = iv.map_values(
                    |t: Seq<char>| TokV::Item { indent: (ind + 2) as nat, val: t },
                );
                let target = seq![TokV::KeyOnly { indent: ind as nat, key: key@ }] + mapped;
                assert forall|k: int| 0 <= k < r@.len() implies toks_view(r@)[k] == target[k] by {
                    if k >= 1 {
                        assert(r@[(k - 1) + 1]@ == (TokV::Item {
                            indent: (ind + 2) as nat,
                            val: iv[k - 1],
                        }));
                    }
                }
                assert(toks_view(r@) =~= target);
            }
            r
        },
        Value::Mapping(entries) => {
            let mut k2: Vec<char> = Vec::new();
            copy_chars(&mut k2, key.as_slice());
            let mut r: Vec<Tok> = Vec::new();
            r.push(Tok::KeyOnly { indent: ind, key: k2 });
            proof {
                assert(value_height(v@) == 1 + entries_height(entries_view(entries@)));
            }
            let mut sub = emit_entries_x(entries.as_slice(), ind + 2);
            r.append(&mut sub);
            assert(toks_view(r@) =~= emit_value(key@, v@, ind as nat));
            r
        },
    }
}

/// Token lines of an entry list, executable form of `emit_entries_v`.
pub(crate) fn emit_entries_x(es: &[(String, Value)], ind: usize) -> (r: Vec<Tok>)
    requires
        ind + 2 * entries_height(entries_view(es@)) + 2 <= usize::MAX,
    ensures
        toks_view(r@) == emit_entries_v(entries_view(es@), ind as nat),
    decreases es@,
{
    if es.len() == 0 {
        let r: Vec<Tok> = Vec::new();
        assert(toks_view(r@) =~= emit_entries_v(entries_view(es@), ind as nat));
        r
    } else {
        let e = &es[0];
        let kc = chars_of_str(e.0.as_str());
        proof {
            lemma_entries_view_parts(es@);
            assert(entries_view(es@)[0] == (es@[0].0@, value_view(es@[0].1)));
            assert(value_height(entries_view(es@)[0].1) <= entries_height(entries_view(es@)));
        }
        let mut r = emit_value_x(&kc, &e.1, ind);
        let rest = &es[1..es.len()];
        proof {
            assert(rest@ =~= es@.drop_first());
            assert(entries_view(es@).drop_first() =~= entries_view(rest@));
            assert(entries_height(entries_view(rest@)) <= entries_height(entries_view(es@)));
        }
        let mut r2 = emit_entries_x(rest, ind);
        r.append(&mut r2);
        assert(toks_view(r@) =~= emit_entries_v(entries_view(es@), ind as nat));
        r
    }
}

/// Executable form of `sp_parse_items`.
pub fn parse_items_x<'a>(toks: &'a [Tok], ind: usize) -> (r: (Vec<String>, &'a [Tok]))
    ensures
        r.0.deep_view() == sp_parse_items(toks_view(toks@), ind as nat).0,
        toks_view(r.1@) == sp_parse_items(toks_view(toks@), ind as nat).1,
    decreases toks@.len(),
{
    let ghost tv = toks_view(toks@);
    if toks.len() > 0 && toks[0].is_item_line() && toks[0].get_indent() == ind {
        assert(tv[0] == toks@[0]@);
        let val = match &toks[0] {
            Tok::Item { val, .. } => string_of_chars(val.as_slice()),
            _ => String::new(),
        };
        assert(val@ == tv[0].val());
        let tail = &toks[1..toks.len()];
        proof {
            assert(toks_view(tail@) =~= tv.drop_first());
        }
        let (mut items, rest) = parse_items_x(tail, ind);
        items.insert(0, val);
        assert(items.deep_view() =~= sp_parse_items(tv, ind as nat).0);
        (items, rest)
    } else {
        let items: Vec<String> = Vec::new();
        if toks.len() > 0 {
            assert(tv[0] == toks@[0]@);
        }
        assert(items.deep_view() =~= sp_parse_items(tv, ind as nat).0);
        (items, toks)
    }
}

/// Executable form of `sp_parse_entries`. `Err` is a malformed block.
pub fn parse_entries_x<'a>(toks: &'a [Tok], ind: usize) -> (r: Result<
    (Vec<(String, Value)>, &'a [Tok]),
    (),
>)
    ensures
        match sp_parse_entries(toks_view(toks@), ind as nat) {
            None => r is Err,
            Some(p) => match r {
                Ok(q) => entries_view(q.0@) == p.0 && toks_view(q.1@) == p.1,
                Err(_) => false,
            },
        },
    decreases toks@.len(),
{
    let ghost tv = toks_view(toks@);
    if toks.len() == 0 {
        let es: Vec<(String, Value)> = Vec::new();
        assert(entries_view(es@) =~= Seq::<(Seq<char>, ValueV)>::empty());
        return Ok((es, toks));
    }
    assert(tv[0] == toks@[0]@);
    if !(toks[0].is_key_line() && toks[0].get_indent() == ind) {
        let es: Vec<(String, Value)> = Vec::new();
        assert(entries_view(es@) =~= Seq::<(Seq<char>, ValueV)>::empty());
        return Ok((es, toks));
    }
    let key = match &toks[0] {
        Tok::KeyOnly { key, .. } => string_of_chars(key.as_slice()),
        Tok::KeyVal { key, .. } => string_of_chars(key.as_slice()),
        Tok::Item { .. } => String::new(),
    };
    assert(key@ == tv[0].key());
    let tail = &toks[1..toks.len()];
    proof {
        assert(toks_view(tail@) =~= tv.drop_first());
    }
    match &toks[0] {
        Tok::KeyVal { val, .. } => {
            let sval = string_of_chars(val.as_slice());
            assert(sval@ == tv[0].val());
            match parse_entries_x(tail, ind) {
                Ok(p) => {
                    let (mut es, rest) = p;
                    let ghost es0 = es@;
                    es.insert(0, (key, Value::Scalar(sval)));
                    proof {
                        assert(es@.drop_first() =~= es0);
                        lemma_entries_view_parts(es@);
                        assert(entries_view(es@) =~= sp_parse_entries(tv, ind as nat).unwrap().0);
                    }
                    Ok((es, rest))
                },
                Err(()) => Err(()),
            }
        },
        Tok::KeyOnly { .. } => {
            if tail.len() > 0 && tail[0].is_item_line() && tail[0].get_indent() >= 2 && tail[0].get_indent() - 2 == ind {
                assert(toks_view(tail@)[0] == tail@[0]@);
                let deeper = tail[0].get_indent();
                let (items, rest1) = parse_items_x(tail, deeper);
                if rest1.len() < toks.len() {
                    match parse_entries_x(rest1, ind) {
                        Ok(p) => {
                            let (mut es, rest) = p;
                            let ghost es0 = es@;
                            es.insert(0, (key, Value::Items(items)));
                            proof {
                                assert(es@.drop_first() =~= es0);
                                lemma_entries_view_parts(es@);
                                assert(entries_view(es@) =~= sp_parse_entries(tv, ind as nat).unwrap().0);
                            }
                            Ok((es, rest))
                        },
                        Err(()) => Err(()),
                    }
                } else {
                    Err(())
                }
            } else if tail.len() > 0 && tail[0].is_key_line() && tail[0].get_indent() >= 2 && tail[0].get_indent() - 2 == ind {
                assert(toks_view(tail@)[0] == tail@[0]@);
                let deeper = tail[0].get_indent();
                match parse_entries_x(tail, deeper) {
                    Ok(p1) => {
                        let (sub, rest1) = p1;
                        proof {
                            lemma_entries_view_len(sub@);
                        }
                        if sub.len() == 0 || rest1.len() >= toks.len() {
                            Err(())
                        } else {
                            match parse_entries_x(rest1, ind) {
                                Ok(p) => {
                                    let (mut es, rest) = p;
                                    let ghost es0 = es@;
                                    es.insert(0, (key, Value::Mapping(sub)));
                                    proof {
                                        assert(es@.drop_first() =~= es0);
                                        lemma_entries_view_parts(es@);
                                        assert(entries_view(es@) =~= sp_parse_entries(tv, ind as nat).unwrap().0);
                                    }
                                    Ok((es, rest))
                                },
                                Err(()) => Err(()),
                            }
                        }
                    },
                    Err(()) => Err(()),
                }
            } else {
                if tail.len() > 0 {
                    assert(toks_view(tail@)[0] == tail@[0]@);
                }
                Err(())
            }
        },
        Tok::Item { .. } => Err(()),
    }
}


/// Where the leading spaces end: the characterization of `sp_lead_spaces`.
pub proof fn lemma_lead_spaces_char(l: Seq<char>)
    ensures
        sp_lead_spaces(l) <= l.len(),
        forall|k: int| 0 <= k < sp_lead_spaces(l) ==> l[k] == ' ',
        sp_lead_spaces(l) < l.len() ==> l[sp_lead_spaces(l) as int] != ' ',
    decreases l.len(),
{
    if l.len() > 0 && l[0] == ' ' {
        lemma_lead_spaces_char(l.drop_first());
        let d = l.drop_first();
        assert forall|k: int| 0 <= k < sp_lead_spaces(l) implies l[k] == ' ' by {
            if k >= 1 {
                assert(d[k - 1] == ' ');
            }
        }
    }
}

/// The first colon, characterized.
pub proof fn lemma_find_colon_char(l: Seq<char>)
    ensures
        match sp_find_colon(l) {
            Some(j) => j < l.len() && l[j as int] == ':' && forall|k: int|
                0 <= k < j ==> l[k] != ':',
            None => forall|k: int| 0 <= k < l.len() ==> l[k] != ':',
        },
    decreases l.len(),
{
    if l.len() == 0 {
    } else if l[0] == ':' {
    } else {
        lemma_find_colon_char(l.drop_first());
        let d = l.drop_first();
        match sp_find_colon(d) {
            Some(j) => {
                assert forall|k: int| 0 <= k < j + 1 implies l[k] != ':' by {
                    if k >= 1 {
                        assert(d[k - 1] != ':');
                    }
                }
            },
            None => {
                assert forall|k: int| 0 <= k < l.len() implies l[k] != ':' by {
                    if k >= 1 {
                        assert(d[k - 1] != ':');
                    }
                }
            },
        }
    }
}

/// Count the leading spaces, executable.
pub(crate) fn lead_spaces_x(l: &[char]) -> (r: usize)
    ensures
        r as nat == sp_lead_spaces(l@),
        r <= l@.len(),
{
    let n = l.len();
    let mut i: usize = 0;
    while i < n && l[i] == ' '
        invariant
            n == l@.len(),
            i <= n,
            forall|k: int| 0 <= k < i ==> l@[k] == ' ',
        decreases n - i,
    {
        i = i + 1;
    }
    proof {
        lemma_lead_spaces_char(l@);
        let m = sp_lead_spaces(l@);
        if m < i {
            assert(l@[m as int] == ' ');
        }
        if i < m {
            assert(l@[i as int] == ' ');
        }
    }
    i
}

/// Find the first colon, executable.
pub(crate) fn find_colon_x(l: &[char]) -> (r: Option<usize>)
    ensures
        match r {
            Some(j) => sp_find_colon(l@) == Some(j as nat) && j < l@.len(),
            None => sp_find_colon(l@) is None,
        },
{
    let n = l.len();
    let mut i: usize = 0;
    while i < n
        invariant
            n == l@.len(),
            i <= n,
            forall|k: int| 0 <= k < i ==> l@[k] != ':',
        decreases n - i,
    {
        if l[i] == ':' {
            proof {
                lemma_find_colon_char(l@);
                match sp_find_colon(l@) {
                    Some(j) => {
                        if j < i {
                            assert(l@[j as int] == ':');
                        }
                        if i < j {
                            assert(l@[i as int] != ':');
                        }
                    },
                    None => {
                        assert(l@[i as int] != ':');
                    },
                }
            }
            return Some(i);
        }
        i = i + 1;
    }
    proof {
        lemma_find_colon_char(l@);
        match sp_find_colon(l@) {
            Some(j) => {
                assert(l@[j as int] == ':');
            },
            None => {},
        }
    }
    None
}

/// Classify one line, executable form of `sp_classify`.
pub(crate) fn classify_x(l: &[char]) -> (r: Option<Tok>)
    ensures
        match sp_classify(l@) {
            None => r is None,
            Some(tv) => match r {
                Some(t) => t@ == tv,
                None => false,
            },
        },
{
    let ind = lead_spaces_x(l);
    let rest = &l[ind..l.len()];
    proof {
        assert(rest@ =~= l@.skip(ind as int));
    }
    if rest.len() == 0 {
        return None;
    }
    if rest[0] == '-' {
        if rest.len() >= 2 && rest[1] == ' ' {
            let mut val: Vec<char> = Vec::new();
            copy_chars(&mut val, &rest[2..rest.len()]);
            assert(val@ =~= l@.skip(ind as int).skip(2));
            return Some(Tok::Item { indent: ind, val });
        }
        return None;
    }
    match find_colon_x(rest) {
        None => None,
        Some(j) => {
            if j == 0 {
                return None;
            }
            if j + 1 == rest.len() {
                let mut key: Vec<char> = Vec::new();
                copy_chars(&mut key, &rest[0..j]);
                assert(key@ =~= l@.skip(ind as int).take(j as int));
                return Some(Tok::KeyOnly { indent: ind, key });
            }
            if rest[j + 1] == ' ' {
                let mut key: Vec<char> = Vec::new();
                copy_chars(&mut key, &rest[0..j]);
                assert(key@ =~= l@.skip(ind as int).take(j as int));
                let mut val: Vec<char> = Vec::new();
                copy_chars(&mut val, &rest[j + 2..rest.len()]);
                assert(val@ =~= l@.skip(ind as int).skip(j as int + 2));
                return Some(Tok::KeyVal { indent: ind, key, val });
            }
            None
        },
    }
}

/// A run of spaces, executable.
pub(crate) fn spaces_vec(n: usize) -> (r: Vec<char>)
    ensures
        r@ == sp_spaces(n as nat),
{
    let mut r: Vec<char> = Vec::new();
    let mut i: usize = 0;
    while i < n
        invariant
            i <= n,
            r@.len() == i,
            forall|k: int| 0 <= k < i ==> r@[k] == ' ',
        decreases n - i,
    {
        r.push(' ');
        i = i + 1;
    }
    proof {
        lemma_spaces(n as nat);
        assert(r@ =~= sp_spaces(n as nat));
    }
    r
}

/// Write one token back out as a line, executable form of `render_tok`.
pub(crate) fn render_tok_x(t: &Tok) -> (r: Vec<char>)
    ensures
        r@ == render_tok(t@),
{
    match t {
        Tok::KeyOnly { indent, key } => {
            let mut r = spaces_vec(*indent);
            copy_chars(&mut r, key.as_slice());
            r.push(':');
            assert(r@ =~= render_tok(t@));
            r
        },
        Tok::KeyVal { indent, key, val } => {
            let mut r = spaces_vec(*indent);
            copy_chars(&mut r, key.as_slice());
            r.push(':');
            r.push(' ');
            copy_chars(&mut r, val.as_slice());
            assert(r@ =~= render_tok(t@));
            r
        },
        Tok::Item { indent, val } => {
            let mut r = spaces_vec(*indent);
            r.push('-');
            r.push(' ');
            copy_chars(&mut r, val.as_slice());
            assert(r@ =~= render_tok(t@));
            r
        },
    }
}


/// A scalar that can stand as written on its line: newline-free, no
/// delimiter run, and not opening with a quote (which marks the escaped
/// form).
pub open spec fn val_plain(s: Seq<char>) -> bool {
    val_ok(s) && (s.len() == 0 || s[0] != '"')
}

/// A key that can stand as written: a valid plain key not opening with a
/// quote.
pub open spec fn key_plain(k: Seq<char>) -> bool {
    key_ok(k) && k[0] != '"'
}

/// The escaped spelling of arbitrary text: backslash pairs for the
/// characters the line format reserves. The output holds no newline, colon,
/// dash or quote at all.
pub open spec fn escape_chars(s: Seq<char>) -> Seq<char>
    decreases s.len(),
{
    if s.len() == 0 {
        Seq::empty()
    } else {
        let c = s[0];
        let e = if c == '\\' {
            seq!['\\', '\\']
        } else if c == '"' {
            seq!['\\', 'q']
        } else if c == '\n' {
            seq!['\\', 'n']
        } else if c == ':' {
            seq!['\\', 'c']
        } else if c == '-' {
            seq!['\\', 'd']
        } else {
            seq![c]
        };
        e + escape_chars(s.drop_first())
    }
}

/// The quoted form: escaped text between quotes.
pub open spec fn sp_quote(s: Seq<char>) -> Seq<char> {
    seq!['"'] + escape_chars(s) + seq!['"']
}

/// How a scalar is written: as it is when plain, quoted otherwise.
pub open spec fn esc_val(s: Seq<char>) -> Seq<char> {
    if val_plain(s) {
        s
    } else {
        sp_quote(s)
    }
}

/// How a key is written: as it is when plain, quoted otherwise.
pub open spec fn esc_key(k: Seq<char>) -> Seq<char> {
    if key_plain(k) {
        k
    } else {
        sp_quote(k)
    }
}

/// Decode an escaped spelling; `None` on a dangling or unknown escape.
pub open spec fn unesc_chars(s: Seq<char>) -> Option<Seq<char>>
    decreases s.len(),
{
    if s.len() == 0 {
        Some(Seq::empty())
    } else if s[0] == '\\' {
        if s.len() < 2 {
            None
        } else {
            let d = s[1];
            let c = if d == '\\' {
                Some('\\')
            } else if d == 'q' {
                Some('"')
            } else if d == 'n' {
                Some('\n')
            } else if d == 'c' {
                Some(':')
            } else if d == 'd' {
                Some('-')
            } else {
                None
            };
            match (c, unesc_chars(s.skip(2))) {
                (Some(c0), Some(rest)) => Some(seq![c0] + rest),
                _ => None,
            }
        }
    } else {
        match unesc_chars(s.drop_first()) {
            Some(rest) => Some(seq![s[0]] + rest),
            None => None,
        }
    }
}

/// Read a written scalar or key back: a leading quote marks the escaped
/// form, anything else stands for itself.
pub open spec fn sp_unesc(t: Seq<char>) -> Option<Seq<char>> {
    if t.len() == 0 || t[0] != '"' {
        Some(t)
    } else if t.len() < 2 || t[t.len() - 1] != '"' {
        None
    } else {
        unesc_chars(t.subrange(1, t.len() - 1))
    }
}

/// A value with every scalar and key in its written spelling.
pub open spec fn esc_value(v: ValueV) -> ValueV
    decreases v,
{
    match v {
        ValueV::Scalar(s) => ValueV::Scalar(esc_val(s)),
        ValueV::Items(items) => ValueV::Items(items.map_values(|s: Seq<char>| esc_val(s))),
        ValueV::Mapping(es) => ValueV::Mapping(esc_entries(es)),
    }
}

/// An entry list with every scalar and key in its written spelling.
pub open spec fn esc_entries(es: Seq<(Seq<char>, ValueV)>) -> Seq<(Seq<char>, ValueV)>
    decreases es,
{
    if es.len() == 0 {
        Seq::empty()
    } else {
        seq![(esc_key(es[0].0), esc_value(es[0].1))] + esc_entries(es.drop_first())
    }
}

/// Decode the written spellings of a run of items.
pub open spec fn unesc_items(items: Seq<Seq<char>>) -> Option<Seq<Seq<char>>>
    decreases items.len(),
{
    if items.len() == 0 {
        Some(Seq::empty())
    } else {
        match (sp_unesc(items[0]), unesc_items(items.drop_first())) {
            (Some(u), Some(rest)) => Some(seq![u] + rest),
            _ => None,
        }
    }
}

/// Decode the written spellings throughout a value.
pub open spec fn unesc_value(v: ValueV) -> Option<ValueV>
    decreases v,
{
    match v {
        ValueV::Scalar(s) => match sp_unesc(s) {
            Some(u) => Some(ValueV::Scalar(u)),
            None => None,
        },
        ValueV::Items(items) => match unesc_items(items) {
            Some(u) => Some(ValueV::Items(u)),
            None => None,
        },
        ValueV::Mapping(es) => match unesc_entries(es) {
            Some(u) => Some(ValueV::Mapping(u)),
            None => None,
        },
    }
}

/// Decode the written spellings throughout an entry list.
pub open spec fn unesc_entries(es: Seq<(Seq<char>, ValueV)>) -> Option<Seq<(Seq<char>, ValueV)>>
    decreases es,
{
    if es.len() == 0 {
        Some(Seq::empty())
    } else {
        match (sp_unesc(es[0].0), unesc_value(es[0].1), unesc_entries(es.drop_first())) {
            (Some(k), Some(v), Some(rest)) => Some(seq![(k, v)] + rest),
            _ => None,
        }
    }
}

/// Structural well-formedness alone: no empty block sequence or mapping.
/// Text content is unconstrained; the written spelling handles it.
pub open spec fn value_struct_wf(v: ValueV) -> bool
    decreases v,
{
    match v {
        ValueV::Scalar(_) => true,
        ValueV::Items(items) => items.len() > 0,
        ValueV::Mapping(es) => es.len() > 0 && entries_struct_wf(es),
    }
}

/// Structural well-formedness of an entry list.
pub open spec fn entries_struct_wf(es: Seq<(Seq<char>, ValueV)>) -> bool
    decreases es,
{
    if es.len() == 0 {
        true
    } else {
        value_struct_wf(es[0].1) && entries_struct_wf(es.drop_first())
    }
}

/// The escaped spelling holds none of the reserved characters.
pub proof fn lemma_escape_tame(s: Seq<char>)
    ensures
        forall|i: int|
            0 <= i < escape_chars(s).len() ==> (#[trigger] escape_chars(s)[i]) != '\n'
                && escape_chars(s)[i] != ':' && escape_chars(s)[i] != '-' && escape_chars(s)[i]
                != '"',
    decreases s.len(),
{
    if s.len() > 0 {
        lemma_escape_tame(s.drop_first());
        let t = escape_chars(s);
        let c = s[0];
        let e: Seq<char> = if c == '\\' {
            seq!['\\', '\\']
        } else if c == '"' {
            seq!['\\', 'q']
        } else if c == '\n' {
            seq!['\\', 'n']
        } else if c == ':' {
            seq!['\\', 'c']
        } else if c == '-' {
            seq!['\\', 'd']
        } else {
            seq![c]
        };
        let rest = escape_chars(s.drop_first());
        assert(t == e + rest);
        assert forall|i: int|
            0 <= i < t.len() implies (#[trigger] t[i]) != '\n' && t[i] != ':' && t[i] != '-'
            && t[i] != '"' by {
            if i >= e.len() {
                assert(t[i] == rest[i - e.len()]);
            } else {
                assert(t[i] == e[i]);
            }
        }
    }
}

/// A written scalar is always a valid line payload.
pub proof fn lemma_esc_val_ok(s: Seq<char>)
    ensures
        val_ok(esc_val(s)),
{
    if !val_plain(s) {
        lemma_escape_tame(s);
        let q = sp_quote(s);
        assert forall|i: int| 0 <= i < q.len() implies q[i] != '\n' by {
            if 1 <= i < q.len() - 1 {
                assert(q[i] == escape_chars(s)[i - 1]);
            }
        }
        assert forall|j: int|
            0 <= j && j + 3 <= q.len() implies !(#[trigger] q[j] == '-' && q[j + 1] == '-' && q[j
            + 2] == '-') by {
            if 1 <= j + 1 < q.len() - 1 {
                assert(q[j + 1] == escape_chars(s)[j]);
            }
        }
    }
}

/// A written key is always a valid plain-format key.
pub proof fn lemma_esc_key_ok(k: Seq<char>)
    ensures
        key_ok(esc_key(k)),
{
    if !key_plain(k) {
        lemma_escape_tame(k);
        let q = sp_quote(k);
        assert(q[0] == '"');
        assert(q.len() >= 2);
        assert forall|i: int|
            0 <= i < q.len() implies (#[trigger] q[i]) != '\n' && q[i] != ':' && q[i] != '-' by {
            if 1 <= i < q.len() - 1 {
                assert(q[i] == escape_chars(k)[i - 1]);
            }
        }
    }
}

/// Decoding inverts escaping, character by character.
pub proof fn lemma_unesc_chars_inv(s: Seq<char>)
    ensures
        unesc_chars(escape_chars(s)) == Some(s),
    decreases s.len(),
{
    if s.len() == 0 {
    } else {
        lemma_unesc_chars_inv(s.drop_first());
        let c = s[0];
        let t = escape_chars(s);
        let rest = escape_chars(s.drop_first());
        if c == '\\' || c == '"' || c == '\n' || c == ':' || c == '-' {
            assert(t[0] == '\\');
            assert(t.len() >= 2);
            assert(t.skip(2) =~= rest);
            assert(seq![c] + s.drop_first() =~= s);
        } else {
            assert(t[0] == c);
            assert(t[0] != '\\');
            assert(t.drop_first() =~= rest);
            assert(seq![c] + s.drop_first() =~= s);
        }
    }
}

/// Reading a written scalar back yields the scalar.
pub proof fn lemma_unesc_val(s: Seq<char>)
    ensures
        sp_unesc(esc_val(s)) == Some(s),
{
    if val_plain(s) {
    } else {
        lemma_escape_tame(s);
        lemma_unesc_chars_inv(s);
        let q = sp_quote(s);
        assert(q[0] == '"');
        assert(q[q.len() - 1] == '"');
        assert(q.subrange(1, q.len() - 1) =~= escape_chars(s));
    }
}

/// Reading a written key back yields the key.
pub proof fn lemma_unesc_key(k: Seq<char>)
    ensures
        sp_unesc(esc_key(k)) == Some(k),
{
    if key_plain(k) {
        assert(k[0] != '"');
    } else {
        lemma_escape_tame(k);
        lemma_unesc_chars_inv(k);
        let q = sp_quote(k);
        assert(q[0] == '"');
        assert(q[q.len() - 1] == '"');
        assert(q.subrange(1, q.len() - 1) =~= escape_chars(k));
    }
}

/// Escaping a structurally sound value yields a fully well-formed one of
/// the same height.
pub proof fn lemma_esc_value_wf(v: ValueV)
    requires
        value_struct_wf(v),
    ensures
        value_wf(esc_value(v)),
        value_height(esc_value(v)) == value_height(v),
    decreases v,
{
    match v {
        ValueV::Scalar(s) => {
            lemma_esc_val_ok(s);
        },
        ValueV::Items(items) => {
            let m = items.map_values(|s: Seq<char>| esc_val(s));
            assert forall|i: int| 0 <= i < m.len() implies val_ok(#[trigger] m[i]) by {
                lemma_esc_val_ok(items[i]);
            }
        },
        ValueV::Mapping(es) => {
            lemma_esc_entries_wf(es);
        },
    }
}

/// Escaping a structurally sound entry list yields a fully well-formed one
/// of the same height.
pub proof fn lemma_esc_entries_wf(es: Seq<(Seq<char>, ValueV)>)
    requires
        entries_struct_wf(es),
    ensures
        entries_wf_v(esc_entries(es)),
        entries_height(esc_entries(es)) == entries_height(es),
        esc_entries(es).len() == es.len(),
    decreases es,
{
    if es.len() == 0 {
    } else {
        lemma_esc_key_ok(es[0].0);
        lemma_esc_value_wf(es[0].1);
        lemma_esc_entries_wf(es.drop_first());
        let r = esc_entries(es);
        assert(r[0] == (esc_key(es[0].0), esc_value(es[0].1)));
        assert(r.drop_first() =~= esc_entries(es.drop_first()));
    }
}

/// Decoding inverts escaping on a value.
pub proof fn lemma_unesc_value_inv(v: ValueV)
    ensures
        unesc_value(esc_value(v)) == Some(v),
    decreases v,
{
    match v {
        ValueV::Scalar(s) => {
            lemma_unesc_val(s);
        },
        ValueV::Items(items) => {
            lemma_unesc_items_inv(items);
        },
        ValueV::Mapping(es) => {
            lemma_unesc_entries_inv(es);
        },
    }
}

/// Decoding inverts escaping on a run of items.
pub proof fn lemma_unesc_items_inv(items: Seq<Seq<char>>)
    ensures
        unesc_items(items.map_values(|s: Seq<char>| esc_val(s))) == Some(items),
    decreases items.len(),
{
    let m = items.map_values(|s: Seq<char>| esc_val(s));
    if items.len() == 0 {
        assert(m.len() == 0);
    } else {
        lemma_unesc_val(items[0]);
        lemma_unesc_items_inv(items.drop_first());
        assert(m[0] == esc_val(items[0]));
        assert(m.drop_first() =~= items.drop_first().map_values(|s: Seq<char>| esc_val(s)));
        assert(seq![items[0]] + items.drop_first() =~= items);
    }
}

/// Decoding inverts escaping on an entry list.
pub proof fn lemma_unesc_entries_inv(es: Seq<(Seq<char>, ValueV)>)
    ensures
        unesc_entries(esc_entries(es)) == Some(es),
    decreases es,
{
    if es.len() == 0 {
    } else {
        lemma_unesc_key(es[0].0);
        lemma_unesc_value_inv(es[0].1);
        lemma_unesc_entries_inv(es.drop_first());
        let r = esc_entries(es);
        assert(r[0] == (esc_key(es[0].0), esc_value(es[0].1)));
        assert(r.drop_first() =~= esc_entries(es.drop_first()));
        assert(seq![(es[0].0, es[0].1)] + es.drop_first() =~= es);
    }
}

/// Escaping distributes over concatenation of entry lists.
pub proof fn lemma_esc_entries_concat(a: Seq<(Seq<char>, ValueV)>, b: Seq<(Seq<char>, ValueV)>)
    ensures
        esc_entries(a + b) == esc_entries(a) + esc_entries(b),
    decreases a.len(),
{
    if a.len() == 0 {
        assert(a + b =~= b);
        assert(esc_entries(a) + esc_entries(b) =~= esc_entries(b));
    } else {
        lemma_esc_entries_concat(a.drop_first(), b);
        assert((a + b)[0] == a[0]);
        assert((a + b).drop_first() =~= a.drop_first() + b);
        assert(esc_entries(a + b) =~= esc_entries(a) + esc_entries(b));
    }
}

/// Structural well-formedness distributes over concatenation.
pub proof fn lemma_entries_struct_concat(a: Seq<(Seq<char>, ValueV)>, b: Seq<(Seq<char>, ValueV)>)
    ensures
        entries_struct_wf(a + b) == (entries_struct_wf(a) && entries_struct_wf(b)),
    decreases a.len(),
{
    if a.len() == 0 {
        assert(a + b =~= b);
    } else {
        lemma_entries_struct_concat(a.drop_first(), b);
        assert((a + b).drop_first() =~= a.drop_first() + b);
        assert((a + b)[0] == a[0]);
    }
}


/// Whether a scalar may stand as written, executable.
pub(crate) fn plain_val_x(s: &[char]) -> (b: bool)
    ensures
        b == val_plain(s@),
{
    scan_val_ok(s) && (s.len() == 0 || s[0] != '"')
}

/// Whether a key may stand as written, executable.
pub(crate) fn plain_key_x(k: &[char]) -> (b: bool)
    ensures
        b == key_plain(k@),
{
    scan_key_ok(k) && k[0] != '"'
}

/// The escaped spelling, executable.
pub(crate) fn escape_chars_x(s: &[char]) -> (r: Vec<char>)
    ensures
        r@ == escape_chars(s@),
    decreases s@.len(),
{
    if s.len() == 0 {
        Vec::new()
    } else {
        let c = s[0];
        let mut r: Vec<char> = Vec::new();
        if c == '\\' {
            r.push('\\');
            r.push('\\');
        } else if c == '"' {
            r.push('\\');
            r.push('q');
        } else if c == '\n' {
            r.push('\\');
            r.push('n');
        } else if c == ':' {
            r.push('\\');
            r.push('c');
        } else if c == '-' {
            r.push('\\');
            r.push('d');
        } else {
            r.push(c);
        }
        let mut rest = escape_chars_x(&s[1..s.len()]);
        proof {
            assert(s@.subrange(1, s@.len() as int) =~= s@.drop_first());
        }
        r.append(&mut rest);
        assert(r@ =~= escape_chars(s@));
        r
    }
}

/// A scalar's written spelling, executable.
pub(crate) fn esc_val_x(s: &String) -> (r: String)
    ensures
        r@ == esc_val(s@),
{
    let cs = chars_of_str(s.as_str());
    if plain_val_x(cs.as_slice()) {
        s.clone()
    } else {
        let mut q: Vec<char> = Vec::new();
        q.push('"');
        let mut e = escape_chars_x(cs.as_slice());
        q.append(&mut e);
        q.push('"');
        assert(q@ =~= sp_quote(s@));
        string_of_chars(q.as_slice())
    }
}

/// A key's written spelling, executable.
pub(crate) fn esc_key_x(k: &String) -> (r: String)
    ensures
        r@ == esc_key(k@),
{
    let cs = chars_of_str(k.as_str());
    if plain_key_x(cs.as_slice()) {
        k.clone()
    } else {
        let mut q: Vec<char> = Vec::new();
        q.push('"');
        let mut e = escape_chars_x(cs.as_slice());
        q.append(&mut e);
        q.push('"');
        assert(q@ =~= sp_quote(k@));
        string_of_chars(q.as_slice())
    }
}

/// A value with written spellings throughout, executable.
pub(crate) fn esc_value_x(v: &Value) -> (r: Value)
    ensures
        r@ == esc_value(v@),
    decreases *v,
{
    match v {
        Value::Scalar(s) => Value::Scalar(esc_val_x(s)),
        Value::Items(items) => {
            let ghost iv = items.deep_view();
            let mut r: Vec<String> = Vec::new();
            let mut i: usize = 0;
            while i < items.len()
                invariant
                    v@ == ValueV::Items(iv),
                    iv == items.deep_view(),
                    iv.len() == items@.len(),
                    i <= items@.len(),
                    r@.len() == i,
                    forall|k: int| 0 <= k < i ==> (#[trigger] r@[k])@ == esc_val(iv[k]),
                decreases items@.len() - i,
            {
                let e = esc_val_x(&items[i]);
                assert(e@ == esc_val(iv[i as int]));
                r.push(e);
                i = i + 1;
            }
            assert(r.deep_view() =~= iv.map_values(|s: Seq<char>| esc_val(s)));
            Value::Items(r)
        },
        Value::Mapping(entries) => {
            let sub = escape_entries_x(entries.as_slice());
            Value::Mapping(sub)
        },
    }
}

/// An entry list with written spellings throughout, executable.
pub(crate) fn escape_entries_x(es: &[(String, Value)]) -> (r: Vec<(String, Value)>)
    ensures
        entries_view(r@) == esc_entries(entries_view(es@)),
    decreases es@,
{
    if es.len() == 0 {
        let r: Vec<(String, Value)> = Vec::new();
        assert(entries_view(r@) =~= esc_entries(entries_view(es@)));
        r
    } else {
        let e = &es[0];
        proof {
            lemma_entries_view_parts(es@);
        }
        let k2 = esc_key_x(&e.0);
        let v2 = esc_value_x(&e.1);
        let rest = &es[1..es.len()];
        proof {
            assert(rest@ =~= es@.drop_first());
            assert(entries_view(es@).drop_first() =~= entries_view(rest@));
        }
        let mut r = escape_entries_x(rest);
        let ghost prev = r@;
        r.insert(0, (k2, v2));
        proof {
            assert(r@ =~= seq![(k2, v2)] + prev);
            lemma_entries_view_parts(r@);
            assert(r@.drop_first() =~= prev);
            assert(entries_view(r@) =~= esc_entries(entries_view(es@)));
        }
        r
    }
}

/// Decode an escaped spelling, executable.
pub(crate) fn unesc_chars_x(s: &[char]) -> (r: Result<Vec<char>, ()>)
    ensures
        match unesc_chars(s@) {
            Some(u) => match r {
                Ok(v) => v@ == u,
                Err(_) => false,
            },
            None => r is Err,
        },
    decreases s@.len(),
{
    if s.len() == 0 {
        Ok(Vec::new())
    } else if s[0] == '\\' {
        if s.len() < 2 {
            return Err(());
        }
        let d = s[1];
        let c: char = if d == '\\' {
            '\\'
        } else if d == 'q' {
            '"'
        } else if d == 'n' {
            '\n'
        } else if d == 'c' {
            ':'
        } else if d == 'd' {
            '-'
        } else {
            return Err(());
        };
        let tail = &s[2..s.len()];
        proof {
            assert(tail@ =~= s@.skip(2));
        }
        match unesc_chars_x(tail) {
            Ok(mut rest) => {
                rest.insert(0, c);
                assert(rest@ =~= seq![c] + unesc_chars(s@.skip(2)).unwrap());
                Ok(rest)
            },
            Err(()) => Err(()),
        }
    } else {
        let tail = &s[1..s.len()];
        proof {
            assert(tail@ =~= s@.drop_first());
        }
        match unesc_chars_x(tail) {
            Ok(mut rest) => {
                rest.insert(0, s[0]);
                assert(rest@ =~= seq![s@[0]] + unesc_chars(s@.drop_first()).unwrap());
                Ok(rest)
            },
            Err(()) => Err(()),
        }
    }
}

/// Read a written scalar or key back, executable.
pub(crate) fn unesc_x(t: &String) -> (r: Result<String, ()>)
    ensures
        match sp_unesc(t@) {
            Some(u) => match r {
                Ok(v) => v@ == u,
                Err(_) => false,
            },
            None => r is Err,
        },
{
    let cs = chars_of_str(t.as_str());
    if cs.len() == 0 || cs[0] != '"' {
        return Ok(t.clone());
    }
    if cs.len() < 2 || cs[cs.len() - 1] != '"' {
        return Err(());
    }
    let mid = &cs[1..cs.len() - 1];
    proof {
        assert(mid@ =~= t@.subrange(1, t@.len() - 1));
    }
    match unesc_chars_x(mid) {
        Ok(u) => Ok(string_of_chars(u.as_slice())),
        Err(()) => Err(()),
    }
}

/// Decode the written spellings throughout a value, executable.
pub(crate) fn unesc_value_x(v: Value) -> (r: Result<Value, ()>)
    ensures
        match unesc_value(v@) {
            Some(u) => match r {
                Ok(w) => w@ == u,
                Err(_) => false,
            },
            None => r is Err,
        },
    decreases v,
{
    match v {
        Value::Scalar(s) => match unesc_x(&s) {
            Ok(u) => Ok(Value::Scalar(u)),
            Err(()) => Err(()),
        },
        Value::Items(items) => {
            let ghost iv = items.deep_view();
            let mut r: Vec<String> = Vec::new();
            let mut i: usize = 0;
            while i < items.len()
                invariant
                    v@ == ValueV::Items(iv),
                    iv == items.deep_view(),
                    iv.len() == items@.len(),
                    i <= items@.len(),
                    r@.len() == i,
                    forall|k: int|
                        0 <= k < i ==> sp_unesc(#[trigger] iv[k]) is Some && r@[k]@ == sp_unesc(
                            iv[k],
                        ).unwrap(),
                decreases items@.len() - i,
            {
                match unesc_x(&items[i]) {
                    Ok(u) => {
                        proof {
                            assert(iv[i as int] == items@[i as int]@);
                        }
                        r.push(u);
                    },
                    Err(()) => {
                        proof {
                            assert(iv[i as int] == items@[i as int]@);
                            lemma_unesc_items_prefix_none(iv, i as int);
                        }
                        return Err(());
                    },
                }
                i = i + 1;
            }
            proof {
                assert(r.deep_view().len() == iv.len());
                assert forall|k: int| 0 <= k < iv.len() implies sp_unesc(#[trigger] iv[k]) is Some
                    && r.deep_view()[k] == sp_unesc(iv[k]).unwrap() by {
                    assert(r.deep_view()[k] == r@[k]@);
                }
                lemma_unesc_items_all(iv, r.deep_view());
            }
            Ok(Value::Items(r))
        },
        Value::Mapping(entries) => match unescape_entries_x(entries) {
            Ok(u) => Ok(Value::Mapping(u)),
            Err(()) => Err(()),
        },
    }
}

/// A failing item makes the whole run fail.
proof fn lemma_unesc_items_prefix_none(items: Seq<Seq<char>>, i: int)
    requires
        0 <= i < items.len(),
        sp_unesc(items[i]) is None,
    ensures
        unesc_items(items) is None,
    decreases items.len(),
{
    if i > 0 {
        lemma_unesc_items_prefix_none(items.drop_first(), i - 1);
    }
}

/// When every item decodes, the run decodes to exactly those items.
proof fn lemma_unesc_items_all(items: Seq<Seq<char>>, out: Seq<Seq<char>>)
    requires
        out.len() == items.len(),
        forall|k: int|
            0 <= k < items.len() ==> sp_unesc(#[trigger] items[k]) is Some && out[k] == sp_unesc(
                items[k],
            ).unwrap(),
    ensures
        unesc_items(items) == Some(out),
    decreases items.len(),
{
    if items.len() > 0 {
        lemma_unesc_items_all(items.drop_first(), out.drop_first());
        assert(seq![out[0]] + out.drop_first() =~= out);
    }
}

/// Decode the written spellings throughout an entry list, executable.
pub(crate) fn unescape_entries_x(es: Vec<(String, Value)>) -> (r: Result<Vec<(String, Value)>, ()>)
    ensures
        match unesc_entries(entries_view(es@)) {
            Some(u) => match r {
                Ok(w) => entries_view(w@) == u,
                Err(_) => false,
            },
            None => r is Err,
        },
    decreases es@,
{
    let ghost orig = es@;
    let ghost ev = entries_view(es@);
    proof {
        lemma_entries_view_len(es@);
    }
    if es.len() == 0 {
        let r: Vec<(String, Value)> = Vec::new();
        assert(entries_view(r@) =~= Seq::<(Seq<char>, ValueV)>::empty());
        return Ok(r);
    }
    let mut es2 = es;
    let (k, v) = es2.remove(0);
    proof {
        assert(es2@ =~= orig.drop_first());
        assert(entries_view(es2@) =~= ev.drop_first());
        assert(ev[0] == (k@, v@));
    }
    let ku = match unesc_x(&k) {
        Ok(u) => u,
        Err(()) => {
            return Err(());
        },
    };
    let vu = match unesc_value_x(v) {
        Ok(u) => u,
        Err(()) => {
            return Err(());
        },
    };
    match unescape_entries_x(es2) {
        Ok(rest) => {
            let mut rest = rest;
            let ghost prev = rest@;
            rest.insert(0, (ku, vu));
            proof {
                assert(rest@ =~= seq![(ku, vu)] + prev);
                lemma_entries_view_parts(rest@);
                assert(rest@.drop_first() =~= prev);
                assert(entries_view(rest@) =~= unesc_entries(ev).unwrap());
            }
            Ok(rest)
        },
        Err(()) => Err(()),
    }
}


/// Whether a value is structurally sound with nesting height at most
/// `depth`: no empty block sequence or mapping, and mappings within bound.
pub(crate) fn check_struct_value(v: &Value, depth: usize) -> (b: bool)
    ensures
        b == (value_struct_wf(v@) && value_height(v@) <= depth as nat),
    decreases *v,
{
    match v {
        Value::Scalar(_) => true,
        Value::Items(items) => items.len() > 0,
        Value::Mapping(entries) => {
            if entries.len() == 0 || depth == 0 {
                if entries.len() == 0 {
                    return false;
                }
                assert(value_height(v@) >= 1);
                false
            } else {
                check_struct_entries(entries.as_slice(), depth - 1)
            }
        },
    }
}

/// Whether an entry list is structurally sound with heights at most `depth`.
pub(crate) fn check_struct_entries(es: &[(String, Value)], depth: usize) -> (b: bool)
    ensures
        b == (entries_struct_wf(entries_view(es@)) && entries_height(entries_view(es@))
            <= depth as nat),
    decreases es@,
{
    if es.len() == 0 {
        return true;
    }
    let e = &es[0];
    proof {
        lemma_entries_view_parts(es@);
    }
    if !check_struct_value(&e.1, depth) {
        return false;
    }
    let rest = &es[1..es.len()];
    proof {
        assert(rest@ =~= es@.drop_first());
        assert(entries_view(es@).drop_first() =~= entries_view(rest@));
    }
    check_struct_entries(rest, depth)
}

} // verus!
