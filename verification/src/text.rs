//! Character-sequence utilities shared by the document codec: splitting a
//! text into lines and joining lines back, whitespace trimming, and locating
//! the frontmatter delimiter. All of it is verified; the lemmas here invert
//! the operations and carry the codec's round-trip proof.

use vstd::prelude::*;
use vstd::string::StrSliceExecFns;

verus! {

/// A line may not contain a newline character.
pub open spec fn line_clean(l: Seq<char>) -> bool {
    forall|i: int| 0 <= i < l.len() ==> l[i] != '\n'
}

/// No three consecutive dashes anywhere: such a run would be read as a
/// frontmatter delimiter by the document-level split.
pub open spec fn no_triple_dash(l: Seq<char>) -> bool {
    forall|j: int|
        0 <= j && j + 3 <= l.len() ==> !(#[trigger] l[j] == '-' && l[j + 1] == '-' && l[j + 2]
            == '-')
}

/// Split at every newline; a text with no newline is one line, so the result
/// always holds at least one line.
pub open spec fn sp_split_lines(s: Seq<char>) -> Seq<Seq<char>>
    decreases s.len(),
{
    if s.len() == 0 {
        seq![Seq::<char>::empty()]
    } else if s[0] == '\n' {
        seq![Seq::<char>::empty()].add(sp_split_lines(s.drop_first()))
    } else {
        let r = sp_split_lines(s.drop_first());
        r.update(0, seq![s[0]].add(r[0]))
    }
}

/// Join lines with single newlines between them.
pub open spec fn sp_join_lines(ls: Seq<Seq<char>>) -> Seq<char>
    decreases ls.len(),
{
    if ls.len() == 0 {
        Seq::<char>::empty()
    } else if ls.len() == 1 {
        ls[0]
    } else {
        ls[0] + seq!['\n'] + sp_join_lines(ls.drop_first())
    }
}

pub open spec fn is_ws(c: char) -> bool {
    c == ' ' || c == '\t' || c == '\n' || c == '\r'
}

pub open spec fn sp_trim_front(s: Seq<char>) -> Seq<char>
    decreases s.len(),
{
    if s.len() > 0 && is_ws(s[0]) {
        sp_trim_front(s.drop_first())
    } else {
        s
    }
}

pub open spec fn sp_trim_back(s: Seq<char>) -> Seq<char>
    decreases s.len(),
{
    if s.len() > 0 && is_ws(s[s.len() - 1]) {
        sp_trim_back(s.drop_last())
    } else {
        s
    }
}

pub open spec fn sp_trim(s: Seq<char>) -> Seq<char> {
    sp_trim_back(sp_trim_front(s))
}

/// Already free of leading and trailing whitespace.
pub open spec fn is_trimmed(s: Seq<char>) -> bool {
    s.len() == 0 || (!is_ws(s[0]) && !is_ws(s[s.len() - 1]))
}

/// The three-dash delimiter stands at position `i` of `s`.
pub open spec fn has_delim_at(s: Seq<char>, i: int) -> bool {
    0 <= i && i + 3 <= s.len() && s[i] == '-' && s[i + 1] == '-' && s[i + 2] == '-'
}

pub proof fn lemma_split_lines_len(s: Seq<char>)
    ensures
        sp_split_lines(s).len() >= 1,
    decreases s.len(),
{
    if s.len() == 0 {
    } else {
        lemma_split_lines_len(s.drop_first());
    }
}

/// A newline-free text splits into exactly itself.
pub proof fn lemma_split_single(l: Seq<char>)
    requires
        line_clean(l),
    ensures
        sp_split_lines(l) == seq![l],
    decreases l.len(),
{
    if l.len() == 0 {
        assert(sp_split_lines(l) =~~= seq![l]);
    } else {
        assert(l[0] != '\n');
        lemma_split_single(l.drop_first());
        lemma_split_lines_len(l.drop_first());
        assert(seq![l[0]].add(l.drop_first()) =~= l);
        assert(sp_split_lines(l) =~= seq![l]);
    }
}

/// Splitting `a + '\n' + b` peels off the newline-free line `a`.
pub proof fn lemma_split_prefix(a: Seq<char>, b: Seq<char>)
    requires
        line_clean(a),
    ensures
        sp_split_lines(a + seq!['\n'] + b) == seq![a] + sp_split_lines(b),
    decreases a.len(),
{
    let s = a + seq!['\n'] + b;
    if a.len() == 0 {
        assert(s[0] == '\n');
        assert(s.drop_first() =~= b);
        assert(sp_split_lines(s) =~~= seq![a] + sp_split_lines(b));
    } else {
        assert(s[0] == a[0]);
        assert(s[0] != '\n');
        lemma_split_prefix(a.drop_first(), b);
        assert(s.drop_first() =~= a.drop_first() + seq!['\n'] + b);
        let r = sp_split_lines(s.drop_first());
        assert(r == seq![a.drop_first()] + sp_split_lines(b));
        assert(r[0] == a.drop_first());
        assert(seq![s[0]].add(r[0]) =~= a);
        assert(r.update(0, seq![s[0]].add(r[0])) =~= seq![a] + sp_split_lines(b));
    }
}

/// Splitting inverts joining for a nonempty list of newline-free lines.
pub proof fn lemma_split_join(ls: Seq<Seq<char>>)
    requires
        ls.len() >= 1,
        forall|i: int| 0 <= i < ls.len() ==> line_clean(#[trigger] ls[i]),
    ensures
        sp_split_lines(sp_join_lines(ls)) == ls,
    decreases ls.len(),
{
    if ls.len() == 1 {
        lemma_split_single(ls[0]);
        assert(seq![ls[0]] =~= ls);
    } else {
        lemma_split_join(ls.drop_first());
        lemma_split_prefix(ls[0], sp_join_lines(ls.drop_first()));
        assert(seq![ls[0]] + ls.drop_first() =~= ls);
    }
}

/// Dropping a whitespace prefix before trimming changes nothing.
pub proof fn lemma_trim_front_ws(p: Seq<char>, b: Seq<char>)
    requires
        forall|i: int| 0 <= i < p.len() ==> is_ws(#[trigger] p[i]),
    ensures
        sp_trim_front(p + b) == sp_trim_front(b),
    decreases p.len(),
{
    if p.len() == 0 {
        assert(p + b =~= b);
    } else {
        let s = p + b;
        assert(s[0] == p[0]);
        assert(s.drop_first() =~= p.drop_first() + b);
        lemma_trim_front_ws(p.drop_first(), b);
    }
}

/// Joined clean, dash-free lines contain no delimiter anywhere.
pub proof fn lemma_join_no_delim(ls: Seq<Seq<char>>)
    requires
        forall|i: int| 0 <= i < ls.len() ==> line_clean(#[trigger] ls[i]),
        forall|i: int| 0 <= i < ls.len() ==> no_triple_dash(#[trigger] ls[i]),
    ensures
        no_triple_dash(sp_join_lines(ls)),
        line_clean(sp_join_lines(ls)) || ls.len() >= 2,
    decreases ls.len(),
{
    if ls.len() <= 1 {
    } else {
        lemma_join_no_delim(ls.drop_first());
        let l0 = ls[0];
        let rest = sp_join_lines(ls.drop_first());
        let j = l0 + seq!['\n'] + rest;
        assert forall|k: int| 0 <= k && k + 3 <= j.len() implies !(#[trigger] j[k] == '-' && j[k
            + 1] == '-' && j[k + 2] == '-') by {
            if k + 3 <= l0.len() {
                assert(j[k] == l0[k] && j[k + 1] == l0[k + 1] && j[k + 2] == l0[k + 2]);
            } else if k > l0.len() {
                let m = k - l0.len() - 1;
                assert(j[k] == rest[m] && j[k + 1] == rest[m + 1] && j[k + 2] == rest[m + 2]);
            } else {
                assert(j[l0.len() as int] == '\n');
            }
        }
    }
}

/// Whether a character is whitespace, decided in executable code.
pub(crate) fn ws_char(c: char) -> (b: bool)
    ensures
        b == is_ws(c),
{
    c == ' ' || c == '\t' || c == '\n' || c == '\r'
}

/// Relies on `String::push` of std: it appends the character to the string.
#[verifier::external_body]
pub(crate) fn push_char(s: &mut String, c: char)
    ensures
        final(s)@ == old(s)@.push(c),
{
    s.push(c);
}

/// Collect the characters of a string slice.
pub(crate) fn chars_of_str(s: &str) -> (v: Vec<char>)
    ensures
        v@ == s@,
{
    let n = s.unicode_len();
    let mut v: Vec<char> = Vec::new();
    let mut i: usize = 0;
    while i < n
        invariant
            n == s@.len(),
            i <= n,
            v@ == s@.take(i as int),
        decreases n - i,
    {
        let c = s.get_char(i);
        v.push(c);
        i = i + 1;
        assert(v@ =~= s@.take(i as int));
    }
    assert(v@ =~= s@);
    v
}

/// Build a string from characters.
pub(crate) fn string_of_chars(v: &[char]) -> (s: String)
    ensures
        s@ == v@,
{
    let mut s = String::new();
    let mut i: usize = 0;
    while i < v.len()
        invariant
            i <= v@.len(),
            s@ == v@.take(i as int),
        decreases v@.len() - i,
    {
        push_char(&mut s, v[i]);
        i = i + 1;
        assert(s@ =~= v@.take(i as int));
    }
    assert(s@ =~= v@);
    s
}

/// Split into lines at every newline, as `sp_split_lines` says.
pub(crate) fn split_lines(s: &[char]) -> (r: Vec<Vec<char>>)
    ensures
        r.deep_view() == sp_split_lines(s@),
    decreases s@.len(),
{
    if s.len() == 0 {
        let mut r: Vec<Vec<char>> = Vec::new();
        r.push(Vec::new());
        assert(r.deep_view() =~~= sp_split_lines(s@));
        r
    } else if s[0] == '\n' {
        let mut r = split_lines(&s[1..s.len()]);
        proof {
            lemma_split_lines_len(s@.drop_first());
            assert(s@.subrange(1, s@.len() as int) =~= s@.drop_first());
        }
        r.insert(0, Vec::new());
        assert(r.deep_view() =~~= sp_split_lines(s@));
        r
    } else {
        let mut r = split_lines(&s[1..s.len()]);
        proof {
            lemma_split_lines_len(s@.drop_first());
            assert(s@.subrange(1, s@.len() as int) =~= s@.drop_first());
        }
        let mut first = r.remove(0);
        let mut line: Vec<char> = Vec::new();
        line.push(s[0]);
        line.append(&mut first);
        r.insert(0, line);
        proof {
            let sub = sp_split_lines(s@.drop_first());
            assert(r.deep_view() =~~= sub.update(0, seq![s@[0]].add(sub[0])));
        }
        r
    }
}

/// Append every character of `src` to `dst`.
pub(crate) fn copy_chars(dst: &mut Vec<char>, src: &[char])
    ensures
        final(dst)@ == old(dst)@ + src@,
{
    let mut i: usize = 0;
    while i < src.len()
        invariant
            i <= src@.len(),
            dst@ == old(dst)@ + src@.take(i as int),
        decreases src@.len() - i,
    {
        dst.push(src[i]);
        i = i + 1;
        assert(dst@ =~= old(dst)@ + src@.take(i as int));
    }
    assert(dst@ =~= old(dst)@ + src@);
}

/// Join lines with single newlines, as `sp_join_lines` says.
pub(crate) fn join_lines(ls: &[Vec<char>]) -> (r: Vec<char>)
    ensures
        r@ == sp_join_lines(ls.deep_view()),
    decreases ls@.len(),
{
    if ls.len() == 0 {
        Vec::new()
    } else if ls.len() == 1 {
        let mut r: Vec<char> = Vec::new();
        copy_chars(&mut r, ls[0].as_slice());
        assert(r@ =~= ls.deep_view()[0]);
        r
    } else {
        let mut r: Vec<char> = Vec::new();
        copy_chars(&mut r, ls[0].as_slice());
        assert(r@ =~= ls.deep_view()[0]);
        r.push('\n');
        let tail = &ls[1..ls.len()];
        let mut rest = join_lines(tail);
        proof {
            assert(tail.deep_view() =~~= ls.deep_view().drop_first());
        }
        r.append(&mut rest);
        assert(r@ =~= sp_join_lines(ls.deep_view()));
        assert(ls.deep_view().len() == ls@.len());
        r
    }
}

/// Drop leading whitespace, as `sp_trim_front` says.
pub(crate) fn trim_front(s: &[char]) -> (r: &[char])
    ensures
        r@ == sp_trim_front(s@),
    decreases s@.len(),
{
    if s.len() > 0 && ws_char(s[0]) {
        let r = trim_front(&s[1..s.len()]);
        proof {
            assert(s@.subrange(1, s@.len() as int) =~= s@.drop_first());
        }
        r
    } else {
        s
    }
}

/// Drop trailing whitespace, as `sp_trim_back` says.
pub(crate) fn trim_back(s: &[char]) -> (r: &[char])
    ensures
        r@ == sp_trim_back(s@),
    decreases s@.len(),
{
    if s.len() > 0 && ws_char(s[s.len() - 1]) {
        let r = trim_back(&s[0..s.len() - 1]);
        proof {
            assert(s@.subrange(0, s@.len() - 1) =~= s@.drop_last());
        }
        r
    } else {
        s
    }
}

/// Trim both ends, as `sp_trim` says.
pub(crate) fn trim(s: &[char]) -> (r: &[char])
    ensures
        r@ == sp_trim(s@),
{
    trim_back(trim_front(s))
}

/// Find the first delimiter occurrence at or after `start`.
pub(crate) fn find_delim_from(s: &[char], start: usize) -> (r: Option<usize>)
    ensures
        match r {
            Some(i) => start <= i && has_delim_at(s@, i as int) && forall|j: int|
                start <= j < i ==> !has_delim_at(s@, j),
            None => forall|j: int| start <= j ==> !has_delim_at(s@, j),
        },
{
    let mut i: usize = start;
    loop
        invariant
            start <= i,
            forall|j: int| start <= j < i ==> !has_delim_at(s@, j),
        decreases s@.len() + 3 - i,
    {
        if s.len() < 3 || i > s.len() - 3 {
            return None;
        }
        if s[i] == '-' && s[i + 1] == '-' && s[i + 2] == '-' {
            return Some(i);
        }
        i = i + 1;
    }
}


/// Drop leading newlines only.
pub open spec fn sp_trim_nl_front(s: Seq<char>) -> Seq<char>
    decreases s.len(),
{
    if s.len() > 0 && s[0] == '\n' {
        sp_trim_nl_front(s.drop_first())
    } else {
        s
    }
}

/// Drop trailing newlines only.
pub open spec fn sp_trim_nl_back(s: Seq<char>) -> Seq<char>
    decreases s.len(),
{
    if s.len() > 0 && s[s.len() - 1] == '\n' {
        sp_trim_nl_back(s.drop_last())
    } else {
        s
    }
}

/// Drop the newlines around a text.
pub open spec fn sp_trim_nl(s: Seq<char>) -> Seq<char> {
    sp_trim_nl_back(sp_trim_nl_front(s))
}

/// Drop leading newlines, executable.
pub(crate) fn trim_nl_front(s: &[char]) -> (r: &[char])
    ensures
        r@ == sp_trim_nl_front(s@),
    decreases s@.len(),
{
    if s.len() > 0 && s[0] == '\n' {
        let r = trim_nl_front(&s[1..s.len()]);
        proof {
            assert(s@.subrange(1, s@.len() as int) =~= s@.drop_first());
        }
        r
    } else {
        s
    }
}

/// Drop trailing newlines, executable.
pub(crate) fn trim_nl_back(s: &[char]) -> (r: &[char])
    ensures
        r@ == sp_trim_nl_back(s@),
    decreases s@.len(),
{
    if s.len() > 0 && s[s.len() - 1] == '\n' {
        let r = trim_nl_back(&s[0..s.len() - 1]);
        proof {
            assert(s@.subrange(0, s@.len() - 1) =~= s@.drop_last());
        }
        r
    } else {
        s
    }
}

/// Drop the newlines around a text, executable.
pub(crate) fn trim_nl(s: &[char]) -> (r: &[char])
    ensures
        r@ == sp_trim_nl(s@),
{
    trim_nl_back(trim_nl_front(s))
}

/// A text wrapped in single newlines trims back to itself when its own ends
/// are not newlines.
pub proof fn lemma_trim_nl_wrap(j: Seq<char>)
    requires
        j.len() > 0,
        j[0] != '\n',
        j[j.len() - 1] != '\n',
    ensures
        sp_trim_nl(seq!['\n'] + j + seq!['\n']) == j,
{
    let s = seq!['\n'] + j + seq!['\n'];
    let t = j + seq!['\n'];
    assert(s[0] == '\n');
    assert(s.drop_first() =~= t);
    assert(sp_trim_nl_front(s) == sp_trim_nl_front(t));
    assert(t[0] == j[0]);
    assert(t.len() > 0 && t[0] != '\n');
    assert(sp_trim_nl_front(t) == t);
    assert(t[t.len() - 1] == '\n');
    assert(t.drop_last() =~= j);
    assert(sp_trim_nl_back(t) == sp_trim_nl_back(j));
    assert(j[j.len() - 1] != '\n');
    assert(sp_trim_nl_back(j) == j);
}

/// A whitespace prefix followed by a trimmed text trims to that text.
pub proof fn lemma_trim_ws_prefix(p: Seq<char>, b: Seq<char>)
    requires
        forall|i: int| 0 <= i < p.len() ==> is_ws(#[trigger] p[i]),
        is_trimmed(b),
    ensures
        sp_trim(p + b) == b,
{
    lemma_trim_front_ws(p, b);
    if b.len() > 0 {
        assert(sp_trim_front(b) == b);
        assert(sp_trim_back(b) == b);
    } else {
        assert(p + b =~= p);
        lemma_trim_front_ws(p, Seq::<char>::empty());
        assert(sp_trim_front(Seq::<char>::empty()) =~= Seq::<char>::empty());
        assert(sp_trim_front(p + b) =~= b);
    }
}

/// The first and last characters of a join of nonempty clean lines.
pub proof fn lemma_join_ends(ls: Seq<Seq<char>>)
    requires
        ls.len() >= 1,
        forall|i: int| 0 <= i < ls.len() ==> (#[trigger] ls[i]).len() > 0,
        forall|i: int| 0 <= i < ls.len() ==> line_clean(#[trigger] ls[i]),
    ensures
        sp_join_lines(ls).len() > 0,
        sp_join_lines(ls)[0] != '\n',
        sp_join_lines(ls)[sp_join_lines(ls).len() - 1] != '\n',
    decreases ls.len(),
{
    let j = sp_join_lines(ls);
    if ls.len() == 1 {
        assert(j == ls[0]);
    } else {
        lemma_join_ends(ls.drop_first());
        let rest = sp_join_lines(ls.drop_first());
        assert(j == ls[0] + seq!['\n'] + rest);
        assert(j[0] == ls[0][0]);
        assert(j[j.len() - 1] == rest[rest.len() - 1]);
    }
}


/// Relies on `str`'s `==` of std: string slices compare equal exactly when
/// their characters do.
#[verifier::external_body]
pub(crate) fn str_eq(a: &str, b: &str) -> (r: bool)
    ensures
        r == (a@ == b@),
{
    a == b
}

} // verus!
