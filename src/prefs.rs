use vstd::prelude::*;

use crate::config::{config_views, UserchromeConfig, UserchromeConfigView};
use crate::text::{chars_of, push_char, string_of, texts};

verus! {

/// First line of the managed block.
pub const START_LINE: &'static str = "/** nyoom-managed config; do not edit */";

/// Last line of the managed block.
pub const END_LINE: &'static str = "/** end of nyoom-managed config */";

/// The line that lets the browser load custom stylesheets; it always opens
/// the generated lines.
pub const STYLESHEET_LINE: &'static str = "user_pref(\"toolkit.legacyUserProfileCustomizations.stylesheets\", true);";

/// `user_pref("key", value);`, the value quoted unless it is raw.
pub open spec fn pref_line(c: UserchromeConfigView) -> Seq<char> {
    "user_pref(\""@ + c.key + "\", "@ + (if c.raw {
        c.value
    } else {
        "\""@ + c.value + "\""@
    }) + ");"@
}

/// The lines written between the markers.
pub open spec fn generated_lines(prefs: Seq<UserchromeConfigView>) -> Seq<Seq<char>> {
    seq![STYLESHEET_LINE@] + prefs.map_values(|c: UserchromeConfigView| pref_line(c))
}

/// The pieces of `s` between line feeds (always at least one).
pub open spec fn split_pieces(s: Seq<char>) -> Seq<Seq<char>>
    decreases s.len(),
{
    if s.len() == 0 {
        seq![Seq::empty()]
    } else {
        let p = split_pieces(s.drop_last());
        if s.last() == '\n' {
            p.push(Seq::empty())
        } else {
            p.update(p.len() - 1, p.last().push(s.last()))
        }
    }
}

pub open spec fn strip_cr(l: Seq<char>) -> Seq<char> {
    if l.len() > 0 && l.last() == '\r' {
        l.drop_last()
    } else {
        l
    }
}

pub open spec fn stripped(ls: Seq<Seq<char>>) -> Seq<Seq<char>> {
    ls.map_values(|l: Seq<char>| strip_cr(l))
}

/// The lines of a text as `str::lines` gives them: split at `\n`, a `\r`
/// before the `\n` dropped, no empty line after a final line feed.
pub open spec fn lines_of(s: Seq<char>) -> Seq<Seq<char>> {
    let p = split_pieces(s);
    let body = stripped(p.drop_last());
    if p.last().len() == 0 {
        body
    } else {
        body.push(p.last())
    }
}

/// The first position of `t` in `ls`.
#[verifier::opaque]
pub open spec fn first_index(ls: Seq<Seq<char>>, t: Seq<char>) -> Option<int> {
    if exists|i: int| 0 <= i < ls.len() && ls[i] == t {
        Some(
            choose|i: int|
                0 <= i < ls.len() && ls[i] == t && forall|j: int| 0 <= j < i ==> ls[j] != t,
        )
    } else {
        None
    }
}

/// The lines after the patch: between the first start marker and the first
/// end marker when there are both, else a new block appended.
pub open spec fn patched_lines(ls: Seq<Seq<char>>, gen: Seq<Seq<char>>) -> Seq<Seq<char>> {
    match (first_index(ls, START_LINE@), first_index(ls, END_LINE@)) {
        (Some(i), Some(j)) => ls.subrange(0, i + 1) + gen + ls.subrange(j, ls.len() as int),
        _ => ls + seq![START_LINE@] + gen + seq![END_LINE@],
    }
}

/// Each line followed by a line feed.
pub open spec fn terminated(ls: Seq<Seq<char>>) -> Seq<char>
    decreases ls.len(),
{
    if ls.len() == 0 {
        Seq::empty()
    } else {
        terminated(ls.drop_last()) + ls.last() + seq!['\n']
    }
}

/// The lines joined by line feeds, ending in exactly one line feed for a
/// final empty line or one added.
pub open spec fn finished(ls: Seq<Seq<char>>) -> Seq<char> {
    if ls.len() > 0 && ls.last().len() == 0 {
        terminated(ls.drop_last())
    } else {
        terminated(ls)
    }
}

/// The content of a preference file after the managed block is patched.
pub open spec fn patched(contents: Seq<char>, prefs: Seq<UserchromeConfigView>) -> Seq<char> {
    finished(patched_lines(lines_of(contents), generated_lines(prefs)))
}

pub proof fn lemma_first_index_at(ls: Seq<Seq<char>>, t: Seq<char>, i: int)
    requires
        0 <= i < ls.len(),
        ls[i] == t,
        forall|j: int| 0 <= j < i ==> ls[j] != t,
    ensures
        first_index(ls, t) == Some(i),
{
    reveal(first_index);
    let k = choose|k: int|
        0 <= k < ls.len() && ls[k] == t && forall|j: int| 0 <= j < k ==> ls[j] != t;
    assert(0 <= k < ls.len() && ls[k] == t && forall|j: int| 0 <= j < k ==> ls[j] != t);
    if k < i {
        assert(ls[k] != t);
    } else if k > i {
        assert(ls[i] != t);
    }
}

pub proof fn lemma_first_index_bounds(ls: Seq<Seq<char>>, t: Seq<char>)
    ensures
        match first_index(ls, t) {
            Some(i) => 0 <= i < ls.len() && ls[i] == t && forall|j: int| 0 <= j < i ==> ls[j] != t,
            None => forall|j: int| 0 <= j < ls.len() ==> ls[j] != t,
        },
{
    reveal(first_index);
    if exists|i: int| 0 <= i < ls.len() && ls[i] == t {
        let w = choose|i: int| 0 <= i < ls.len() && ls[i] == t;
        lemma_least_witness(ls, t, w);
    }
}

proof fn lemma_least_witness(ls: Seq<Seq<char>>, t: Seq<char>, w: int)
    requires
        0 <= w < ls.len(),
        ls[w] == t,
    ensures
        exists|i: int| 0 <= i < ls.len() && ls[i] == t && forall|j: int| 0 <= j < i ==> ls[j] != t,
    decreases w,
{
    if exists|j: int| 0 <= j < w && ls[j] == t {
        let j = choose|j: int| 0 <= j < w && ls[j] == t;
        lemma_least_witness(ls, t, j);
    } else {
        assert(forall|j: int| 0 <= j < w ==> ls[j] != t);
    }
}

pub open spec fn free_of(ls: Seq<Seq<char>>, t: Seq<char>) -> bool {
    forall|k: int| 0 <= k < ls.len() ==> ls[k] != t
}

proof fn lemma_markers_differ()
    ensures
        START_LINE@ != END_LINE@,
{
    reveal_strlit("/** nyoom-managed config; do not edit */");
    reveal_strlit("/** end of nyoom-managed config */");
    assert(START_LINE@[4] != END_LINE@[4]);
}

/// Patching keeps the lines before the start marker and from the end marker
/// on as they were, and puts the generated lines in place of those between.
pub proof fn lemma_patch_preserves_outside(
    contents: Seq<char>,
    before: Seq<Seq<char>>,
    inner: Seq<Seq<char>>,
    after: Seq<Seq<char>>,
    prefs: Seq<UserchromeConfigView>,
)
    requires
        lines_of(contents) == before + seq![START_LINE@] + inner + seq![END_LINE@] + after,
        free_of(before, START_LINE@),
        free_of(before, END_LINE@),
        free_of(inner, END_LINE@),
    ensures
        patched(contents, prefs) == finished(
            before + seq![START_LINE@] + generated_lines(prefs) + seq![END_LINE@] + after,
        ),
{
    let ls = lines_of(contents);
    let s = START_LINE@;
    let e = END_LINE@;
    lemma_markers_differ();
    let i = before.len() as int;
    let j = (before.len() + 1 + inner.len()) as int;
    assert(ls[i] == s);
    assert forall|k: int| 0 <= k < i implies ls[k] != s by {
        assert(ls[k] == before[k]);
    }
    lemma_first_index_at(ls, s, i);
    assert(ls[j] == e);
    assert forall|k: int| 0 <= k < j implies ls[k] != e by {
        if k < i {
            assert(ls[k] == before[k]);
        } else if k > i {
            assert(ls[k] == inner[k - i - 1]);
        }
    }
    lemma_first_index_at(ls, e, j);
    let gen = generated_lines(prefs);
    assert(ls.subrange(0, i + 1) + gen + ls.subrange(j, ls.len() as int) =~= before + seq![s]
        + gen + seq![e] + after);
}

/// A line that survives being written out and read back: no line feed in
/// it, no carriage return at its end.
pub open spec fn clean_line(l: Seq<char>) -> bool {
    (forall|k: int| 0 <= k < l.len() ==> l[k] != '\n') && !(l.len() > 0 && l.last() == '\r')
}

pub open spec fn all_clean(ls: Seq<Seq<char>>) -> bool {
    forall|k: int| 0 <= k < ls.len() ==> clean_line(#[trigger] ls[k])
}

proof fn lemma_split_append(s: Seq<char>, x: Seq<char>)
    requires
        forall|k: int| 0 <= k < x.len() ==> x[k] != '\n',
    ensures
        split_pieces(s + x) == split_pieces(s).update(
            split_pieces(s).len() - 1,
            split_pieces(s).last() + x,
        ),
    decreases x.len(),
{
    lemma_split_pieces_nonempty(s);
    let p = split_pieces(s);
    if x.len() == 0 {
        assert(s + x =~= s);
        assert(p.last() + x =~= p.last());
        assert(p.update(p.len() - 1, p.last() + x) =~= p);
    } else {
        let x0 = x.drop_last();
        lemma_split_append(s, x0);
        assert((s + x).drop_last() =~= s + x0);
        assert((s + x).last() == x.last());
        let q = split_pieces(s + x0);
        assert(q.last() == p.last() + x0);
        assert(q.last().push(x.last()) =~= p.last() + x);
        assert(q.update(q.len() - 1, q.last().push(x.last())) =~= p.update(
            p.len() - 1,
            p.last() + x,
        ));
    }
}

proof fn lemma_split_terminated(xs: Seq<Seq<char>>)
    requires
        all_clean(xs),
    ensures
        split_pieces(terminated(xs)) == xs.push(Seq::empty()),
    decreases xs.len(),
{
    if xs.len() == 0 {
        assert(terminated(xs) =~= Seq::<char>::empty());
        assert(split_pieces(Seq::<char>::empty()) == seq![Seq::<char>::empty()]);
        assert(xs.push(Seq::empty()) =~= seq![Seq::<char>::empty()]);
    } else {
        let x0 = xs.drop_last();
        let x = xs.last();
        assert(clean_line(xs[xs.len() - 1]));
        assert forall|k: int| 0 <= k < x0.len() implies clean_line(#[trigger] x0[k]) by {
            assert(clean_line(xs[k]));
        }
        lemma_split_terminated(x0);
        let t0 = terminated(x0);
        let t = terminated(xs);
        assert(t == t0 + x + seq!['\n']);
        assert(t.drop_last() =~= t0 + x);
        assert(t.last() == '\n');
        lemma_split_append(t0, x);
        let p = split_pieces(t0);
        assert(p.update(p.len() - 1, p.last() + x) =~= xs) by {
            assert(p.last() + x =~= x);
        }
    }
}

/// Clean lines written out and read back are the same lines.
pub proof fn lemma_lines_of_terminated(xs: Seq<Seq<char>>)
    requires
        all_clean(xs),
    ensures
        lines_of(terminated(xs)) == xs,
{
    lemma_split_terminated(xs);
    let p = xs.push(Seq::<char>::empty());
    assert(p.drop_last() =~= xs);
    assert(stripped(xs) =~= xs) by {
        assert forall|k: int| 0 <= k < xs.len() implies stripped(xs)[k] == xs[k] by {
            assert(clean_line(xs[k]));
        }
    }
}

proof fn lemma_pieces_have_no_newline(s: Seq<char>)
    ensures
        forall|k: int, m: int|
            0 <= k < split_pieces(s).len() && 0 <= m < split_pieces(s)[k].len() ==> #[trigger] split_pieces(s)[k][m]
                != '\n',
    decreases s.len(),
{
    lemma_split_pieces_nonempty(s);
    if s.len() > 0 {
        lemma_pieces_have_no_newline(s.drop_last());
        lemma_split_pieces_nonempty(s.drop_last());
        let p = split_pieces(s.drop_last());
        if s.last() != '\n' {
            assert forall|k: int, m: int|
                0 <= k < split_pieces(s).len() && 0 <= m < split_pieces(s)[k].len() implies #[trigger] split_pieces(s)[k][m]
                    != '\n' by {
                if k < p.len() - 1 {
                    assert(split_pieces(s)[k] == p[k]);
                } else {
                    if m < p.last().len() {
                        assert(split_pieces(s)[k][m] == p[p.len() - 1][m]);
                    }
                }
            }
        } else {
            assert forall|k: int, m: int|
                0 <= k < split_pieces(s).len() && 0 <= m < split_pieces(s)[k].len() implies #[trigger] split_pieces(s)[k][m]
                    != '\n' by {
                assert(split_pieces(s)[k] == p.push(Seq::empty())[k]);
            }
        }
    }
}

proof fn lemma_lines_have_no_newline(s: Seq<char>)
    ensures
        forall|k: int, m: int|
            0 <= k < lines_of(s).len() && 0 <= m < lines_of(s)[k].len() ==> #[trigger] lines_of(s)[k][m]
                != '\n',
{
    lemma_pieces_have_no_newline(s);
    lemma_split_pieces_nonempty(s);
    let p = split_pieces(s);
    assert forall|k: int, m: int|
        0 <= k < lines_of(s).len() && 0 <= m < lines_of(s)[k].len() implies #[trigger] lines_of(s)[k][m]
            != '\n' by {
        if k < p.len() - 1 {
            let l = p[k];
            assert(lines_of(s)[k] == strip_cr(l));
            assert(strip_cr(l)[m] == l[m]);
            assert(p[k][m] != '\n');
        } else {
            assert(lines_of(s)[k] == p[p.len() - 1]);
            assert(p[p.len() - 1][m] != '\n');
        }
    }
}

proof fn lemma_fixed_lines_clean()
    ensures
        clean_line(START_LINE@),
        clean_line(END_LINE@),
        clean_line(STYLESHEET_LINE@),
        START_LINE@.len() > 0 && START_LINE@[0] == '/',
        END_LINE@.len() > 0 && END_LINE@[0] == '/',
        START_LINE@ != END_LINE@,
{
    reveal_strlit("/** nyoom-managed config; do not edit */");
    reveal_strlit("/** end of nyoom-managed config */");
    reveal_strlit("user_pref(\"toolkit.legacyUserProfileCustomizations.stylesheets\", true);");
    lemma_markers_differ();
}

proof fn lemma_pref_line_clean(c: UserchromeConfigView)
    requires
        forall|k: int| 0 <= k < c.key.len() ==> c.key[k] != '\n',
        forall|k: int| 0 <= k < c.value.len() ==> c.value[k] != '\n',
    ensures
        clean_line(pref_line(c)),
        pref_line(c)[0] == 'u',
{
    reveal_strlit("user_pref(\"");
    reveal_strlit("\", ");
    reveal_strlit("\"");
    reveal_strlit(");");
    let v = if c.raw {
        c.value
    } else {
        "\""@ + c.value + "\""@
    };
    assert forall|k: int| 0 <= k < v.len() implies v[k] != '\n' by {
        if !c.raw {
            if 1 <= k < 1 + c.value.len() {
                assert(v[k] == c.value[k - 1]);
            }
        }
    }
    let l = pref_line(c);
    let a = "user_pref(\""@;
    let b = "\", "@;
    let e = ");"@;
    assert(l =~= a + c.key + b + v + e);
    assert forall|k: int| 0 <= k < l.len() implies l[k] != '\n' by {
        let n1 = a.len() as int;
        let n2 = n1 + c.key.len();
        let n3 = n2 + b.len();
        let n4 = n3 + v.len();
        if n1 <= k < n2 {
            assert(l[k] == c.key[k - n1]);
        } else if n3 <= k < n4 {
            assert(l[k] == v[k - n3]);
        }
    }
    assert(l.last() == ';');
}

/// Whether no key or value of the preferences holds a line feed.
pub open spec fn single_line_prefs(prefs: Seq<UserchromeConfigView>) -> bool {
    forall|i: int|
        0 <= i < prefs.len() ==> (forall|k: int|
            0 <= k < #[trigger] prefs[i].key.len() ==> prefs[i].key[k] != '\n') && (forall|k: int|
            0 <= k < prefs[i].value.len() ==> prefs[i].value[k] != '\n')
}

proof fn lemma_generated_clean(prefs: Seq<UserchromeConfigView>)
    requires
        single_line_prefs(prefs),
    ensures
        all_clean(generated_lines(prefs)),
        free_of(generated_lines(prefs), START_LINE@),
        free_of(generated_lines(prefs), END_LINE@),
{
    lemma_fixed_lines_clean();
    reveal_strlit("user_pref(\"toolkit.legacyUserProfileCustomizations.stylesheets\", true);");
    let g = generated_lines(prefs);
    assert forall|k: int| 0 <= k < g.len() implies clean_line(#[trigger] g[k]) && g[k]
        != START_LINE@ && g[k] != END_LINE@ by {
        if k == 0 {
            assert(g[k] == STYLESHEET_LINE@);
            assert(g[k][0] == 'u');
        } else {
            assert(g[k] == pref_line(prefs[k - 1]));
            assert(0 <= k - 1 < prefs.len());
            lemma_pref_line_clean(prefs[k - 1]);
        }
    }
}

/// The lines that `finished` writes out: a final empty line is dropped.
pub open spec fn written_lines(ls: Seq<Seq<char>>) -> Seq<Seq<char>> {
    if ls.len() > 0 && ls.last().len() == 0 {
        ls.drop_last()
    } else {
        ls
    }
}

proof fn lemma_clean_parts(ls: Seq<Seq<char>>, g: Seq<Seq<char>>, i: int, j: int)
    requires
        all_clean(ls),
        all_clean(g),
        -1 <= i < ls.len(),
        0 <= j <= ls.len(),
    ensures
        all_clean(ls.subrange(0, i + 1) + g + ls.subrange(j, ls.len() as int)),
        all_clean(ls + seq![START_LINE@] + g + seq![END_LINE@]),
{
    lemma_fixed_lines_clean();
    let a = ls.subrange(0, i + 1) + g + ls.subrange(j, ls.len() as int);
    assert forall|k: int| 0 <= k < a.len() implies clean_line(#[trigger] a[k]) by {
        if k <= i {
            assert(a[k] == ls[k]);
        } else if k < i + 1 + g.len() {
            assert(a[k] == g[k - i - 1]);
        } else {
            assert(a[k] == ls[j + k - i - 1 - g.len()]);
        }
    }
    let b = ls + seq![START_LINE@] + g + seq![END_LINE@];
    assert forall|k: int| 0 <= k < b.len() implies clean_line(#[trigger] b[k]) by {
        if k < ls.len() {
            assert(b[k] == ls[k]);
        } else if k == ls.len() {
            assert(b[k] == START_LINE@);
        } else if k < ls.len() + 1 + g.len() {
            assert(b[k] == g[k - ls.len() - 1]);
        } else {
            assert(b[k] == END_LINE@);
        }
    }
}

/// Patching a file a second time with the same preferences changes nothing,
/// for a file whose lines end in no carriage return, that holds both markers
/// (start before end, and not followed by two empty last lines) or neither,
/// and preferences whose keys and values are single lines.
pub proof fn lemma_patch_idempotent(contents: Seq<char>, prefs: Seq<UserchromeConfigView>)
    requires
        forall|k: int|
            0 <= k < lines_of(contents).len() ==> !(#[trigger] lines_of(contents)[k].len() > 0
                && lines_of(contents)[k].last() == '\r'),
        single_line_prefs(prefs),
        match (
            first_index(lines_of(contents), START_LINE@),
            first_index(lines_of(contents), END_LINE@),
        ) {
            (None, None) => true,
            (Some(i), Some(j)) => i < j && !(lines_of(contents).len() >= 2 && lines_of(
                contents,
            ).last().len() == 0 && lines_of(contents)[lines_of(contents).len() - 2].len() == 0),
            _ => false,
        },
    ensures
        patched(patched(contents, prefs), prefs) == patched(contents, prefs),
{
    let ls = lines_of(contents);
    let g = generated_lines(prefs);
    let st = START_LINE@;
    let en = END_LINE@;
    lemma_fixed_lines_clean();
    lemma_generated_clean(prefs);
    lemma_lines_have_no_newline(contents);
    assert forall|k: int| 0 <= k < ls.len() implies clean_line(#[trigger] ls[k]) by {
        assert forall|m: int| 0 <= m < ls[k].len() implies ls[k][m] != '\n' by {
            assert(lines_of(contents)[k][m] != '\n');
        }
    }
    lemma_first_index_bounds(ls, st);
    lemma_first_index_bounds(ls, en);
    let r = patched_lines(ls, g);
    let w = written_lines(r);
    let out1 = patched(contents, prefs);
    assert(out1 == terminated(w));
    match (first_index(ls, st), first_index(ls, en)) {
        (Some(i), Some(j)) => {
            lemma_clean_parts(ls, g, i, j);
            assert(r == ls.subrange(0, i + 1) + g + ls.subrange(j, ls.len() as int));
            let e = i + 1 + g.len();
            assert(r[e] == en);
            assert(r.len() == e + ls.len() - j);
            assert forall|k: int| 0 <= k < w.len() implies clean_line(#[trigger] w[k]) by {
                assert(w[k] == r[k]);
            }
            lemma_lines_of_terminated(w);
            assert(w.len() > e) by {
                if r.len() > 0 && r.last().len() == 0 {
                    assert(r.last() == r[r.len() - 1]);
                }
            }
            assert(w[i] == st);
            assert forall|k: int| 0 <= k < i implies w[k] != st by {
                assert(w[k] == ls[k]);
            }
            lemma_first_index_at(w, st, i);
            assert(w[e] == en);
            assert forall|k: int| 0 <= k < e implies w[k] != en by {
                if k <= i {
                    assert(w[k] == ls[k]);
                } else {
                    assert(w[k] == g[k - i - 1]);
                }
            }
            lemma_first_index_at(w, en, e);
            let r2 = patched_lines(w, g);
            assert(r2 == w.subrange(0, i + 1) + g + w.subrange(e, w.len() as int));
            assert(r2 =~= w) by {
                assert forall|k: int| 0 <= k < w.len() implies r2[k] == w[k] by {
                    if i < k < e {
                        assert(w[k] == r[k]);
                        assert(r[k] == g[k - i - 1]);
                    }
                }
            }
            assert(w.len() > 0 && w.last().len() > 0) by {
                if r.len() > 0 && r.last().len() == 0 {
                    assert(r.last() == ls.last());
                    assert(j < ls.len() - 1);
                    assert(w.last() == r[r.len() - 2]);
                    assert(r[r.len() - 2] == ls[ls.len() - 2]);
                } else {
                    assert(w == r);
                }
            }
            assert(written_lines(w) == w);
        },
        (None, None) => {
            lemma_clean_parts(ls, g, -1, 0);
            assert(r == ls + seq![st] + g + seq![en]);
            assert(r.last() == en);
            assert(w == r);
            lemma_lines_of_terminated(w);
            let a = ls.len() as int;
            let e = a + 1 + g.len();
            assert(w[a] == st);
            assert forall|k: int| 0 <= k < a implies w[k] != st by {
                assert(w[k] == ls[k]);
            }
            lemma_first_index_at(w, st, a);
            assert(w[e] == en);
            assert forall|k: int| 0 <= k < e implies w[k] != en by {
                if k < a {
                    assert(w[k] == ls[k]);
                } else if k > a {
                    assert(w[k] == g[k - a - 1]);
                }
            }
            lemma_first_index_at(w, en, e);
            let r2 = patched_lines(w, g);
            assert(r2 =~= w);
            assert(written_lines(w) == w);
        },
        _ => {},
    }
}

pub proof fn lemma_split_pieces_nonempty(s: Seq<char>)
    ensures
        split_pieces(s).len() >= 1,
    decreases s.len(),
{
    if s.len() > 0 {
        lemma_split_pieces_nonempty(s.drop_last());
    }
}

/// The lines of a text, as `str::lines` splits them.
pub fn split_lines(s: &str) -> (r: Vec<String>)
    ensures
        texts(r@) == lines_of(s@),
{
    let cs = chars_of(s);
    let mut r: Vec<String> = Vec::new();
    let ghost mut raw: Seq<Seq<char>> = Seq::empty();
    let mut start: usize = 0;
    let mut i: usize = 0;
    assert(cs@.subrange(0, 0) =~= Seq::<char>::empty());
    assert(split_pieces(Seq::<char>::empty()) == seq![Seq::<char>::empty()]);
    assert(split_pieces(cs@.subrange(0, 0)) =~= raw.push(cs@.subrange(0, 0)));
    while i < cs.len()
        invariant
            start <= i <= cs@.len(),
            cs@ == s@,
            split_pieces(cs@.subrange(0, i as int)) == raw.push(cs@.subrange(start as int, i as int)),
            texts(r@) == stripped(raw),
        decreases cs.len() - i,
    {
        let ghost prev = cs@.subrange(0, i as int);
        let ghost cur = cs@.subrange(start as int, i as int);
        assert(cs@.subrange(0, i + 1).drop_last() =~= prev);
        assert(cs@.subrange(0, i + 1).last() == cs@[i as int]);
        assert(split_pieces(prev).last() == cur);
        assert(split_pieces(prev).drop_last() =~= raw);
        if cs[i] == '\n' {
            let mut end = i;
            if end > start && cs[end - 1] == '\r' {
                end = end - 1;
            }
            let line = string_of(&cs, start, end);
            assert(line@ =~= strip_cr(cur));
            let ghost before = r@;
            r.push(line);
            proof {
                let raw_old = raw;
                raw = raw.push(cur);
                assert(r@ == before.push(line));
                assert(texts(before).len() == before.len());
                assert(stripped(raw_old).len() == raw_old.len());
                assert(stripped(raw).len() == raw.len());
                assert(texts(r@).len() == r@.len());
                assert forall|k: int| 0 <= k < r@.len() implies #[trigger] texts(r@)[k]
                    == stripped(raw)[k] by {
                    if k < before.len() {
                        assert(texts(before)[k] == stripped(raw_old)[k]);
                        assert(raw[k] == raw_old[k]);
                    } else {
                        assert(raw[k] == cur);
                    }
                }
                assert(texts(r@) =~= stripped(raw));
            }
            start = i + 1;
            assert(split_pieces(cs@.subrange(0, i + 1)) == split_pieces(prev).push(Seq::empty()));
            assert(split_pieces(prev) =~= raw);
            assert(cs@.subrange(start as int, i + 1) =~= Seq::<char>::empty());
            assert(split_pieces(cs@.subrange(0, i + 1)) =~= raw.push(cs@.subrange(start as int, i + 1)));
        } else {
            assert(cur.push(cs@[i as int]) =~= cs@.subrange(start as int, i + 1));
            assert(split_pieces(cs@.subrange(0, i + 1)) =~= raw.push(cs@.subrange(start as int, i + 1)));
        }
        i = i + 1;
    }
    assert(cs@.subrange(0, i as int) =~= s@);
    assert(split_pieces(s@).drop_last() =~= raw);
    assert(split_pieces(s@).last() == cs@.subrange(start as int, i as int));
    if start < cs.len() {
        let last = string_of(&cs, start, cs.len());
        let ghost before = r@;
        r.push(last);
        assert(texts(before).len() == before.len());
        assert(stripped(raw).len() == raw.len());
        assert(texts(r@).len() == r@.len());
        assert forall|k: int| 0 <= k < r@.len() implies #[trigger] texts(r@)[k]
            == lines_of(s@)[k] by {
            if k < before.len() {
                assert(texts(before)[k] == stripped(raw)[k]);
            }
        }
        assert(texts(r@) =~= lines_of(s@));
    } else {
        assert(texts(r@) =~= lines_of(s@));
    }
    r
}

/// `user_pref("key", value);` for one preference.
pub fn pref_line_of(c: &UserchromeConfig) -> (r: String)
    ensures
        r@ == pref_line(c@),
{
    let mut r = String::from_str("user_pref(\"");
    r.append(c.key.as_str());
    r.append("\", ");
    if c.raw {
        r.append(c.value.as_str());
    } else {
        r.append("\"");
        r.append(c.value.as_str());
        r.append("\"");
    }
    r.append(");");
    r
}

/// The stylesheet line followed by one line per preference, in order.
pub fn generate_lines(prefs: &Vec<UserchromeConfig>) -> (r: Vec<String>)
    ensures
        texts(r@) == generated_lines(config_views(prefs@)),
{
    let mut r: Vec<String> = Vec::new();
    r.push(String::from_str(STYLESHEET_LINE));
    let mut k: usize = 0;
    while k < prefs.len()
        invariant
            k <= prefs@.len(),
            texts(r@) == generated_lines(config_views(prefs@.subrange(0, k as int))),
        decreases prefs.len() - k,
    {
        let line = pref_line_of(&prefs[k]);
        let ghost before = r@;
        let ghost sub = prefs@.subrange(0, k as int);
        r.push(line);
        k = k + 1;
        proof {
            let next = prefs@.subrange(0, k as int);
            assert(next =~= sub.push(prefs@[k - 1]));
            assert(config_views(next) =~= config_views(sub).push(prefs@[k - 1]@));
            let lines = config_views(next).map_values(|c: UserchromeConfigView| pref_line(c));
            assert(lines =~= config_views(sub).map_values(|c: UserchromeConfigView| pref_line(c)).push(line@));
            assert(texts(r@) =~= texts(before).push(line@));
            assert(texts(r@) =~= generated_lines(config_views(next)));
        }
    }
    assert(prefs@.subrange(0, k as int) =~= prefs@);
    r
}

/// The first position of `t` in `ls`.
pub fn find_line(ls: &Vec<String>, t: &String) -> (r: Option<usize>)
    ensures
        match r {
            Some(i) => i < ls@.len() && first_index(texts(ls@), t@) == Some(i as int),
            None => first_index(texts(ls@), t@) is None,
        },
{
    reveal(first_index);
    let ghost v = texts(ls@);
    let mut k: usize = 0;
    while k < ls.len()
        invariant
            k <= ls@.len(),
            v == texts(ls@),
            forall|j: int| 0 <= j < k ==> v[j] != t@,
        decreases ls.len() - k,
    {
        if ls[k] == *t {
            assert(v[k as int] == t@);
            proof {
                lemma_first_index_at(v, t@, k as int);
            }
            return Some(k);
        }
        k = k + 1;
    }
    reveal(first_index);
    None
}

/// The lines joined by line feeds, ending in exactly one line feed.
pub fn join_finished(ls: &Vec<String>) -> (r: String)
    ensures
        r@ == finished(texts(ls@)),
{
    let ghost v = texts(ls@);
    let mut n = ls.len();
    if n > 0 && ls[n - 1].as_str().unicode_len() == 0 {
        n = n - 1;
    }
    let ghost target = if ls@.len() > 0 && v.last().len() == 0 {
        v.drop_last()
    } else {
        v
    };
    assert(target =~= v.subrange(0, n as int));
    let mut r = String::new();
    let mut k: usize = 0;
    assert(v.subrange(0, 0) =~= Seq::<Seq<char>>::empty());
    while k < n
        invariant
            k <= n <= ls@.len(),
            v == texts(ls@),
            r@ == terminated(v.subrange(0, k as int)),
        decreases n - k,
    {
        r.append(ls[k].as_str());
        push_char(&mut r, '\n');
        assert(v.subrange(0, k + 1).drop_last() =~= v.subrange(0, k as int));
        k = k + 1;
    }
    r
}

/// Whether both markers are present, so that the block is rewritten in place
/// rather than appended.
pub fn has_managed_block(contents: &str) -> (r: bool)
    ensures
        r == (first_index(lines_of(contents@), START_LINE@) is Some && first_index(
            lines_of(contents@),
            END_LINE@,
        ) is Some),
{
    let lines = split_lines(contents);
    let start = find_line(&lines, &String::from_str(START_LINE));
    let end = find_line(&lines, &String::from_str(END_LINE));
    start.is_some() && end.is_some()
}

/// The lines of a preference file with the managed block rewritten to hold
/// `generated`.
pub fn patch_lines(lines: &Vec<String>, generated: &Vec<String>) -> (r: Vec<String>)
    ensures
        texts(r@) == patched_lines(texts(lines@), texts(generated@)),
{
    let ghost ls = texts(lines@);
    let ghost gen = texts(generated@);
    let start = find_line(lines, &String::from_str(START_LINE));
    let end = find_line(lines, &String::from_str(END_LINE));
    let mut out: Vec<String> = Vec::new();
    assert(texts(out@) =~= Seq::<Seq<char>>::empty());
    if start.is_some() && end.is_some() {
        let i = start.unwrap();
        let j = end.unwrap();
        let n = lines.len();
        assert(i < n);
        extend_with(&mut out, lines, 0, i + 1);
        extend_with(&mut out, generated, 0, generated.len());
        extend_with(&mut out, lines, j, lines.len());
        assert(gen.subrange(0, gen.len() as int) =~= gen);
        assert(texts(out@) =~= ls.subrange(0, i + 1) + gen + ls.subrange(j as int, ls.len() as int));
    } else {
        extend_with(&mut out, lines, 0, lines.len());
        assert(ls.subrange(0, ls.len() as int) =~= ls);
        push_line(&mut out, String::from_str(START_LINE));
        extend_with(&mut out, generated, 0, generated.len());
        assert(gen.subrange(0, gen.len() as int) =~= gen);
        push_line(&mut out, String::from_str(END_LINE));
        assert(texts(out@) =~= ls + seq![START_LINE@] + gen + seq![END_LINE@]);
    }
    out
}

/// Whether a preference file is kept under a backup name before it is
/// patched: where it existed and a new block is to be appended to it.
pub fn needs_backup(existed: bool, contents: &str) -> (r: bool)
    ensures
        r == (existed && !(first_index(lines_of(contents@), START_LINE@) is Some && first_index(
            lines_of(contents@),
            END_LINE@,
        ) is Some)),
{
    existed && !has_managed_block(contents)
}

/// Rewrites the managed block of a preference file's `contents` so that it
/// holds the stylesheet line and one line per preference; all else is kept.
pub fn patch_preferences(contents: &str, prefs: &Vec<UserchromeConfig>) -> (r: String)
    ensures
        r@ == patched(contents@, config_views(prefs@)),
{
    let lines = split_lines(contents);
    let generated = generate_lines(prefs);
    let out = patch_lines(&lines, &generated);
    join_finished(&out)
}

fn push_line(dst: &mut Vec<String>, line: String)
    ensures
        texts(final(dst)@) == texts(old(dst)@).push(line@),
{
    let ghost before = dst@;
    dst.push(line);
    assert(texts(dst@) =~= texts(before).push(line@));
}

/// Appends copies of `src[from..to]` to `dst`.
fn extend_with(dst: &mut Vec<String>, src: &Vec<String>, from: usize, to: usize)
    requires
        from <= to <= src@.len(),
    ensures
        texts(final(dst)@) == texts(old(dst)@) + texts(src@).subrange(from as int, to as int),
{
    let ghost start = texts(dst@);
    let mut k = from;
    while k < to
        invariant
            from <= k <= to <= src@.len(),
            texts(dst@) == start + texts(src@).subrange(from as int, k as int),
        decreases to - k,
    {
        let ghost before = dst@;
        dst.push(src[k].clone());
        assert(texts(dst@) =~= texts(before).push(src@[k as int]@));
        k = k + 1;
        assert(texts(dst@) =~= start + texts(src@).subrange(from as int, k as int));
    }
}

} // verus!
