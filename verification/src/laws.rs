//! Laws of the substitution engine, proved once and for all over the models.
//!
//! A template text is viewed as a run of segments: literal text between
//! markers and the keys whose markers stand there.  Over that view the round
//! trip law is proved: supplying every key of a template removes every marker.

use vstd::prelude::*;

use crate::error::Error;
use crate::replace::occurs;
use crate::replace::occurs_at;
use crate::replace::replace_all;
use crate::scan::scan_from;
use crate::scan::scan_keys_spec;
use crate::state::lemma_remove_key_contains;
use crate::state::remove_key;
use crate::template::TemplateModel;
use crate::template::apply_rec;
use crate::template::apply_spec;
use crate::template::marker;

verus! {

/// One segment of a template's text: literal text between markers, or a key
/// whose marker `${key}` stands at that place.
pub enum Seg {
    Lit(Seq<char>),
    Key(Seq<char>),
}

/// Text free of `$`, `{` and `}`: it can neither open nor close a marker.
pub open spec fn plain(s: Seq<char>) -> bool {
    forall|i: int| 0 <= i < s.len() ==> s[i] != '$' && s[i] != '{' && s[i] != '}'
}

/// The text a segment stands for.
pub open spec fn seg_text(g: Seg) -> Seq<char> {
    match g {
        Seg::Lit(l) => l,
        Seg::Key(k) => marker(k),
    }
}

/// A well-formed segment: its literal text or key name is plain.
pub open spec fn wf_seg(g: Seg) -> bool {
    match g {
        Seg::Lit(l) => plain(l),
        Seg::Key(k) => plain(k),
    }
}

/// The whole text of a segmented template.
pub open spec fn render(segs: Seq<Seg>) -> Seq<char>
    decreases segs.len(),
{
    if segs.len() == 0 {
        Seq::empty()
    } else {
        seg_text(segs[0]) + render(segs.drop_first())
    }
}

/// The keys of a segmented template, in left-to-right order.
pub open spec fn seg_keys(segs: Seq<Seg>) -> Seq<Seq<char>>
    decreases segs.len(),
{
    if segs.len() == 0 {
        Seq::empty()
    } else {
        match segs[0] {
            Seg::Key(k) => seq![k] + seg_keys(segs.drop_first()),
            Seg::Lit(_) => seg_keys(segs.drop_first()),
        }
    }
}

/// Every segment is well formed.
pub open spec fn wf_segs(segs: Seq<Seg>) -> bool {
    forall|i: int| 0 <= i < segs.len() ==> wf_seg(#[trigger] segs[i])
}

/// Replace every `Key(k)` segment by the literal `v`.
pub open spec fn subst(segs: Seq<Seg>, k: Seq<char>, v: Seq<char>) -> Seq<Seg>
    decreases segs.len(),
{
    if segs.len() == 0 {
        Seq::empty()
    } else {
        let head = if segs[0] == Seg::Key(k) {
            Seg::Lit(v)
        } else {
            segs[0]
        };
        seq![head] + subst(segs.drop_first(), k, v)
    }
}

/// Whether some pair carries the key `x`.
pub open spec fn pairs_contain(pairs: Seq<(Seq<char>, Seq<char>)>, x: Seq<char>) -> bool {
    exists|i: int| 0 <= i < pairs.len() && pairs[i].0 == x
}

/// The positions and characters of a marker text.
proof fn lemma_marker_index(k: Seq<char>)
    ensures
        marker(k).len() == k.len() + 3,
        marker(k)[0] == '$',
        marker(k)[1] == '{',
        marker(k)[k.len() as int + 2] == '}',
        forall|i: int| 0 <= i < k.len() ==> marker(k)[i + 2] == k[i],
{
    assert forall|i: int| 0 <= i < k.len() implies marker(k)[i + 2] == k[i] by {
        assert((seq!['$', '{'] + k)[i + 2] == k[i]);
    }
}

/// Replacement walks over a prefix that nowhere holds the pattern's first
/// character.
proof fn lemma_replace_skip(pre: Seq<char>, rest: Seq<char>, pat: Seq<char>, to: Seq<char>)
    requires
        pat.len() > 0,
        forall|i: int| 0 <= i < pre.len() ==> pre[i] != pat[0],
    ensures
        replace_all(pre + rest, pat, to) == pre + replace_all(rest, pat, to),
    decreases pre.len(),
{
    if pre.len() == 0 {
        assert(pre + rest =~= rest);
        assert(pre + replace_all(rest, pat, to) =~= replace_all(rest, pat, to));
    } else {
        let s = pre + rest;
        assert(s[0] == pre[0]);
        if s.len() < pat.len() {
            assert(rest.len() < pat.len());
            assert(replace_all(rest, pat, to) == rest);
        } else {
            assert(s.subrange(0, pat.len() as int) != pat) by {
                assert(s.subrange(0, pat.len() as int)[0] == s[0]);
            }
            lemma_replace_skip(pre.drop_first(), rest, pat, to);
            assert(s.skip(1) =~= pre.drop_first() + rest);
            assert(replace_all(s, pat, to) == seq![s[0]] + replace_all(s.skip(1), pat, to));
            assert(seq![pre[0]] + (pre.drop_first() + replace_all(rest, pat, to)) =~= pre
                + replace_all(rest, pat, to));
        }
    }
}

/// Replacement at a marker of the searched key substitutes and moves on.
proof fn lemma_replace_at_marker(k: Seq<char>, rest: Seq<char>, to: Seq<char>)
    ensures
        replace_all(marker(k) + rest, marker(k), to) == to + replace_all(rest, marker(k), to),
{
    lemma_marker_index(k);
    let s = marker(k) + rest;
    assert(s.subrange(0, marker(k).len() as int) =~= marker(k));
    assert(s.skip(marker(k).len() as int) =~= rest);
}

/// Replacement walks over a marker of a different key without touching it.
proof fn lemma_replace_skip_marker(k2: Seq<char>, rest: Seq<char>, k: Seq<char>, to: Seq<char>)
    requires
        plain(k),
        plain(k2),
        k != k2,
    ensures
        replace_all(marker(k2) + rest, marker(k), to) == marker(k2) + replace_all(
            rest,
            marker(k),
            to,
        ),
{
    lemma_marker_index(k);
    lemma_marker_index(k2);
    let s = marker(k2) + rest;
    let pat = marker(k);
    let m = pat.len() as int;
    assert(forall|i: int| 0 <= i < marker(k2).len() ==> s[i] == marker(k2)[i]);
    if s.len() < m {
        assert(rest.len() < m);
        assert(replace_all(rest, pat, to) == rest);
    } else {
        let w = s.subrange(0, m);
        assert(forall|i: int| 0 <= i < m ==> w[i] == s[i]);
        if k.len() == k2.len() {
            assert(!(k =~= k2));
            let idx = choose|idx: int| 0 <= idx < k.len() && k[idx] != k2[idx];
            assert(s[idx + 2] == k2[idx]);
            assert(pat[idx + 2] == k[idx]);
            assert(w != pat) by {
                assert(w[idx + 2] == s[idx + 2]);
            }
        } else if k.len() < k2.len() {
            let p = k.len() + 2;
            assert(s[p as int] == k2[k.len() as int]);
            assert(pat[p as int] == '}');
            assert(k2[k.len() as int] != '}');
            assert(w != pat) by {
                assert(w[p as int] == s[p as int]);
            }
        } else {
            let p = k2.len() + 2;
            assert(s[p as int] == '}');
            assert(pat[p as int] == k[k2.len() as int]);
            assert(k[k2.len() as int] != '}');
            assert(w != pat) by {
                assert(w[p as int] == s[p as int]);
            }
        }
        assert(replace_all(s, pat, to) == seq![s[0]] + replace_all(s.skip(1), pat, to));
        let tail = seq!['{'] + k2 + seq!['}'];
        assert(s.skip(1) =~= tail + rest) by {
            assert(marker(k2) =~= seq!['$'] + tail);
        }
        assert(forall|i: int| 0 <= i < tail.len() ==> tail[i] != pat[0]) by {
            assert(tail[0] == '{');
            assert(tail[k2.len() as int + 1] == '}');
            assert(forall|i: int| 0 <= i < k2.len() ==> tail[i + 1] == k2[i]) by {
                assert(forall|i: int|
                    0 <= i < k2.len() ==> (seq!['{'] + k2)[i + 1] == k2[i]);
            }
            assert(forall|i: int| 0 <= i < tail.len() ==> tail[i] != '$') by {
                assert forall|i: int| 0 <= i < tail.len() implies tail[i] != '$' by {
                    if 1 <= i < k2.len() + 1 {
                        assert(tail[i] == k2[i - 1]);
                    }
                }
            }
        }
        lemma_replace_skip(tail, rest, pat, to);
        assert(seq![s[0]] + (tail + replace_all(rest, pat, to)) =~= marker(k2) + replace_all(
            rest,
            pat,
            to,
        ));
    }
}

/// Substituting a key's text into a rendered template is exactly the textual
/// replacement of that key's marker.
proof fn lemma_render_subst(segs: Seq<Seg>, k: Seq<char>, v: Seq<char>)
    requires
        wf_segs(segs),
        plain(k),
    ensures
        replace_all(render(segs), marker(k), v) == render(subst(segs, k, v)),
    decreases segs.len(),
{
    lemma_marker_index(k);
    if segs.len() == 0 {
        assert(replace_all(render(segs), marker(k), v) == render(segs));
        assert(render(subst(segs, k, v)) == Seq::<char>::empty());
    } else {
        let rest = segs.drop_first();
        assert(wf_segs(rest)) by {
            assert forall|i: int| 0 <= i < rest.len() implies wf_seg(rest[i]) by {
                assert(rest[i] == segs[i + 1]);
            }
        }
        lemma_render_subst(rest, k, v);
        let sub = subst(segs, k, v);
        assert(sub.drop_first() =~= subst(rest, k, v));
        assert(wf_seg(segs[0]));
        match segs[0] {
            Seg::Lit(l) => {
                lemma_replace_skip(l, render(rest), marker(k), v);
                assert(sub[0] == segs[0]);
                assert(render(sub) == l + render(subst(rest, k, v)));
            },
            Seg::Key(k2) => {
                if k2 == k {
                    lemma_replace_at_marker(k, render(rest), v);
                    assert(sub[0] == Seg::Lit(v));
                    assert(render(sub) == v + render(subst(rest, k, v)));
                } else {
                    lemma_replace_skip_marker(k2, render(rest), k, v);
                    assert(segs[0] != Seg::Key(k));
                    assert(sub[0] == Seg::Key(k2));
                    assert(render(sub) == marker(k2) + render(subst(rest, k, v)));
                }
            },
        }
    }
}

/// Substitution removes exactly the substituted key from the key list.
proof fn lemma_seg_keys_subst(segs: Seq<Seg>, k: Seq<char>, v: Seq<char>)
    ensures
        seg_keys(subst(segs, k, v)) == remove_key(seg_keys(segs), k),
    decreases segs.len(),
{
    if segs.len() == 0 {
        assert(seg_keys(subst(segs, k, v)) =~= remove_key(seg_keys(segs), k));
    } else {
        let rest = segs.drop_first();
        lemma_seg_keys_subst(rest, k, v);
        let sub = subst(segs, k, v);
        assert(sub.drop_first() =~= subst(rest, k, v));
        match segs[0] {
            Seg::Lit(_) => {
                assert(sub[0] == segs[0]);
                assert(seg_keys(segs) == seg_keys(rest));
                assert(seg_keys(sub) == seg_keys(subst(rest, k, v)));
            },
            Seg::Key(k2) => {
                let ks = seg_keys(segs);
                assert(ks == seq![k2] + seg_keys(rest));
                assert(ks[0] == k2);
                assert(ks.drop_first() =~= seg_keys(rest));
                if k2 == k {
                    assert(sub[0] == Seg::Lit(v));
                    assert(seg_keys(sub) == seg_keys(subst(rest, k, v)));
                    assert(remove_key(ks, k) == remove_key(seg_keys(rest), k));
                } else {
                    assert(segs[0] != Seg::Key(k));
                    assert(sub[0] == Seg::Key(k2));
                    assert(seg_keys(sub) == seq![k2] + seg_keys(subst(rest, k, v)));
                    assert(remove_key(ks, k) == seq![k2] + remove_key(seg_keys(rest), k));
                }
            },
        }
    }
}

/// Substitution of plain text keeps the segments well formed.
proof fn lemma_wf_subst(segs: Seq<Seg>, k: Seq<char>, v: Seq<char>)
    requires
        wf_segs(segs),
        plain(v),
    ensures
        wf_segs(subst(segs, k, v)),
    decreases segs.len(),
{
    if segs.len() == 0 {
    } else {
        let rest = segs.drop_first();
        assert(wf_segs(rest)) by {
            assert forall|i: int| 0 <= i < rest.len() implies wf_seg(rest[i]) by {
                assert(rest[i] == segs[i + 1]);
            }
        }
        lemma_wf_subst(rest, k, v);
        let sub = subst(segs, k, v);
        assert(sub.drop_first() =~= subst(rest, k, v));
        assert(wf_seg(segs[0]));
        assert(wf_seg(sub[0]));
        assert forall|i: int| 0 <= i < sub.len() implies wf_seg(sub[i]) by {
            if i > 0 {
                assert(sub[i] == subst(rest, k, v)[i - 1]);
            }
        }
    }
}

/// A rendered template without keys is plain text.
proof fn lemma_render_plain(segs: Seq<Seg>)
    requires
        wf_segs(segs),
        seg_keys(segs).len() == 0,
    ensures
        plain(render(segs)),
    decreases segs.len(),
{
    if segs.len() == 0 {
    } else {
        let rest = segs.drop_first();
        assert(wf_segs(rest)) by {
            assert forall|i: int| 0 <= i < rest.len() implies wf_seg(rest[i]) by {
                assert(rest[i] == segs[i + 1]);
            }
        }
        match segs[0] {
            Seg::Key(_) => {
                assert(seg_keys(segs).len() >= 1);
            },
            Seg::Lit(l) => {
                assert(seg_keys(rest).len() == 0);
                lemma_render_plain(rest);
                assert(wf_seg(segs[0]));
                assert forall|i: int| 0 <= i < render(segs).len() implies render(segs)[i] != '$'
                    && render(segs)[i] != '{' && render(segs)[i] != '}' by {
                    if i < l.len() {
                        assert(render(segs)[i] == l[i]);
                    } else {
                        assert(render(segs)[i] == render(rest)[i - l.len()]);
                    }
                }
            },
        }
    }
}

/// Substituting every key of a well-formed template, each exactly once and by
/// plain text, succeeds and leaves only plain text.
proof fn lemma_subst_all(segs: Seq<Seg>, optional: bool, pairs: Seq<(Seq<char>, Seq<char>)>)
    requires
        wf_segs(segs),
        forall|i: int, j: int| 0 <= i < j < pairs.len() ==> pairs[i].0 != pairs[j].0,
        forall|x: Seq<char>| #[trigger] seg_keys(segs).contains(x) <==> pairs_contain(pairs, x),
        forall|i: int| 0 <= i < pairs.len() ==> plain((#[trigger] pairs[i]).0) && plain(
            pairs[i].1,
        ),
    ensures
        ({
            let r = apply_rec(render(segs), seg_keys(segs), optional, pairs);
            r matches Ok(out) && plain(out)
        }),
    decreases pairs.len(),
{
    if pairs.len() == 0 {
        assert(seg_keys(segs).len() == 0) by {
            if seg_keys(segs).len() > 0 {
                assert(seg_keys(segs).contains(seg_keys(segs)[0]));
            }
        }
        lemma_render_plain(segs);
    } else {
        let k = pairs[0].0;
        let v = pairs[0].1;
        assert(pairs_contain(pairs, k));
        assert(seg_keys(segs).contains(k));
        let segs2 = subst(segs, k, v);
        let rest = pairs.drop_first();
        lemma_render_subst(segs, k, v);
        lemma_seg_keys_subst(segs, k, v);
        lemma_wf_subst(segs, k, v);
        assert forall|x: Seq<char>| #[trigger] seg_keys(segs2).contains(x) <==> pairs_contain(
            rest,
            x,
        ) by {
            lemma_remove_key_contains(seg_keys(segs), k, x);
            if pairs_contain(rest, x) {
                let i = choose|i: int| 0 <= i < rest.len() && rest[i].0 == x;
                assert(rest[i] == pairs[i + 1]);
                assert(pairs_contain(pairs, x));
                assert(pairs[0].0 != pairs[i + 1].0);
                assert(seg_keys(segs).contains(x) && x != k);
            }
            if seg_keys(segs2).contains(x) {
                assert(seg_keys(segs).contains(x) && x != k);
                assert(pairs_contain(pairs, x));
                let i = choose|i: int| 0 <= i < pairs.len() && pairs[i].0 == x;
                assert(i != 0);
                assert(rest[i - 1] == pairs[i]);
                assert(pairs_contain(rest, x));
            }
        }
        assert(forall|i: int, j: int| 0 <= i < j < rest.len() ==> rest[i].0 != rest[j].0) by {
            assert forall|i: int, j: int| 0 <= i < j < rest.len() implies rest[i].0
                != rest[j].0 by {
                assert(rest[i] == pairs[i + 1]);
                assert(rest[j] == pairs[j + 1]);
            }
        }
        assert(forall|i: int|
            0 <= i < rest.len() ==> plain((#[trigger] rest[i]).0) && plain(rest[i].1)) by {
            assert forall|i: int| 0 <= i < rest.len() implies plain((#[trigger] rest[i]).0)
                && plain(rest[i].1) by {
                assert(rest[i] == pairs[i + 1]);
            }
        }
        lemma_subst_all(segs2, optional, rest);
        assert(apply_rec(render(segs), seg_keys(segs), optional, pairs) == apply_rec(
            render(segs2),
            seg_keys(segs2),
            optional,
            rest,
        ));
    }
}

/// Round trip: a template rendered from well-formed segments, applied with
/// arguments whose keys are unique and cover the template's keys exactly and
/// whose values are plain text, resolves successfully into an output in which
/// no supplied key's marker occurs.
pub proof fn lemma_round_trip(
    t: TemplateModel,
    segs: Seq<Seg>,
    pairs: Seq<(Seq<char>, Seq<char>)>,
)
    requires
        t.data == render(segs),
        t.keys == seg_keys(segs),
        wf_segs(segs),
        forall|i: int, j: int| 0 <= i < j < pairs.len() ==> pairs[i].0 != pairs[j].0,
        forall|x: Seq<char>| #[trigger] seg_keys(segs).contains(x) <==> pairs_contain(pairs, x),
        forall|i: int| 0 <= i < pairs.len() ==> plain((#[trigger] pairs[i]).0) && plain(
            pairs[i].1,
        ),
    ensures
        ({
            let r = apply_spec(t, pairs);
            r matches Ok(out) && (forall|i: int|
                0 <= i < pairs.len() ==> !occurs(out, marker(#[trigger] pairs[i].0)))
        }),
{
    lemma_subst_all(segs, t.opts.optional, pairs);
    if t.keys.len() == 0 {
        assert(pairs.len() == 0) by {
            if pairs.len() > 0 {
                assert(pairs_contain(pairs, pairs[0].0));
                assert(seg_keys(segs).contains(pairs[0].0));
            }
        }
        assert(apply_spec(t, pairs) == Ok::<Seq<char>, Error>(t.data));
    } else {
        assert(apply_spec(t, pairs) == apply_rec(render(segs), seg_keys(segs), t.opts.optional, pairs));
    }
    let r = apply_spec(t, pairs);
    assert(r matches Ok(out) && plain(out)) by {
        if t.keys.len() == 0 {
            lemma_render_plain(segs);
        }
    }
    let out = r->Ok_0;
    assert forall|i: int| 0 <= i < pairs.len() implies !occurs(
        out,
        marker(#[trigger] pairs[i].0),
    ) by {
        lemma_marker_index(pairs[i].0);
        if occurs(out, marker(pairs[i].0)) {
            let p = choose|p: int| occurs_at(out, marker(pairs[i].0), p);
            assert(out.subrange(p, p + marker(pairs[i].0).len())[0] == out[p]);
            assert(out[p] == '$');
        }
    }
}

/// The scanner passes over characters that can neither open nor close a
/// marker without changing its state.
proof fn lemma_scan_plain_chunk(
    s: Seq<char>,
    i: int,
    m: int,
    open: Option<int>,
    closed: int,
    acc: Seq<Seq<char>>,
)
    requires
        0 <= i,
        0 <= m,
        i + m <= s.len(),
        forall|j: int| i <= j < i + m ==> s[j] != '$' && s[j] != '{' && s[j] != '}',
    ensures
        scan_from(s, i, open, closed, acc) == scan_from(s, i + m, open, closed, acc),
    decreases m,
{
    if m > 0 {
        assert(s[i] != '$' && s[i] != '{' && s[i] != '}');
        lemma_scan_plain_chunk(s, i + 1, m - 1, open, closed, acc);
    }
}

/// Scanning the rendered segments from a neutral scanner state appends
/// exactly their keys.
proof fn lemma_scan_segments(
    s: Seq<char>,
    i: int,
    closed: int,
    acc: Seq<Seq<char>>,
    segs: Seq<Seg>,
)
    requires
        wf_segs(segs),
        0 <= i <= s.len(),
        s.skip(i) == render(segs),
    ensures
        scan_from(s, i, None, closed, acc) == Ok::<Seq<Seq<char>>, Error>(acc + seg_keys(segs)),
    decreases segs.len(),
{
    if segs.len() == 0 {
        assert(s.skip(i).len() == 0);
        assert(i == s.len());
        assert(acc + seg_keys(segs) =~= acc);
    } else {
        let rest = segs.drop_first();
        assert(wf_segs(rest)) by {
            assert forall|q: int| 0 <= q < rest.len() implies wf_seg(rest[q]) by {
                assert(rest[q] == segs[q + 1]);
            }
        }
        let tail_txt = render(rest);
        assert(s.skip(i) == seg_text(segs[0]) + tail_txt);
        assert(wf_seg(segs[0]));
        match segs[0] {
            Seg::Lit(l) => {
                let w = l.len() as int;
                assert(forall|q: int| 0 <= q < w ==> s[i + q] == l[q]) by {
                    assert(forall|q: int| 0 <= q < w ==> s.skip(i)[q] == l[q]);
                }
                assert(forall|j: int| i <= j < i + w ==> s[j] != '$' && s[j] != '{' && s[j]
                    != '}') by {
                    assert forall|j: int| i <= j < i + w implies s[j] != '$' && s[j] != '{'
                        && s[j] != '}' by {
                        assert(s[j] == l[j - i]);
                    }
                }
                lemma_scan_plain_chunk(s, i, w, None, closed, acc);
                assert(s.skip(i + w) =~= tail_txt) by {
                    assert(forall|q: int| 0 <= q < tail_txt.len() ==> s.skip(i)[w + q]
                        == tail_txt[q]);
                    assert(forall|q: int|
                        0 <= q < tail_txt.len() ==> #[trigger] s.skip(i + w)[q] == s[i + w + q]);
                }
                lemma_scan_segments(s, i + w, closed, acc, rest);
                assert(seg_keys(segs) == seg_keys(rest));
            },
            Seg::Key(k) => {
                lemma_marker_index(k);
                let w = k.len() as int + 3;
                assert(forall|q: int| 0 <= q < w ==> s[i + q] == marker(k)[q]) by {
                    assert(forall|q: int| 0 <= q < w ==> s.skip(i)[q] == marker(k)[q]);
                }
                assert(s[i] == '$');
                assert(s[i + 1] == '{');
                assert(i + w <= s.len());
                assert(scan_from(s, i, None, closed, acc) == scan_from(
                    s,
                    i + 2,
                    Some(i),
                    closed,
                    acc,
                ));
                assert(forall|j: int| i + 2 <= j < i + 2 + k.len() ==> s[j] != '$' && s[j] != '{'
                    && s[j] != '}') by {
                    assert forall|j: int| i + 2 <= j < i + 2 + k.len() implies s[j] != '$' && s[j]
                        != '{' && s[j] != '}' by {
                        assert(s[j] == marker(k)[j - i]);
                        assert(marker(k)[(j - i - 2) + 2] == k[j - i - 2]);
                    }
                }
                lemma_scan_plain_chunk(s, i + 2, k.len() as int, Some(i), closed, acc);
                let j = i + 2 + k.len() as int;
                assert(s[j] == '}');
                assert(scan_from(s, j, Some(i), closed, acc) == scan_from(
                    s,
                    j + 1,
                    None,
                    closed + 1,
                    acc.push(s.subrange(i + 2, j)),
                ));
                assert(s.subrange(i + 2, j) =~= k);
                assert(s.skip(j + 1) =~= tail_txt) by {
                    assert(forall|q: int| 0 <= q < tail_txt.len() ==> s.skip(i)[w + q]
                        == tail_txt[q]);
                    assert(forall|q: int|
                        0 <= q < tail_txt.len() ==> #[trigger] s.skip(j + 1)[q] == s[j + 1 + q]);
                }
                lemma_scan_segments(s, j + 1, closed + 1, acc.push(k), rest);
                assert(acc.push(k) + seg_keys(rest) =~= acc + (seq![k] + seg_keys(rest)));
                assert(seg_keys(segs) == seq![k] + seg_keys(rest));
            },
        }
    }
}

/// The scanner agrees with the segment view: scanning a well-formed rendered
/// template succeeds and finds exactly its keys, in left-to-right order.
pub proof fn lemma_scan_render(segs: Seq<Seg>)
    requires
        wf_segs(segs),
    ensures
        scan_keys_spec(render(segs)) == Ok::<Seq<Seq<char>>, Error>(seg_keys(segs)),
{
    let s = render(segs);
    assert(s.skip(0) =~= s);
    lemma_scan_segments(s, 0, 0, Seq::empty(), segs);
    assert(Seq::<Seq<char>>::empty() + seg_keys(segs) =~= seg_keys(segs));
}

/// Empty-template identity: a template accepted with zero markers under the
/// empty-template policy returns its text unchanged, whatever arguments are
/// supplied.
pub proof fn lemma_empty_template_identity(
    t: TemplateModel,
    pairs: Seq<(Seq<char>, Seq<char>)>,
)
    requires
        t.keys.len() == 0,
        t.opts.empty,
    ensures
        apply_spec(t, pairs) == Ok::<Seq<char>, Error>(t.data),
{
}

/// Cloning before applying changes nothing: two templates with the same text,
/// keys and policy give the same result on the same arguments.
pub proof fn lemma_clone_apply(
    t1: TemplateModel,
    t2: TemplateModel,
    pairs: Seq<(Seq<char>, Seq<char>)>,
)
    requires
        t1.data == t2.data,
        t1.keys == t2.keys,
        t1.opts == t2.opts,
    ensures
        apply_spec(t1, pairs) == apply_spec(t2, pairs),
{
}

} // verus!
