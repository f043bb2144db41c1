//! Altium's overline-marker syntax.
//!
//! - A backslash `\` after a character marks **that character** as overlined.
//! - Consecutive overlined characters render as a continuous bar.
//!
//! ```text
//! "Reset"      -> "Reset"
//! "RESET\"     -> "RESET" (last char overlined)
//! "R\E\S\E\T\" -> "RESET" (every char overlined -> one continuous bar)
//! "R\ESET"     -> "R" overlined, "ESET" plain
//! ```

use vstd::prelude::*;

use crate::text::{chars_of, string_from_chars};

verus! {

/// One run of identically-decorated characters.
#[derive(Debug, Clone, PartialEq)]
pub struct Segment {
    pub text: String,
    pub overline: bool,
}

/// The characters of `s` from `i` on, each with whether a backslash follows
/// it; backslashes themselves are dropped.
pub open spec fn decorated_from(s: Seq<char>, i: int) -> Seq<(char, bool)>
    decreases s.len() - i,
{
    if i < 0 || i >= s.len() {
        seq![]
    } else if s[i] == '\\' {
        decorated_from(s, i + 1)
    } else {
        seq![(s[i], i + 1 < s.len() && s[i + 1] == '\\')] + decorated_from(s, i + 1)
    }
}

/// Decorated characters grouped into maximal runs of equal decoration.
pub open spec fn group_runs(d: Seq<(char, bool)>) -> Seq<(Seq<char>, bool)>
    decreases d.len(),
{
    if d.len() == 0 {
        seq![]
    } else {
        let g = group_runs(d.drop_last());
        let (c, ol) = d.last();
        if g.len() > 0 && g.last().1 == ol {
            g.update(g.len() - 1, (g.last().0.push(c), ol))
        } else {
            g.push((seq![c], ol))
        }
    }
}

/// The runs `parse` gives for a text.
pub open spec fn spec_overline_runs(s: Seq<char>) -> Seq<(Seq<char>, bool)> {
    group_runs(decorated_from(s, 0))
}

pub open spec fn segments_view(v: Seq<Segment>) -> Seq<(Seq<char>, bool)> {
    v.map_values(|g: Segment| (g.text@, g.overline))
}

/// Parse `input` into runs of `(text, overline)`. Adjacent runs always have
/// different `overline` values.
pub fn parse(input: &str) -> (r: Vec<Segment>)
    ensures
        segments_view(r@) == spec_overline_runs(input@),
{
    let chars = chars_of(input);
    let n = chars.len();
    let mut decorated: Vec<(char, bool)> = Vec::new();
    let mut i: usize = 0;
    while i < n
        invariant
            n == chars@.len(),
            i <= n,
            decorated_from(chars@, 0) == decorated@ + decorated_from(chars@, i as int),
        decreases n - i,
    {
        let c = chars[i];
        if c == '\\' {
            i += 1;
            continue;
        }
        let overlined = i + 1 < n && chars[i + 1] == '\\';
        let ghost before = decorated@;
        decorated.push((c, overlined));
        assert(before + decorated_from(chars@, i as int) =~= decorated@ + decorated_from(chars@, i + 1));
        i += 1;
    }
    assert(decorated@ + Seq::<(char, bool)>::empty() =~= decorated@);
    let mut out: Vec<Segment> = Vec::new();
    let mut cur: Vec<char> = Vec::new();
    let mut cur_ol = false;
    let mut k: usize = 0;
    while k < decorated.len()
        invariant
            k <= decorated@.len(),
            k == 0 ==> cur@.len() == 0,
            k == 0 ==> out@.len() == 0,
            k > 0 ==> segments_view(out@).push((cur@, cur_ol)) == group_runs(decorated@.take(k as int)),
            k > 0 ==> cur@.len() > 0,
            k > 0 ==> (out@.len() > 0 ==> out@.last().overline != cur_ol),
        decreases decorated@.len() - k,
    {
        let (c, ol) = decorated[k];
        assert(decorated@.take(k + 1).drop_last() =~= decorated@.take(k as int));
        assert(decorated@.take(k + 1).last() == (c, ol));
        assert(group_runs(Seq::<(char, bool)>::empty()) =~= Seq::<(Seq<char>, bool)>::empty());
        let ghost prev = segments_view(out@);
        if k > 0 && ol == cur_ol {
            let ghost old_cur = cur@;
            let ghost g = group_runs(decorated@.take(k as int));
            assert(g == prev.push((old_cur, cur_ol)));
            assert(g.last() == (old_cur, cur_ol));
            cur.push(c);
            assert(group_runs(decorated@.take(k + 1)) == g.update(g.len() - 1, (g.last().0.push(c), ol)));
            assert(cur@ == old_cur.push(c));
            assert(g.update(g.len() - 1, (old_cur.push(c), ol)) =~= prev.push((cur@, cur_ol)));
            assert(segments_view(out@) == prev);
        } else {
            let ghost g = group_runs(decorated@.take(k as int));
            let ghost old_ol = cur_ol;
            proof {
                if k > 0 {
                    assert(g == prev.push((cur@, cur_ol)));
                    assert(g.last().1 == cur_ol);
                    assert(g.last().1 != ol);
                } else {
                    assert(decorated@.take(k as int) =~= Seq::<(char, bool)>::empty());
                    assert(g.len() == 0);
                }
                assert(group_runs(decorated@.take(k + 1)) == g.push((seq![c], ol)));
            }
            if k > 0 {
                let text = string_from_chars(&cur);
                let seg = Segment { text, overline: cur_ol };
                out.push(seg);
                assert(out@.last().overline == cur_ol);
                assert(segments_view(out@) =~= prev.push((cur@, cur_ol)));
            }
            cur = Vec::new();
            cur.push(c);
            cur_ol = ol;
            assert(cur@ =~= seq![c]);
            assert(segments_view(out@) == g);
            assert(segments_view(out@).push((cur@, cur_ol)) =~= group_runs(decorated@.take(k + 1)));
        }
        k += 1;
    }
    assert(decorated@.take(decorated@.len() as int) =~= decorated@);
    if k > 0 {
        let text = string_from_chars(&cur);
        let ghost prev = segments_view(out@);
        out.push(Segment { text, overline: cur_ol });
        assert(segments_view(out@) =~= prev.push((cur@, cur_ol)));
    } else {
        assert(segments_view(out@) =~= Seq::<(Seq<char>, bool)>::empty());
    }
    out
}

/// Adjacent runs differ in decoration, and no run is empty.
pub proof fn lemma_runs_alternate(d: Seq<(char, bool)>)
    ensures
        forall|i: int| 0 <= i < group_runs(d).len() - 1 ==> #[trigger] group_runs(d)[i].1 != group_runs(d)[i + 1].1,
        forall|i: int| 0 <= i < group_runs(d).len() ==> (#[trigger] group_runs(d)[i]).0.len() > 0,
    decreases d.len(),
{
    if d.len() > 0 {
        lemma_runs_alternate(d.drop_last());
        let g = group_runs(d.drop_last());
        let (c, ol) = d.last();
        let r = group_runs(d);
        if g.len() > 0 && g.last().1 == ol {
            assert(r == g.update(g.len() - 1, (g.last().0.push(c), ol)));
            assert forall|i: int| 0 <= i < r.len() - 1 implies #[trigger] r[i].1 != r[i + 1].1 by {
                assert(r[i] == g[i]);
            }
            assert forall|i: int| 0 <= i < r.len() implies (#[trigger] r[i]).0.len() > 0 by {
                if i < g.len() - 1 {
                    assert(r[i] == g[i]);
                }
            }
        } else {
            assert(r == g.push((seq![c], ol)));
            assert forall|i: int| 0 <= i < r.len() - 1 implies #[trigger] r[i].1 != r[i + 1].1 by {
                assert(r[i] == g[i]);
                if i + 1 < g.len() {
                    assert(r[i + 1] == g[i + 1]);
                }
            }
            assert forall|i: int| 0 <= i < r.len() implies (#[trigger] r[i]).0.len() > 0 by {
                if i < g.len() {
                    assert(r[i] == g[i]);
                }
            }
        }
    }
}

/// The text with its backslashes removed.
pub open spec fn without_backslashes(s: Seq<char>) -> Seq<char>
    decreases s.len(),
{
    if s.len() == 0 {
        s
    } else if s.last() == '\\' {
        without_backslashes(s.drop_last())
    } else {
        without_backslashes(s.drop_last()).push(s.last())
    }
}

/// The concatenated texts of runs.
pub open spec fn runs_text(g: Seq<(Seq<char>, bool)>) -> Seq<char>
    decreases g.len(),
{
    if g.len() == 0 {
        seq![]
    } else {
        runs_text(g.drop_last()) + g.last().0
    }
}

pub open spec fn chars_of_decorated(d: Seq<(char, bool)>) -> Seq<char> {
    d.map_values(|x: (char, bool)| x.0)
}

proof fn lemma_runs_text(d: Seq<(char, bool)>)
    ensures
        runs_text(group_runs(d)) == chars_of_decorated(d),
    decreases d.len(),
{
    if d.len() > 0 {
        lemma_runs_text(d.drop_last());
        let g = group_runs(d.drop_last());
        let (c, ol) = d.last();
        assert(chars_of_decorated(d) =~= chars_of_decorated(d.drop_last()).push(c));
        if g.len() > 0 && g.last().1 == ol {
            let g2 = g.update(g.len() - 1, (g.last().0.push(c), ol));
            assert(g2.drop_last() =~= g.drop_last());
            assert(runs_text(g) == runs_text(g.drop_last()) + g.last().0);
            assert(runs_text(g2) =~= runs_text(g).push(c));
        } else {
            assert(g.push((seq![c], ol)).drop_last() =~= g);
            assert(runs_text(g.push((seq![c], ol))) =~= runs_text(g).push(c));
        }
    }
}

proof fn lemma_decorated_chars(s: Seq<char>, i: int)
    requires
        0 <= i <= s.len(),
    ensures
        chars_of_decorated(decorated_from(s, i)) == without_backslashes(s.skip(i)),
    decreases s.len() - i,
{
    if i < s.len() {
        lemma_decorated_chars(s, i + 1);
        lemma_without_backslashes_front(s.skip(i));
        assert(s.skip(i).drop_first() =~= s.skip(i + 1));
        let d = decorated_from(s, i + 1);
        if s[i] != '\\' {
            assert(chars_of_decorated(seq![(s[i], i + 1 < s.len() && s[i + 1] == '\\')] + d) =~= seq![s[i]] + chars_of_decorated(d));
        }
    } else {
        assert(s.skip(i) =~= Seq::<char>::empty());
    }
}

proof fn lemma_without_backslashes_front(s: Seq<char>)
    requires
        s.len() > 0,
    ensures
        without_backslashes(s) == if s[0] == '\\' {
            without_backslashes(s.drop_first())
        } else {
            seq![s[0]] + without_backslashes(s.drop_first())
        },
    decreases s.len(),
{
    if s.len() == 1 {
        assert(s.drop_last() =~= Seq::<char>::empty());
        assert(s.drop_first() =~= Seq::<char>::empty());
    } else {
        lemma_without_backslashes_front(s.drop_last());
        assert(s.drop_last().drop_first() =~= s.drop_first().drop_last());
        assert(s.drop_first().last() == s.last());
        if s[0] != '\\' {
            let w = without_backslashes(s.drop_first().drop_last());
            if s.last() != '\\' {
                assert(seq![s[0]] + w.push(s.last()) =~= (seq![s[0]] + w).push(s.last()));
            }
        }
    }
}

/// The runs spell the text without its backslashes, adjacent runs differ in
/// decoration and no run is empty.
pub proof fn lemma_overline_runs(s: Seq<char>)
    ensures
        runs_text(spec_overline_runs(s)) == without_backslashes(s),
        forall|i: int|
            0 <= i < spec_overline_runs(s).len() - 1 ==> #[trigger] spec_overline_runs(s)[i].1
                != spec_overline_runs(s)[i + 1].1,
        forall|i: int| 0 <= i < spec_overline_runs(s).len() ==> (#[trigger] spec_overline_runs(s)[i]).0.len() > 0,
{
    lemma_runs_text(decorated_from(s, 0));
    lemma_decorated_chars(s, 0);
    assert(s.skip(0) =~= s);
    lemma_runs_alternate(decorated_from(s, 0));
}

} // verus!
