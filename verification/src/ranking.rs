//! Deterministic deduplication and ranking of candidates, and the cursor
//! over the ranked result.
//!
//! Candidates whose texts are equal after trimming are merged into one
//! group: the group keeps the first-seen text and originating command, its
//! priority is the maximum across the group, its confirmation requirement is
//! the disjunction, and its side-effect warnings are concatenated in
//! first-seen order with warnings already present dropped. The groups are
//! then ordered by priority, greatest first; groups of equal priority keep
//! the order in which their texts first appeared, so the earliest-registered
//! contributing rule wins the tie.

use crate::text::str_eq;
use crate::text::trim_str;
use crate::text::trimmed_of;
use crate::text::views_of;
use crate::types::candidate_views;
use crate::types::CorrectedCommand;
use crate::types::CorrectedCommandView;
use vstd::prelude::*;

verus! {

/// Whether a text occurs in a list of texts.
pub open spec fn has_text(xs: Seq<Seq<char>>, x: Seq<char>) -> bool {
    exists|i: int| 0 <= i < xs.len() && xs[i] == x
}

/// `xs` followed by those elements of `ys`, in order, not already present.
pub open spec fn append_unique(xs: Seq<Seq<char>>, ys: Seq<Seq<char>>) -> Seq<Seq<char>>
    decreases ys.len(),
{
    if ys.len() == 0 {
        xs
    } else {
        let front = append_unique(xs, ys.drop_last());
        if has_text(front, ys.last()) {
            front
        } else {
            front.push(ys.last())
        }
    }
}

/// The index of the first group whose trimmed text equals `key`, or the
/// length when there is none.
pub open spec fn find_group(groups: Seq<CorrectedCommandView>, key: Seq<char>) -> int
    decreases groups.len(),
{
    if groups.len() == 0 {
        0
    } else if trimmed_of(groups[0].text) == key {
        0
    } else {
        1 + find_group(groups.drop_first(), key)
    }
}

/// The merge of a later candidate `c` into the group `g` that shares its
/// trimmed text: the group keeps its text and command, takes the greater
/// priority, the disjunction of the confirmation requirements, and `c`'s
/// side-effect warnings not already present, in order.
pub open spec fn merge_pair(g: CorrectedCommandView, c: CorrectedCommandView)
    -> CorrectedCommandView {
    CorrectedCommandView {
        text: g.text,
        original: g.original,
        priority: if c.priority > g.priority {
            c.priority
        } else {
            g.priority
        },
        requires_confirmation: g.requires_confirmation || c.requires_confirmation,
        side_effects: append_unique(g.side_effects, c.side_effects),
    }
}

/// The groups after one more candidate is merged in: into the first group
/// with the same trimmed text, or as a new group at the end.
pub open spec fn merge_into(groups: Seq<CorrectedCommandView>, c: CorrectedCommandView) -> Seq<
    CorrectedCommandView,
> {
    let idx = find_group(groups, trimmed_of(c.text));
    if idx < groups.len() {
        groups.update(idx, merge_pair(groups[idx], c))
    } else {
        groups.push(c)
    }
}

/// The groups of a candidate sequence, merged in order of first appearance.
pub open spec fn merge_all(cands: Seq<CorrectedCommandView>) -> Seq<CorrectedCommandView>
    decreases cands.len(),
{
    if cands.len() == 0 {
        Seq::empty()
    } else {
        merge_into(merge_all(cands.drop_last()), cands.last())
    }
}

/// The index at which a stable descending insertion places `c`: after every
/// element of priority at least `c`'s.
pub open spec fn insert_pos(sorted: Seq<CorrectedCommandView>, c: CorrectedCommandView) -> int
    decreases sorted.len(),
{
    if sorted.len() == 0 {
        0
    } else if sorted[0].priority >= c.priority {
        1 + insert_pos(sorted.drop_first(), c)
    } else {
        0
    }
}

/// `c` inserted after every element of priority at least its own.
pub open spec fn insert_ranked(sorted: Seq<CorrectedCommandView>, c: CorrectedCommandView) -> Seq<
    CorrectedCommandView,
>
    decreases sorted.len(),
{
    if sorted.len() == 0 {
        seq![c]
    } else if sorted[0].priority >= c.priority {
        seq![sorted[0]] + insert_ranked(sorted.drop_first(), c)
    } else {
        seq![c] + sorted
    }
}

/// The groups in priority order, greatest first; groups of equal priority
/// keep their relative order.
pub open spec fn rank_sort(groups: Seq<CorrectedCommandView>) -> Seq<CorrectedCommandView>
    decreases groups.len(),
{
    if groups.len() == 0 {
        Seq::empty()
    } else {
        insert_ranked(rank_sort(groups.drop_last()), groups.last())
    }
}

/// The ranked, deduplicated sequence a raw candidate sequence denotes.
pub open spec fn ranked(cands: Seq<CorrectedCommandView>) -> Seq<CorrectedCommandView> {
    rank_sort(merge_all(cands))
}

/// Priorities never increase along the sequence.
pub open spec fn sorted_desc(s: Seq<CorrectedCommandView>) -> bool {
    forall|i: int, j: int| 0 <= i <= j < s.len() ==> s[i].priority >= s[j].priority
}

/// No two elements share a trimmed text.
pub open spec fn distinct_texts(s: Seq<CorrectedCommandView>) -> bool {
    forall|i: int, j: int|
        0 <= i < j < s.len() ==> trimmed_of(s[i].text) != trimmed_of(s[j].text)
}

/// Whether a text occurs in a list of strings, exactly.
fn contains_string(xs: &Vec<String>, x: &str) -> (r: bool)
    ensures
        r == has_text(views_of(xs@), x@),
{
    let mut i: usize = 0;
    while i < xs.len()
        invariant
            i <= xs@.len(),
            forall|j: int| 0 <= j < i ==> views_of(xs@)[j] != x@,
        decreases xs@.len() - i,
    {
        if str_eq(xs[i].as_str(), x) {
            proof {
                assert(views_of(xs@)[i as int] == xs@[i as int]@);
            }
            return true;
        }
        i = i + 1;
    }
    false
}

/// `xs` extended by those strings of `ys` not already present, in order.
fn append_unique_strings(xs: Vec<String>, ys: &Vec<String>) -> (r: Vec<String>)
    ensures
        views_of(r@) == append_unique(views_of(xs@), views_of(ys@)),
{
    let ghost xvs = views_of(xs@);
    let ghost yvs = views_of(ys@);
    let mut r = xs;
    let mut i: usize = 0;
    proof {
        assert(yvs.take(0) =~= Seq::<Seq<char>>::empty());
        assert(append_unique(xvs, yvs.take(0)) == xvs);
    }
    while i < ys.len()
        invariant
            yvs == views_of(ys@),
            i <= ys@.len(),
            views_of(r@) == append_unique(xvs, yvs.take(i as int)),
        decreases ys@.len() - i,
    {
        proof {
            assert(yvs.take(i as int + 1).drop_last() =~= yvs.take(i as int));
            assert(yvs.take(i as int + 1).last() == ys@[i as int]@);
        }
        if !contains_string(&r, ys[i].as_str()) {
            let ghost prev = r@;
            r.push(ys[i].clone());
            proof {
                assert(views_of(r@) =~= views_of(prev).push(ys@[i as int]@));
            }
        }
        i = i + 1;
    }
    proof {
        assert(yvs.take(yvs.len() as int) =~= yvs);
    }
    r
}

/// `find_group` returns `k` exactly when the first `k` trimmed texts differ
/// from the key and position `k`, if it exists, matches it.
proof fn lemma_find_group_at(groups: Seq<CorrectedCommandView>, key: Seq<char>, k: int)
    requires
        0 <= k <= groups.len(),
        forall|j: int| 0 <= j < k ==> trimmed_of(groups[j].text) != key,
        k == groups.len() || trimmed_of(groups[k].text) == key,
    ensures
        find_group(groups, key) == k,
    decreases k,
{
    if k > 0 {
        let t = groups.drop_first();
        assert(forall|j: int| 0 <= j < t.len() ==> t[j] == groups[j + 1]);
        lemma_find_group_at(t, key, k - 1);
    }
}

/// What the index `find_group` returns means: everything before it misses
/// the key, and it matches the key unless it is the length.
proof fn lemma_find_group_props(groups: Seq<CorrectedCommandView>, key: Seq<char>)
    ensures
        0 <= find_group(groups, key) <= groups.len(),
        find_group(groups, key) < groups.len() ==> trimmed_of(
            groups[find_group(groups, key)].text,
        ) == key,
        forall|j: int| 0 <= j < find_group(groups, key) ==> trimmed_of(groups[j].text) != key,
    decreases groups.len(),
{
    if groups.len() > 0 && trimmed_of(groups[0].text) != key {
        let t = groups.drop_first();
        assert(forall|j: int| 0 <= j < t.len() ==> t[j] == groups[j + 1]);
        lemma_find_group_props(t, key);
        assert forall|j: int| 0 <= j < find_group(groups, key) implies trimmed_of(groups[j].text)
            != key by {
            if j > 0 {
                assert(t[j - 1] == groups[j]);
                assert(trimmed_of(t[j - 1].text) != key);
            }
        }
    }
}

/// The index of the first group whose trimmed text equals `key`, or the
/// length when there is none.
fn find_group_index(groups: &Vec<CorrectedCommand>, key: &str) -> (idx: usize)
    ensures
        idx as int == find_group(candidate_views(groups@), key@),
        idx <= groups@.len(),
{
    let mut i: usize = 0;
    while i < groups.len()
        invariant
            i <= groups@.len(),
            forall|j: int| 0 <= j < i ==> trimmed_of(candidate_views(groups@)[j].text) != key@,
        decreases groups@.len() - i,
    {
        proof {
            assert(candidate_views(groups@)[i as int].text == groups@[i as int].text@);
        }
        if str_eq(trim_str(groups[i].text.as_str()), key) {
            proof {
                lemma_find_group_at(candidate_views(groups@), key@, i as int);
            }
            return i;
        }
        i = i + 1;
    }
    proof {
        lemma_find_group_at(candidate_views(groups@), key@, groups@.len() as int);
    }
    groups.len()
}

/// `insert_pos` is within bounds, everything before it has priority at least
/// `c`'s, and the element there, if any, has lower priority.
proof fn lemma_insert_pos_props(s: Seq<CorrectedCommandView>, c: CorrectedCommandView)
    ensures
        0 <= insert_pos(s, c) <= s.len(),
        forall|j: int| 0 <= j < insert_pos(s, c) ==> s[j].priority >= c.priority,
        insert_pos(s, c) < s.len() ==> s[insert_pos(s, c)].priority < c.priority,
    decreases s.len(),
{
    if s.len() > 0 && s[0].priority >= c.priority {
        let t = s.drop_first();
        assert(forall|j: int| 0 <= j < t.len() ==> t[j] == s[j + 1]);
        lemma_insert_pos_props(t, c);
        assert forall|j: int| 0 <= j < insert_pos(s, c) implies s[j].priority >= c.priority by {
            if j > 0 {
                assert(t[j - 1] == s[j]);
                assert(t[j - 1].priority >= c.priority);
            }
        }
    }
}

/// `insert_pos` returns `p` exactly when the first `p` elements have
/// priority at least `c`'s and the element at `p`, if any, has less.
proof fn lemma_insert_pos_at(s: Seq<CorrectedCommandView>, c: CorrectedCommandView, p: int)
    requires
        0 <= p <= s.len(),
        forall|j: int| 0 <= j < p ==> s[j].priority >= c.priority,
        p == s.len() || s[p].priority < c.priority,
    ensures
        insert_pos(s, c) == p,
    decreases p,
{
    if p > 0 {
        let t = s.drop_first();
        assert(forall|j: int| 0 <= j < t.len() ==> t[j] == s[j + 1]);
        lemma_insert_pos_at(t, c, p - 1);
    }
}

/// A stable descending insertion splits the sequence at `insert_pos` and
/// puts the new element between the parts.
proof fn lemma_insert_ranked_shape(s: Seq<CorrectedCommandView>, c: CorrectedCommandView)
    ensures
        insert_ranked(s, c) == s.take(insert_pos(s, c)) + seq![c] + s.skip(insert_pos(s, c)),
    decreases s.len(),
{
    lemma_insert_pos_props(s, c);
    if s.len() == 0 {
        assert(s.take(0) + seq![c] + s.skip(0) =~= seq![c]);
    } else if s[0].priority >= c.priority {
        let t = s.drop_first();
        lemma_insert_ranked_shape(t, c);
        let p = insert_pos(t, c);
        assert(s.take(p + 1) =~= seq![s[0]] + t.take(p));
        assert(s.skip(p + 1) =~= t.skip(p));
        assert(seq![s[0]] + (t.take(p) + seq![c] + t.skip(p)) =~= s.take(p + 1) + seq![c] + s.skip(
            p + 1,
        ));
    } else {
        assert(s.take(0) + seq![c] + s.skip(0) =~= seq![c] + s);
    }
}

/// Merges equal-text candidates and orders the result by priority, greatest
/// first; candidates of equal priority keep the order in which their texts
/// first appeared.
pub fn rank(candidates: &Vec<CorrectedCommand>) -> (r: Vec<CorrectedCommand>)
    ensures
        candidate_views(r@) == ranked(candidate_views(candidates@)),
{
    let ghost cvs = candidate_views(candidates@);
    let mut groups: Vec<CorrectedCommand> = Vec::new();
    let mut i: usize = 0;
    proof {
        assert(cvs.take(0) =~= Seq::<CorrectedCommandView>::empty());
        assert(candidate_views(groups@) =~= merge_all(cvs.take(0)));
    }
    while i < candidates.len()
        invariant
            cvs == candidate_views(candidates@),
            i <= candidates@.len(),
            candidate_views(groups@) == merge_all(cvs.take(i as int)),
        decreases candidates@.len() - i,
    {
        let ghost cv = candidates@[i as int]@;
        proof {
            assert(cvs.take(i as int + 1).drop_last() =~= cvs.take(i as int));
            assert(cvs.take(i as int + 1).last() == cv);
        }
        let key = trim_str(candidates[i].text.as_str());
        let idx = find_group_index(&groups, key);
        let ghost gv = candidate_views(groups@);
        if idx < groups.len() {
            let g = groups.remove(idx);
            let merged = CorrectedCommand {
                text: g.text,
                original: g.original,
                priority: if candidates[i].priority > g.priority {
                    candidates[i].priority
                } else {
                    g.priority
                },
                requires_confirmation: g.requires_confirmation
                    || candidates[i].requires_confirmation,
                side_effects: append_unique_strings(g.side_effects, &candidates[i].side_effects),
            };
            proof {
                assert(merged@ == merge_pair(gv[idx as int], cv));
            }
            groups.insert(idx, merged);
            proof {
                assert(candidate_views(groups@) =~= gv.update(idx as int, merged@));
                assert(candidate_views(groups@) =~= merge_into(gv, cv));
            }
        } else {
            groups.push(candidates[i].clone());
            proof {
                assert(candidate_views(groups@) =~= gv.push(cv));
                assert(candidate_views(groups@) =~= merge_into(gv, cv));
            }
        }
        i = i + 1;
    }
    proof {
        assert(cvs.take(cvs.len() as int) =~= cvs);
    }
    let ghost gvs = candidate_views(groups@);
    let mut sorted: Vec<CorrectedCommand> = Vec::new();
    let mut k: usize = 0;
    proof {
        assert(gvs.take(0) =~= Seq::<CorrectedCommandView>::empty());
        assert(candidate_views(sorted@) =~= rank_sort(gvs.take(0)));
    }
    while k < groups.len()
        invariant
            gvs == candidate_views(groups@),
            k <= groups@.len(),
            candidate_views(sorted@) == rank_sort(gvs.take(k as int)),
        decreases groups@.len() - k,
    {
        let ghost gk = groups@[k as int]@;
        proof {
            assert(gvs.take(k as int + 1).drop_last() =~= gvs.take(k as int));
            assert(gvs.take(k as int + 1).last() == gk);
        }
        let ghost sv = candidate_views(sorted@);
        let mut pos: usize = 0;
        while pos < sorted.len() && sorted[pos].priority >= groups[k].priority
            invariant
                sv == candidate_views(sorted@),
                k < groups@.len(),
                gk == groups@[k as int]@,
                pos <= sorted@.len(),
                forall|j: int| 0 <= j < pos ==> sv[j].priority >= gk.priority,
            decreases sorted@.len() - pos,
        {
            proof {
                assert(sv[pos as int].priority == sorted@[pos as int]@.priority);
            }
            pos = pos + 1;
        }
        proof {
            assert(pos < sorted@.len() ==> sv[pos as int].priority < gk.priority);
            lemma_insert_pos_at(sv, gk, pos as int);
            lemma_insert_ranked_shape(sv, gk);
        }
        sorted.insert(pos, groups[k].clone());
        proof {
            assert(candidate_views(sorted@) =~= sv.take(pos as int) + seq![gk] + sv.skip(
                pos as int,
            ));
            assert(candidate_views(sorted@) =~= insert_ranked(sv, gk));
        }
        k = k + 1;
    }
    proof {
        assert(gvs.take(gvs.len() as int) =~= gvs);
    }
    sorted
}

/// Whether a candidate's trimmed text equals a key.
pub open spec fn matches_key(c: CorrectedCommandView, key: Seq<char>) -> bool {
    trimmed_of(c.text) == key
}

/// Whether some element of `groups` has the trimmed text `key`.
pub open spec fn has_group_for(groups: Seq<CorrectedCommandView>, key: Seq<char>) -> bool {
    exists|i: int| 0 <= i < groups.len() && matches_key(#[trigger] groups[i], key)
}

/// Whether a candidate value occurs in a sequence.
pub open spec fn has_candidate(s: Seq<CorrectedCommandView>, x: CorrectedCommandView) -> bool {
    exists|i: int| 0 <= i < s.len() && s[i] == x
}

/// `g` is the correct merge of its group in `cands`: some candidate with the
/// same trimmed text has its priority and none exceeds it, its confirmation
/// requirement is the group's disjunction, and its side-effect warnings are
/// exactly those its group's members declare.
pub open spec fn group_merged(cands: Seq<CorrectedCommandView>, g: CorrectedCommandView) -> bool {
    &&& exists|k: int|
        0 <= k < cands.len() && matches_key(#[trigger] cands[k], trimmed_of(g.text))
            && cands[k].priority == g.priority
    &&& forall|k: int|
        0 <= k < cands.len() && matches_key(#[trigger] cands[k], trimmed_of(g.text))
            ==> cands[k].priority <= g.priority
    &&& (g.requires_confirmation <==> exists|k: int|
        0 <= k < cands.len() && matches_key(#[trigger] cands[k], trimmed_of(g.text))
            && cands[k].requires_confirmation)
    &&& forall|s: Seq<char>|
        #[trigger] has_text(g.side_effects, s) <==> exists|k: int|
            0 <= k < cands.len() && matches_key(#[trigger] cands[k], trimmed_of(g.text))
                && has_text(cands[k].side_effects, s)
}

/// Pushing a text extends membership by exactly that text.
proof fn lemma_has_text_push(xs: Seq<Seq<char>>, y: Seq<char>, s: Seq<char>)
    ensures
        has_text(xs.push(y), s) <==> has_text(xs, s) || s == y,
{
    if has_text(xs.push(y), s) {
        let w = choose|w: int| 0 <= w < xs.push(y).len() && xs.push(y)[w] == s;
        if w < xs.len() {
            assert(xs[w] == s);
        }
    }
    if has_text(xs, s) {
        let w = choose|w: int| 0 <= w < xs.len() && xs[w] == s;
        assert(xs.push(y)[w] == s);
    }
    if s == y {
        assert(xs.push(y)[xs.len() as int] == s);
    }
}

/// `append_unique` holds exactly the texts of its two arguments.
proof fn lemma_append_unique_has(xs: Seq<Seq<char>>, ys: Seq<Seq<char>>)
    ensures
        forall|s: Seq<char>|
            #[trigger] has_text(append_unique(xs, ys), s) <==> has_text(xs, s) || has_text(ys, s),
    decreases ys.len(),
{
    if ys.len() == 0 {
        assert forall|s: Seq<char>|
            #[trigger] has_text(append_unique(xs, ys), s) <==> has_text(xs, s) || has_text(
                ys,
                s,
            ) by {
            assert(!has_text(ys, s));
        }
    } else {
        let front = ys.drop_last();
        let y = ys.last();
        let au = append_unique(xs, front);
        lemma_append_unique_has(xs, front);
        assert forall|s: Seq<char>|
            #[trigger] has_text(append_unique(xs, ys), s) <==> has_text(xs, s) || has_text(
                ys,
                s,
            ) by {
            assert(ys =~= front.push(y));
            lemma_has_text_push(front, y, s);
            assert(has_text(ys, s) <==> has_text(front, s) || s == y);
            if has_text(au, y) {
                assert(append_unique(xs, ys) == au);
                if s == y {
                    assert(has_text(au, s));
                }
            } else {
                assert(append_unique(xs, ys) == au.push(y));
                lemma_has_text_push(au, y, s);
            }
        }
    }
}

/// Pushing a candidate extends membership by exactly that candidate.
proof fn lemma_has_candidate_push(
    s: Seq<CorrectedCommandView>,
    y: CorrectedCommandView,
    x: CorrectedCommandView,
)
    ensures
        has_candidate(s.push(y), x) <==> has_candidate(s, x) || x == y,
{
    if has_candidate(s.push(y), x) {
        let w = choose|w: int| 0 <= w < s.push(y).len() && s.push(y)[w] == x;
        if w < s.len() {
            assert(s[w] == x);
        }
    }
    if has_candidate(s, x) {
        let w = choose|w: int| 0 <= w < s.len() && s[w] == x;
        assert(s.push(y)[w] == x);
    }
    if x == y {
        assert(s.push(y)[s.len() as int] == x);
    }
}

/// Merging preserves the number of distinct groups or grows it by one, the
/// groups keep pairwise distinct trimmed texts, every candidate processed so
/// far has a group, and each group correctly merges its members.
proof fn lemma_merge_all_props(cands: Seq<CorrectedCommandView>)
    ensures
        distinct_texts(merge_all(cands)),
        forall|k: int|
            0 <= k < cands.len() ==> has_group_for(
                merge_all(cands),
                trimmed_of(#[trigger] cands[k].text),
            ),
        forall|i: int|
            0 <= i < merge_all(cands).len() ==> group_merged(
                cands,
                #[trigger] merge_all(cands)[i],
            ),
        cands.len() > 0 ==> merge_all(cands).len() > 0,
    decreases cands.len(),
{
    if cands.len() > 0 {
        let front = cands.drop_last();
        let c = cands.last();
        let key = trimmed_of(c.text);
        let out0 = merge_all(front);
        let out = merge_all(cands);
        lemma_merge_all_props(front);
        lemma_find_group_props(out0, key);
        let idx = find_group(out0, key);
        assert(forall|a: int| 0 <= a < front.len() ==> front[a] == cands[a]);
        assert(c == cands[cands.len() - 1]);
        assert(front.push(c) =~= cands);
        if idx < out0.len() {
            let g0 = out0[idx];
            let gm = merge_pair(g0, c);
            assert(out == out0.update(idx, gm));
            assert(trimmed_of(gm.text) == trimmed_of(g0.text));
            assert(trimmed_of(g0.text) == key);
            assert(forall|i: int|
                0 <= i < out.len() ==> trimmed_of(#[trigger] out[i].text) == trimmed_of(
                    out0[i].text,
                ));
            // distinct texts carry over index by index
            assert(distinct_texts(out));
            // every processed candidate has a group
            assert forall|k: int|
                0 <= k < cands.len() implies has_group_for(
                out,
                trimmed_of(#[trigger] cands[k].text),
            ) by {
                if k < cands.len() - 1 {
                    assert(has_group_for(out0, trimmed_of(front[k].text)));
                    let w = choose|w: int|
                        0 <= w < out0.len() && matches_key(#[trigger] out0[w], trimmed_of(
                            front[k].text,
                        ));
                    assert(matches_key(out[w], trimmed_of(cands[k].text)));
                } else {
                    assert(matches_key(out[idx], key));
                }
            }
            // each group merges its members
            assert forall|i: int|
                0 <= i < out.len() implies group_merged(cands, #[trigger] out[i]) by {
                if i != idx {
                    let g = out0[i];
                    assert(out[i] == g);
                    assert(group_merged(front, g));
                    // the new candidate's text differs from this group's
                    assert(trimmed_of(g.text) != key);
                    lemma_group_merged_extend_other(front, c, g);
                } else {
                    assert(out[i] == gm);
                    lemma_group_merged_extend_merge(front, c, g0);
                }
            }
        } else {
            assert(out == out0.push(c));
            assert(forall|j: int| 0 <= j < out0.len() ==> trimmed_of(out0[j].text) != key);
            // distinct
            assert forall|i: int, j: int|
                0 <= i < j < out.len() implies trimmed_of(out[i].text) != trimmed_of(
                out[j].text,
            ) by {
                if j < out0.len() {
                    assert(out[i] == out0[i] && out[j] == out0[j]);
                } else {
                    assert(out[i] == out0[i] && out[j] == c);
                }
            }
            // coverage
            assert forall|k: int|
                0 <= k < cands.len() implies has_group_for(
                out,
                trimmed_of(#[trigger] cands[k].text),
            ) by {
                if k < cands.len() - 1 {
                    assert(has_group_for(out0, trimmed_of(front[k].text)));
                    let w = choose|w: int|
                        0 <= w < out0.len() && matches_key(#[trigger] out0[w], trimmed_of(
                            front[k].text,
                        ));
                    assert(matches_key(out[w], trimmed_of(cands[k].text)));
                } else {
                    assert(matches_key(out[out0.len() as int], key));
                }
            }
            // no earlier candidate shares the new group's text
            assert forall|k: int|
                0 <= k < front.len() implies !matches_key(#[trigger] front[k], key) by {
                if matches_key(front[k], key) {
                    assert(has_group_for(out0, trimmed_of(front[k].text)));
                    let w = choose|w: int|
                        0 <= w < out0.len() && matches_key(#[trigger] out0[w], trimmed_of(
                            front[k].text,
                        ));
                    assert(trimmed_of(out0[w].text) == key);
                }
            }
            // merged groups
            assert forall|i: int|
                0 <= i < out.len() implies group_merged(cands, #[trigger] out[i]) by {
                if i < out0.len() {
                    let g = out0[i];
                    assert(out[i] == g);
                    assert(group_merged(front, g));
                    assert(trimmed_of(g.text) != key);
                    lemma_group_merged_extend_other(front, c, g);
                } else {
                    assert(out[i] == c);
                    lemma_group_merged_single(front, c);
                }
            }
        }
    }
}

/// A group whose text differs from the newly processed candidate's text is
/// still correctly merged when that candidate is appended.
proof fn lemma_group_merged_extend_other(
    front: Seq<CorrectedCommandView>,
    c: CorrectedCommandView,
    g: CorrectedCommandView,
)
    requires
        group_merged(front, g),
        trimmed_of(g.text) != trimmed_of(c.text),
    ensures
        group_merged(front.push(c), g),
{
    let cands = front.push(c);
    let key = trimmed_of(g.text);
    assert(forall|a: int| 0 <= a < front.len() ==> front[a] == cands[a]);
    assert(cands[cands.len() - 1] == c);
    assert(!matches_key(c, key));
    // the witnesses carry over unchanged
    let kp = choose|k: int|
        0 <= k < front.len() && matches_key(#[trigger] front[k], key) && front[k].priority
            == g.priority;
    assert(matches_key(cands[kp], key) && cands[kp].priority == g.priority);
    if g.requires_confirmation {
        let kr = choose|k: int|
            0 <= k < front.len() && matches_key(#[trigger] front[k], key)
                && front[k].requires_confirmation;
        assert(matches_key(cands[kr], key) && cands[kr].requires_confirmation);
    }
    assert forall|s: Seq<char>| #[trigger]
        has_text(g.side_effects, s) <==> exists|k: int|
            0 <= k < cands.len() && matches_key(#[trigger] cands[k], key) && has_text(
                cands[k].side_effects,
                s,
            ) by {
        if has_text(g.side_effects, s) {
            let ks = choose|k: int|
                0 <= k < front.len() && matches_key(#[trigger] front[k], key) && has_text(
                    front[k].side_effects,
                    s,
                );
            assert(matches_key(cands[ks], key) && has_text(cands[ks].side_effects, s));
        }
        if exists|k: int|
            0 <= k < cands.len() && matches_key(#[trigger] cands[k], key) && has_text(
                cands[k].side_effects,
                s,
            ) {
            let ks = choose|k: int|
                0 <= k < cands.len() && matches_key(#[trigger] cands[k], key) && has_text(
                    cands[k].side_effects,
                    s,
                );
            assert(ks < front.len());
            assert(matches_key(front[ks], key) && has_text(front[ks].side_effects, s));
        }
    }
}

/// Merging the newly processed candidate into the group that shares its text
/// yields the correctly merged group for the extended sequence.
proof fn lemma_group_merged_extend_merge(
    front: Seq<CorrectedCommandView>,
    c: CorrectedCommandView,
    g: CorrectedCommandView,
)
    requires
        group_merged(front, g),
        trimmed_of(g.text) == trimmed_of(c.text),
    ensures
        group_merged(front.push(c), merge_pair(g, c)),
{
    let cands = front.push(c);
    let gm = merge_pair(g, c);
    let key = trimmed_of(g.text);
    assert(trimmed_of(gm.text) == key);
    assert(forall|a: int| 0 <= a < front.len() ==> front[a] == cands[a]);
    assert(cands[cands.len() - 1] == c);
    assert(matches_key(c, key));
    // priority: the maximum is witnessed and dominates
    if c.priority > g.priority {
        assert(matches_key(cands[cands.len() - 1], key) && cands[cands.len() - 1].priority
            == gm.priority);
    } else {
        let kp = choose|k: int|
            0 <= k < front.len() && matches_key(#[trigger] front[k], key) && front[k].priority
                == g.priority;
        assert(matches_key(cands[kp], key) && cands[kp].priority == gm.priority);
    }
    assert forall|k: int|
        0 <= k < cands.len() && matches_key(#[trigger] cands[k], key) implies cands[k].priority
        <= gm.priority by {
        if k < front.len() {
            assert(front[k].priority <= g.priority);
        }
    }
    // confirmation: the disjunction
    if gm.requires_confirmation {
        if g.requires_confirmation {
            let kr = choose|k: int|
                0 <= k < front.len() && matches_key(#[trigger] front[k], key)
                    && front[k].requires_confirmation;
            assert(matches_key(cands[kr], key) && cands[kr].requires_confirmation);
        } else {
            assert(c.requires_confirmation);
            assert(matches_key(cands[cands.len() - 1], key) && cands[cands.len()
                - 1].requires_confirmation);
        }
    }
    if exists|k: int|
        0 <= k < cands.len() && matches_key(#[trigger] cands[k], key)
            && cands[k].requires_confirmation {
        let kr = choose|k: int|
            0 <= k < cands.len() && matches_key(#[trigger] cands[k], key)
                && cands[k].requires_confirmation;
        if kr < front.len() {
            assert(matches_key(front[kr], key) && front[kr].requires_confirmation);
            assert(g.requires_confirmation);
        } else {
            assert(c.requires_confirmation);
        }
        assert(gm.requires_confirmation);
    }
    // side effects: the union
    lemma_append_unique_has(g.side_effects, c.side_effects);
    assert forall|s: Seq<char>| #[trigger]
        has_text(gm.side_effects, s) <==> exists|k: int|
            0 <= k < cands.len() && matches_key(#[trigger] cands[k], key) && has_text(
                cands[k].side_effects,
                s,
            ) by {
        assert(has_text(gm.side_effects, s) <==> has_text(g.side_effects, s) || has_text(
            c.side_effects,
            s,
        ));
        if has_text(g.side_effects, s) {
            let ks = choose|k: int|
                0 <= k < front.len() && matches_key(#[trigger] front[k], key) && has_text(
                    front[k].side_effects,
                    s,
                );
            assert(matches_key(cands[ks], key) && has_text(cands[ks].side_effects, s));
        }
        if has_text(c.side_effects, s) {
            assert(matches_key(cands[cands.len() - 1], key) && has_text(
                cands[cands.len() - 1].side_effects,
                s,
            ));
        }
        if exists|k: int|
            0 <= k < cands.len() && matches_key(#[trigger] cands[k], key) && has_text(
                cands[k].side_effects,
                s,
            ) {
            let ks = choose|k: int|
                0 <= k < cands.len() && matches_key(#[trigger] cands[k], key) && has_text(
                    cands[k].side_effects,
                    s,
                );
            if ks < front.len() {
                assert(matches_key(front[ks], key) && has_text(front[ks].side_effects, s));
                assert(has_text(g.side_effects, s));
            } else {
                assert(has_text(c.side_effects, s));
            }
        }
    }
}

/// A candidate no earlier group member shares a text with is its own
/// correctly merged group.
proof fn lemma_group_merged_single(front: Seq<CorrectedCommandView>, c: CorrectedCommandView)
    requires
        forall|k: int| 0 <= k < front.len() ==> !matches_key(#[trigger] front[k], trimmed_of(c.text)),
    ensures
        group_merged(front.push(c), c),
{
    let cands = front.push(c);
    let key = trimmed_of(c.text);
    assert(forall|a: int| 0 <= a < front.len() ==> front[a] == cands[a]);
    assert(cands[cands.len() - 1] == c);
    assert(matches_key(cands[cands.len() - 1], key) && cands[cands.len() - 1].priority
        == c.priority);
    assert forall|k: int|
        0 <= k < cands.len() && matches_key(#[trigger] cands[k], key) implies cands[k].priority
        <= c.priority by {
        if k < front.len() {
            assert(!matches_key(front[k], key));
        }
    }
    if c.requires_confirmation {
        assert(matches_key(cands[cands.len() - 1], key) && cands[cands.len()
            - 1].requires_confirmation);
    }
    if exists|k: int|
        0 <= k < cands.len() && matches_key(#[trigger] cands[k], key)
            && cands[k].requires_confirmation {
        let kr = choose|k: int|
            0 <= k < cands.len() && matches_key(#[trigger] cands[k], key)
                && cands[k].requires_confirmation;
        assert(kr == cands.len() - 1);
        assert(c.requires_confirmation);
    }
    assert forall|s: Seq<char>| #[trigger]
        has_text(c.side_effects, s) <==> exists|k: int|
            0 <= k < cands.len() && matches_key(#[trigger] cands[k], key) && has_text(
                cands[k].side_effects,
                s,
            ) by {
        if has_text(c.side_effects, s) {
            assert(matches_key(cands[cands.len() - 1], key) && has_text(
                cands[cands.len() - 1].side_effects,
                s,
            ));
        }
        if exists|k: int|
            0 <= k < cands.len() && matches_key(#[trigger] cands[k], key) && has_text(
                cands[k].side_effects,
                s,
            ) {
            let ks = choose|k: int|
                0 <= k < cands.len() && matches_key(#[trigger] cands[k], key) && has_text(
                    cands[k].side_effects,
                    s,
                );
            assert(ks == cands.len() - 1);
        }
    }
}

/// Inserting splits the sequence at the insertion point, so the result holds
/// exactly the old elements and the new one.
proof fn lemma_insert_ranked_elems(s: Seq<CorrectedCommandView>, c: CorrectedCommandView)
    ensures
        insert_ranked(s, c).len() == s.len() + 1,
        forall|x: CorrectedCommandView|
            #[trigger] has_candidate(insert_ranked(s, c), x) <==> has_candidate(s, x) || x == c,
{
    lemma_insert_ranked_shape(s, c);
    lemma_insert_pos_props(s, c);
    let p = insert_pos(s, c);
    let out = insert_ranked(s, c);
    assert forall|x: CorrectedCommandView|
        #[trigger] has_candidate(out, x) <==> has_candidate(s, x) || x == c by {
        if has_candidate(out, x) {
            let w = choose|w: int| 0 <= w < out.len() && out[w] == x;
            if w < p {
                assert(out[w] == s[w]);
            } else if w == p {
                assert(out[w] == c);
            } else {
                assert(out[w] == s[w - 1]);
            }
        }
        if has_candidate(s, x) {
            let w = choose|w: int| 0 <= w < s.len() && s[w] == x;
            if w < p {
                assert(out[w] == x);
            } else {
                assert(out[w + 1] == x);
            }
        }
        if x == c {
            assert(out[p] == c);
        }
    }
}

/// Sorting keeps the length and the elements and orders priorities, greatest
/// first.
proof fn lemma_rank_sort_props(groups: Seq<CorrectedCommandView>)
    ensures
        rank_sort(groups).len() == groups.len(),
        forall|x: CorrectedCommandView|
            #[trigger] has_candidate(rank_sort(groups), x) <==> has_candidate(groups, x),
        sorted_desc(rank_sort(groups)),
    decreases groups.len(),
{
    if groups.len() == 0 {
        assert forall|x: CorrectedCommandView|
            #[trigger] has_candidate(rank_sort(groups), x) <==> has_candidate(groups, x) by {
        }
    } else {
        let front = groups.drop_last();
        let c = groups.last();
        lemma_rank_sort_props(front);
        let a = rank_sort(front);
        lemma_insert_ranked_elems(a, c);
        lemma_insert_ranked_shape(a, c);
        lemma_insert_pos_props(a, c);
        let p = insert_pos(a, c);
        let out = insert_ranked(a, c);
        assert forall|x: CorrectedCommandView|
            #[trigger] has_candidate(out, x) <==> has_candidate(groups, x) by {
            assert(groups =~= front.push(c));
            lemma_has_candidate_push(front, c, x);
        }
        assert forall|i: int, j: int|
            0 <= i <= j < out.len() implies out[i].priority >= out[j].priority by {
            if i < p {
                assert(out[i] == a[i]);
            } else if i == p {
                assert(out[i] == c);
            } else {
                assert(out[i] == a[i - 1]);
            }
            if j < p {
                assert(out[j] == a[j]);
            } else if j == p {
                assert(out[j] == c);
            } else {
                assert(out[j] == a[j - 1]);
            }
        }
    }
}

/// Sorting groups with pairwise distinct trimmed texts keeps them pairwise
/// distinct.
proof fn lemma_rank_sort_distinct(groups: Seq<CorrectedCommandView>)
    requires
        distinct_texts(groups),
    ensures
        distinct_texts(rank_sort(groups)),
    decreases groups.len(),
{
    if groups.len() > 0 {
        let front = groups.drop_last();
        let c = groups.last();
        assert(forall|a: int| 0 <= a < front.len() ==> front[a] == groups[a]);
        assert(distinct_texts(front));
        lemma_rank_sort_distinct(front);
        lemma_rank_sort_props(front);
        let a = rank_sort(front);
        lemma_insert_ranked_shape(a, c);
        lemma_insert_pos_props(a, c);
        let p = insert_pos(a, c);
        let out = insert_ranked(a, c);
        assert forall|j: int|
            0 <= j < a.len() implies trimmed_of(#[trigger] a[j].text) != trimmed_of(c.text) by {
            assert(has_candidate(a, a[j]));
            assert(has_candidate(front, a[j]));
            let w = choose|w: int| 0 <= w < front.len() && front[w] == a[j];
            assert(trimmed_of(groups[w].text) != trimmed_of(groups[groups.len() - 1].text));
        }
        assert forall|i: int, j: int|
            0 <= i < j < out.len() implies trimmed_of(out[i].text) != trimmed_of(out[j].text) by {
            let oi: CorrectedCommandView = if i < p {
                a[i]
            } else if i == p {
                c
            } else {
                a[i - 1]
            };
            let oj: CorrectedCommandView = if j < p {
                a[j]
            } else if j == p {
                c
            } else {
                a[j - 1]
            };
            assert(out[i] == oi);
            assert(out[j] == oj);
        }
    }
}

/// Merging and ranking yields one candidate per distinct trimmed text: no
/// two ranked candidates share a trimmed text, every raw candidate's trimmed
/// text is represented, and each ranked candidate carries the greatest
/// priority of its group, the group's disjoined confirmation requirement and
/// exactly the group's side-effect warnings. Priorities never increase along
/// the ranked sequence.
pub proof fn lemma_ranking_merges_equal_texts(cands: Seq<CorrectedCommandView>)
    ensures
        distinct_texts(ranked(cands)),
        sorted_desc(ranked(cands)),
        forall|k: int|
            0 <= k < cands.len() ==> has_group_for(
                ranked(cands),
                trimmed_of(#[trigger] cands[k].text),
            ),
        forall|i: int|
            0 <= i < ranked(cands).len() ==> group_merged(cands, #[trigger] ranked(cands)[i]),
{
    lemma_merge_all_props(cands);
    lemma_rank_sort_props(merge_all(cands));
    lemma_rank_sort_distinct(merge_all(cands));
    let m = merge_all(cands);
    let out = ranked(cands);
    assert forall|k: int|
        0 <= k < cands.len() implies has_group_for(out, trimmed_of(#[trigger] cands[k].text)) by {
        let w = choose|w: int|
            0 <= w < m.len() && matches_key(#[trigger] m[w], trimmed_of(cands[k].text));
        assert(has_candidate(m, m[w]));
        assert(has_candidate(out, m[w]));
        let v = choose|v: int| 0 <= v < out.len() && out[v] == m[w];
        assert(matches_key(out[v], trimmed_of(cands[k].text)));
    }
    assert forall|i: int|
        0 <= i < out.len() implies group_merged(cands, #[trigger] out[i]) by {
        assert(has_candidate(out, out[i]));
        assert(has_candidate(m, out[i]));
        let w = choose|w: int| 0 <= w < m.len() && m[w] == out[i];
        assert(group_merged(cands, m[w]));
    }
}

/// Ranking yields no candidate exactly when dispatch produced none, so an
/// empty dispatch is observed as the no-rules terminal condition and never
/// as a candidate list.
pub proof fn lemma_ranked_empty_iff_no_candidates(cands: Seq<CorrectedCommandView>)
    ensures
        ranked(cands).len() == 0 <==> cands.len() == 0,
{
    lemma_merge_all_props(cands);
    lemma_rank_sort_props(merge_all(cands));
}

/// The transient context of one fix attempt: the ranked candidate sequence
/// and a cursor over it. Cursor movement never wraps: stepping past either
/// end is a no-op that reports the boundary.
#[derive(Debug)]
pub struct Session {
    /// The ranked candidates, earliest first.
    pub candidates: Vec<CorrectedCommand>,
    /// The index of the candidate under consideration.
    pub cursor: usize,
}

impl Session {
    /// The cursor always rests on a candidate.
    pub open spec fn wf(&self) -> bool {
        self.cursor < self.candidates@.len()
    }

    /// A session over a non-empty candidate sequence, with the cursor on the
    /// first candidate.
    pub fn new(candidates: Vec<CorrectedCommand>) -> (r: Self)
        requires
            candidates@.len() > 0,
        ensures
            r.candidates == candidates,
            r.cursor == 0,
            r.wf(),
    {
        Session { candidates, cursor: 0 }
    }

    /// The candidate under the cursor.
    pub fn current(&self) -> (r: &CorrectedCommand)
        requires
            self.wf(),
        ensures
            *r == self.candidates@[self.cursor as int],
    {
        &self.candidates[self.cursor]
    }

    /// Whether a candidate follows the cursor.
    pub fn has_next(&self) -> (r: bool)
        ensures
            r == (self.cursor as int + 1 < self.candidates@.len()),
    {
        self.candidates.len() > 0 && self.cursor < self.candidates.len() - 1
    }

    /// Whether a candidate precedes the cursor.
    pub fn has_previous(&self) -> (r: bool)
        ensures
            r == (self.cursor > 0),
    {
        self.cursor > 0
    }

    /// Advances the cursor, unless it rests on the last candidate: then the
    /// session is unchanged and the boundary is reported by returning false.
    /// The cursor never wraps to the first candidate.
    pub fn next(&mut self) -> (moved: bool)
        requires
            old(self).wf(),
        ensures
            final(self).wf(),
            final(self).candidates == old(self).candidates,
            moved == (old(self).cursor as int + 1 < old(self).candidates@.len()),
            moved ==> final(self).cursor == old(self).cursor + 1,
            !moved ==> final(self).cursor == old(self).cursor,
    {
        let n = self.candidates.len();
        if n > 0 && self.cursor < n - 1 {
            self.cursor = self.cursor + 1;
            true
        } else {
            false
        }
    }

    /// Moves the cursor back, unless it rests on the first candidate: then
    /// the session is unchanged and the boundary is reported by returning
    /// false. The cursor never wraps to the last candidate.
    pub fn previous(&mut self) -> (moved: bool)
        requires
            old(self).wf(),
        ensures
            final(self).wf(),
            final(self).candidates == old(self).candidates,
            moved == (old(self).cursor > 0),
            moved ==> final(self).cursor == old(self).cursor - 1,
            !moved ==> final(self).cursor == old(self).cursor,
    {
        if self.cursor > 0 {
            self.cursor = self.cursor - 1;
            true
        } else {
            false
        }
    }
}

} // verus!
