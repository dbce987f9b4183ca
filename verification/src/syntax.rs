//! Brace groups in a text: where the parts that may be JSON objects stand,
//! and how a text is put together again with those parts replaced.

use vstd::prelude::*;
use crate::text::string_of_range;

verus! {

/// Scanning `s` from `i` with `depth` groups open: the index just after the
/// brace that closes the outermost of them, or -1 where the text ends first.
pub open spec fn closing(s: Seq<char>, i: int, depth: int) -> int
    decreases s.len() - i,
{
    if i < 0 || i >= s.len() || depth <= 0 {
        -1
    } else if s[i] == '{' {
        closing(s, i + 1, depth + 1)
    } else if s[i] == '}' {
        if depth == 1 {
            i + 1
        } else {
            closing(s, i + 1, depth - 1)
        }
    } else {
        closing(s, i + 1, depth)
    }
}

/// The end of the balanced group that opens at `i`: the index just after
/// the brace that closes it, or -1 where no such group opens at `i`.
pub open spec fn group_end(s: Seq<char>, i: int) -> int {
    if 0 <= i < s.len() && s[i] == '{' {
        closing(s, i + 1, 1)
    } else {
        -1
    }
}

/// The first index from `from` on at which a balanced group opens, or the
/// length of `s` where none does.
pub open spec fn first_group(s: Seq<char>, from: int) -> int
    decreases s.len() - from,
{
    if from < 0 || from >= s.len() {
        s.len() as int
    } else if group_end(s, from) >= 0 {
        from
    } else {
        first_group(s, from + 1)
    }
}

/// The balanced groups of `s` from `from` on, leftmost first, none inside
/// another: each as the index where it opens and the index just after it.
pub open spec fn groups_from(s: Seq<char>, from: int) -> Seq<(int, int)>
    decreases s.len() - from,
{
    let start = first_group(s, from);
    let end = group_end(s, start);
    if from < 0 || from >= s.len() || start >= s.len() {
        Seq::empty()
    } else {
        seq![(start, end)] + groups_from(
            s,
            if from < end <= s.len() {
                end
            } else {
                from + 1
            },
        )
    }
}

/// Where the text between group `k - 1` and group `k` begins.
pub open spec fn gap_start(groups: Seq<(int, int)>, k: int) -> int {
    if k <= 0 {
        0
    } else {
        groups[k - 1].1
    }
}

/// The groups lie inside `s`, in order, without overlap.
pub open spec fn ordered(s: Seq<char>, groups: Seq<(int, int)>) -> bool {
    forall|k: int|
        0 <= k < groups.len() ==> gap_start(groups, k) <= (#[trigger] groups[k]).0 <= groups[k].1
            <= s.len() && 0 <= gap_start(groups, k)
}

/// The text up to the end of group `k - 1`, with each group replaced.
pub open spec fn spliced_upto(
    s: Seq<char>,
    groups: Seq<(int, int)>,
    replacements: Seq<Seq<char>>,
    k: int,
) -> Seq<char>
    decreases k,
{
    if k <= 0 {
        Seq::empty()
    } else {
        spliced_upto(s, groups, replacements, k - 1) + s.subrange(
            gap_start(groups, k - 1),
            groups[k - 1].0,
        ) + replacements[k - 1]
    }
}

/// The whole text with each group replaced by its replacement.
pub open spec fn spliced(s: Seq<char>, groups: Seq<(int, int)>, replacements: Seq<Seq<char>>) -> Seq<
    char,
> {
    spliced_upto(s, groups, replacements, groups.len() as int) + s.subrange(
        gap_start(groups, groups.len() as int),
        s.len() as int,
    )
}

/// The views of a list of positions.
pub open spec fn spans_view(spans: Seq<(usize, usize)>) -> Seq<(int, int)> {
    spans.map_values(|p: (usize, usize)| (p.0 as int, p.1 as int))
}

/// The views of a list of texts.
pub open spec fn texts_view(texts: Seq<String>) -> Seq<Seq<char>> {
    texts.map_values(|t: String| t@)
}

pub proof fn lemma_closing_bounds(s: Seq<char>, i: int, depth: int)
    ensures
        closing(s, i, depth) == -1 || (i < closing(s, i, depth) <= s.len()),
    decreases s.len() - i,
{
    if !(i < 0 || i >= s.len() || depth <= 0) {
        if s[i] == '{' {
            lemma_closing_bounds(s, i + 1, depth + 1);
        } else if s[i] == '}' {
            if depth != 1 {
                lemma_closing_bounds(s, i + 1, depth - 1);
            }
        } else {
            lemma_closing_bounds(s, i + 1, depth);
        }
    }
}

pub proof fn lemma_first_group(s: Seq<char>, from: int)
    requires
        0 <= from,
    ensures
        from <= first_group(s, from) || first_group(s, from) == s.len(),
        first_group(s, from) <= s.len(),
        first_group(s, from) < s.len() ==> group_end(s, first_group(s, from)) > first_group(
            s,
            from,
        ) && group_end(s, first_group(s, from)) <= s.len(),
        forall|k: int| from <= k < first_group(s, from) ==> group_end(s, k) < 0,
    decreases s.len() - from,
{
    if from < s.len() {
        if group_end(s, from) >= 0 {
            lemma_closing_bounds(s, from + 1, 1);
        } else {
            lemma_first_group(s, from + 1);
        }
    }
}

/// The groups of a text lie inside it, in order.
pub proof fn lemma_groups_ordered(s: Seq<char>, from: int)
    requires
        0 <= from,
    ensures
        forall|k: int|
            0 <= k < groups_from(s, from).len() ==> from <= (#[trigger] groups_from(s, from)[k]).0
                < groups_from(s, from)[k].1 <= s.len(),
        forall|k: int|
            0 < k < groups_from(s, from).len() ==> groups_from(s, from)[k - 1].1 <= (
            #[trigger] groups_from(s, from)[k]).0,
    decreases s.len() - from,
{
    let start = first_group(s, from);
    let end = group_end(s, start);
    lemma_first_group(s, from);
    if start < s.len() {
        let next = if from < end <= s.len() {
            end
        } else {
            from + 1
        };
        lemma_groups_ordered(s, next);
        let rest = groups_from(s, next);
        let all = groups_from(s, from);
        assert(all =~= seq![(start, end)] + rest);
        assert forall|k: int| 0 <= k < all.len() implies from <= (#[trigger] all[k]).0 < all[k].1
            <= s.len() by {
            if k > 0 {
                assert(all[k] == rest[k - 1]);
            }
        }
        assert forall|k: int| 0 < k < all.len() implies all[k - 1].1 <= (#[trigger] all[k]).0 by {
            assert(all[k] == rest[k - 1]);
            if k > 1 {
                assert(all[k - 1] == rest[k - 2]);
            }
        }
    }
}

/// Replacing every group by itself gives the text back.
pub proof fn lemma_spliced_identity(
    s: Seq<char>,
    groups: Seq<(int, int)>,
    replacements: Seq<Seq<char>>,
    k: int,
)
    requires
        ordered(s, groups),
        replacements.len() == groups.len(),
        0 <= k <= groups.len(),
        forall|j: int|
            0 <= j < groups.len() ==> #[trigger] replacements[j] == s.subrange(
                groups[j].0,
                groups[j].1,
            ),
    ensures
        spliced_upto(s, groups, replacements, k) == s.subrange(0, gap_start(groups, k)),
        k == groups.len() ==> spliced(s, groups, replacements) == s,
    decreases k,
{
    if k > 0 {
        lemma_spliced_identity(s, groups, replacements, k - 1);
        assert(ordered(s, groups));
        assert(gap_start(groups, k - 1) <= groups[k - 1].0 <= groups[k - 1].1 <= s.len());
        assert(spliced_upto(s, groups, replacements, k) =~= s.subrange(0, groups[k - 1].1));
    } else {
        assert(spliced_upto(s, groups, replacements, 0) =~= s.subrange(0, 0));
    }
    if k == groups.len() {
        if k > 0 {
            assert(gap_start(groups, k - 1) <= groups[k - 1].0 <= groups[k - 1].1 <= s.len());
        }
        assert(spliced(s, groups, replacements) =~= s);
    }
}

/// The end of the balanced group that opens at `i`, if one does.
pub fn find_group_end(s: &Vec<char>, i: usize) -> (r: Option<usize>)
    ensures
        match r {
            Some(end) => group_end(s@, i as int) == end,
            None => group_end(s@, i as int) == -1,
        },
{
    if i >= s.len() || s[i] != '{' {
        return None;
    }
    let mut depth: usize = 1;
    let mut k: usize = i + 1;
    while k < s.len()
        invariant
            i < k <= s.len(),
            1 <= depth <= k - i,
            closing(s@, k as int, depth as int) == group_end(s@, i as int),
        decreases s.len() - k,
    {
        let c = s[k];
        if c == '{' {
            depth += 1;
        } else if c == '}' {
            if depth == 1 {
                return Some(k + 1);
            }
            depth -= 1;
        }
        k += 1;
    }
    None
}

/// The balanced groups of `s`, leftmost first.
pub fn find_groups(s: &Vec<char>) -> (r: Vec<(usize, usize)>)
    ensures
        spans_view(r@) == groups_from(s@, 0),
        ordered(s@, spans_view(r@)),
{
    let mut out: Vec<(usize, usize)> = Vec::new();
    let mut from: usize = 0;
    let ghost all = groups_from(s@, 0);
    while from < s.len()
        invariant
            from <= s.len(),
            all == groups_from(s@, 0),
            all == spans_view(out@) + groups_from(s@, from as int),
        decreases s.len() - from,
    {
        proof {
            lemma_first_group(s@, from as int);
        }
        match find_group_end(s, from) {
            Some(end) => {
                proof {
                    lemma_closing_bounds(s@, from + 1, 1);
                    assert(first_group(s@, from as int) == from);
                    assert(spans_view(out@.push((from, end))) =~= spans_view(out@) + seq![
                        (from as int, end as int),
                    ]);
                }
                out.push((from, end));
                from = end;
            },
            None => {
                proof {
                    let next = from + 1;
                    assert(first_group(s@, from as int) == first_group(s@, next as int));
                    if first_group(s@, next as int) < s@.len() {
                        lemma_first_group(s@, next as int);
                        let start = first_group(s@, next as int);
                        let end = group_end(s@, start);
                        assert(end > next);
                        assert(groups_from(s@, from as int) =~= groups_from(s@, next as int));
                    } else {
                        assert(groups_from(s@, from as int) =~= groups_from(s@, next as int));
                    }
                }
                from += 1;
            },
        }
    }
    proof {
        assert(groups_from(s@, from as int) =~= Seq::<(int, int)>::empty());
        assert(all =~= spans_view(out@));
        lemma_groups_ordered(s@, 0);
        assert forall|k: int| 0 <= k < all.len() implies gap_start(all, k) <= (#[trigger] all[k]).0
            <= all[k].1 <= s@.len() && 0 <= gap_start(all, k) by {
            if k > 0 {
                assert(all[k - 1].1 <= all[k].0);
                assert(0 <= all[k - 1].0);
            }
        }
    }
    out
}

/// The text with each group replaced by its replacement.
pub fn splice(s: &Vec<char>, groups: &Vec<(usize, usize)>, replacements: &Vec<String>) -> (r:
    String)
    requires
        ordered(s@, spans_view(groups@)),
        replacements@.len() == groups@.len(),
    ensures
        r@ == spliced(s@, spans_view(groups@), texts_view(replacements@)),
{
    let mut out = String::new();
    let mut at: usize = 0;
    let mut k: usize = 0;
    let ghost spans = spans_view(groups@);
    let ghost texts = texts_view(replacements@);
    while k < groups.len()
        invariant
            k <= groups@.len(),
            replacements@.len() == groups@.len(),
            spans == spans_view(groups@),
            texts == texts_view(replacements@),
            ordered(s@, spans),
            at == gap_start(spans, k as int),
            at <= s@.len(),
            out@ == spliced_upto(s@, spans, texts, k as int),
        decreases groups@.len() - k,
    {
        let (start, end) = groups[k];
        proof {
            assert(spans[k as int] == (start as int, end as int));
            assert(gap_start(spans, k as int) <= spans[k as int].0 <= spans[k as int].1 <= s@.len());
            assert(texts[k as int] == replacements@[k as int]@);
        }
        let gap = string_of_range(s, at, start);
        out.append(gap.as_str());
        out.append(replacements[k].as_str());
        at = end;
        k += 1;
    }
    let tail = string_of_range(s, at, s.len());
    out.append(tail.as_str());
    out
}

} // verus!
