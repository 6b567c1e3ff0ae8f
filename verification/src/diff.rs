//! Sibling matching of the structural tree diff: nodes are matched first
//! by selector (stable anchors such as `data-testid`), then by position,
//! and the counters of a diff run.
use crate::action::strings_model;
use crate::text::{push_str, string_of};
use vstd::prelude::*;

verus! {

/// Aggregate counters for a diff run.
#[derive(Debug, Clone, Copy, Default, PartialEq, Eq, Structural)]
pub struct DiffStats {
    pub changed: usize,
    pub added: usize,
    pub removed: usize,
    pub base_nodes: usize,
    pub head_nodes: usize,
}

/// The first head sibling at or after `i` that is still free and, when
/// `sel` is given, has that selector.
pub open spec fn first_free(hs: Seq<Seq<char>>, used: Seq<bool>, sel: Option<Seq<char>>, i: int) -> Option<
    int,
>
    decreases hs.len() - i,
{
    if i < 0 || i >= hs.len() {
        None
    } else if !used[i] && (match sel {
        Some(s) => hs[i] == s,
        None => true,
    }) {
        Some(i)
    } else {
        first_free(hs, used, sel, i + 1)
    }
}

/// The first pass over the first `k` base siblings: each one with a
/// non-empty selector takes the first free head sibling with the same
/// selector. Gives which heads are taken and each base's match.
pub open spec fn selector_pass(bs: Seq<Seq<char>>, hs: Seq<Seq<char>>, k: int) -> (Seq<bool>, Seq<Option<int>>)
    decreases k,
{
    if k <= 0 {
        (Seq::new(hs.len(), |_i: int| false), Seq::empty())
    } else {
        let (used, m) = selector_pass(bs, hs, k - 1);
        let b = bs[k - 1];
        if b.len() > 0 {
            match first_free(hs, used, Some(b), 0) {
                Some(h) => (used.update(h, true), m.push(Some(h))),
                None => (used, m.push(None)),
            }
        } else {
            (used, m.push(None))
        }
    }
}

/// The second pass over the first `k` slots of `m0`: each base still
/// unmatched takes the first free head sibling.
pub open spec fn position_pass(hs: Seq<Seq<char>>, used0: Seq<bool>, m0: Seq<Option<int>>, k: int) -> (
    Seq<bool>,
    Seq<Option<int>>,
)
    decreases k,
{
    if k <= 0 {
        (used0, m0)
    } else {
        let (used, m) = position_pass(hs, used0, m0, k - 1);
        if m[k - 1] is None {
            match first_free(hs, used, None, 0) {
                Some(h) => (used.update(h, true), m.update(k - 1, Some(h))),
                None => (used, m),
            }
        } else {
            (used, m)
        }
    }
}

/// The head sibling each base sibling is matched with.
pub open spec fn sibling_matches(bs: Seq<Seq<char>>, hs: Seq<Seq<char>>) -> Seq<Option<int>> {
    let (used, m) = selector_pass(bs, hs, bs.len() as int);
    position_pass(hs, used, m, bs.len() as int).1
}

/// Whether some base sibling is matched with head sibling `h`.
pub open spec fn head_matched(m: Seq<Option<int>>, h: int) -> bool {
    exists|j: int| 0 <= j < m.len() && m[j] == Some(h)
}

/// Matches are head indices, each used at most once, and `used` marks
/// exactly the matched heads.
pub open spec fn matching_ok(hs_len: int, used: Seq<bool>, m: Seq<Option<int>>) -> bool {
    &&& used.len() == hs_len
    &&& forall|i: int| 0 <= i < m.len() && m[i] is Some ==> 0 <= #[trigger] m[i]->0 < hs_len
    &&& forall|i: int, j: int|
        0 <= i < m.len() && 0 <= j < m.len() && i != j && m[i] is Some && m[j] is Some ==> #[trigger] m[i]
            != #[trigger] m[j]
    &&& forall|h: int|
        0 <= h < hs_len ==> (#[trigger] used[h] <==> exists|i: int|
            0 <= i < m.len() && m[i] == Some(h))
}

proof fn lemma_first_free(hs: Seq<Seq<char>>, used: Seq<bool>, sel: Option<Seq<char>>, i: int)
    requires
        used.len() == hs.len(),
        0 <= i,
    ensures
        match first_free(hs, used, sel, i) {
            Some(h) => i <= h < hs.len() && !used[h] && (match sel {
                Some(s) => hs[h] == s,
                None => true,
            }),
            None => forall|h: int|
                i <= h < hs.len() ==> used[h] || (match sel {
                    Some(s) => hs[h] != s,
                    None => false,
                }),
        },
    decreases hs.len() - i,
{
    if i < hs.len() {
        lemma_first_free(hs, used, sel, i + 1);
    }
}

/// Taking a free head keeps a matching well formed.
proof fn lemma_take_head(hs_len: int, used: Seq<bool>, m: Seq<Option<int>>, h: int, slot: int)
    requires
        matching_ok(hs_len, used, m),
        0 <= h < hs_len,
        !used[h],
        -1 <= slot < m.len(),
        slot >= 0 ==> m[slot] is None,
    ensures
        slot < 0 ==> matching_ok(hs_len, used.update(h, true), m.push(Some(h))),
        slot >= 0 ==> matching_ok(hs_len, used.update(h, true), m.update(slot, Some(h))),
{
    let u2 = used.update(h, true);
    if slot < 0 {
        let m2 = m.push(Some(h));
        assert forall|g: int| 0 <= g < hs_len implies (#[trigger] u2[g] <==> exists|i: int|
            0 <= i < m2.len() && m2[i] == Some(g)) by {
            if g == h {
                assert(m2[m.len() as int] == Some(g));
            } else {
                if u2[g] {
                    let i = choose|i: int| 0 <= i < m.len() && m[i] == Some(g);
                    assert(m2[i] == Some(g));
                }
                if exists|i: int| 0 <= i < m2.len() && m2[i] == Some(g) {
                    let i = choose|i: int| 0 <= i < m2.len() && m2[i] == Some(g);
                    assert(m[i] == Some(g));
                }
            }
        }
        assert forall|i: int, j: int|
            0 <= i < m2.len() && 0 <= j < m2.len() && i != j && m2[i] is Some && m2[j] is Some implies #[trigger] m2[i]
            != #[trigger] m2[j] by {
            if i == m.len() as int {
                if m[j] == Some(h) {
                    assert(used[h]);
                }
            } else if j == m.len() as int {
                if m[i] == Some(h) {
                    assert(used[h]);
                }
            } else {
                assert(m2[i] == m[i] && m2[j] == m[j]);
            }
        }
    } else {
        let m2 = m.update(slot, Some(h));
        assert forall|g: int| 0 <= g < hs_len implies (#[trigger] u2[g] <==> exists|i: int|
            0 <= i < m2.len() && m2[i] == Some(g)) by {
            if g == h {
                assert(m2[slot] == Some(g));
            } else {
                if u2[g] {
                    let i = choose|i: int| 0 <= i < m.len() && m[i] == Some(g);
                    assert(i != slot);
                    assert(m2[i] == Some(g));
                }
                if exists|i: int| 0 <= i < m2.len() && m2[i] == Some(g) {
                    let i = choose|i: int| 0 <= i < m2.len() && m2[i] == Some(g);
                    assert(m[i] == Some(g));
                }
            }
        }
        assert forall|i: int, j: int|
            0 <= i < m2.len() && 0 <= j < m2.len() && i != j && m2[i] is Some && m2[j] is Some implies #[trigger] m2[i]
            != #[trigger] m2[j] by {
            if i == slot {
                if m[j] == Some(h) {
                    assert(used[h]);
                }
            } else if j == slot {
                if m[i] == Some(h) {
                    assert(used[h]);
                }
            } else {
                assert(m2[i] == m[i] && m2[j] == m[j]);
            }
        }
    }
}

proof fn lemma_selector_pass(bs: Seq<Seq<char>>, hs: Seq<Seq<char>>, k: int)
    requires
        0 <= k <= bs.len(),
    ensures
        matching_ok(hs.len() as int, selector_pass(bs, hs, k).0, selector_pass(bs, hs, k).1),
        selector_pass(bs, hs, k).1.len() == k,
        forall|i: int|
            0 <= i < k && #[trigger] selector_pass(bs, hs, k).1[i] is Some ==> bs[i].len() > 0
                && hs[selector_pass(bs, hs, k).1[i]->0] == bs[i],
    decreases k,
{
    if k == 0 {
        let used = Seq::new(hs.len(), |_i: int| false);
        assert forall|h: int| 0 <= h < hs.len() implies (#[trigger] used[h] <==> exists|i: int|
            0 <= i < 0 && Seq::<Option<int>>::empty()[i] == Some(h)) by {}
    } else {
        lemma_selector_pass(bs, hs, k - 1);
        let (used, m) = selector_pass(bs, hs, k - 1);
        let b = bs[k - 1];
        if b.len() > 0 {
            lemma_first_free(hs, used, Some(b), 0);
            match first_free(hs, used, Some(b), 0) {
                Some(h) => {
                    lemma_take_head(hs.len() as int, used, m, h, -1);
                    let m2 = m.push(Some(h));
                    assert forall|i: int|
                        0 <= i < k && #[trigger] m2[i] is Some implies bs[i].len() > 0 && hs[m2[i]->0]
                        == bs[i] by {
                        if i < k - 1 {
                            assert(m2[i] == m[i]);
                        }
                    }
                },
                None => {
                    let m2 = m.push(None);
                    assert forall|h: int| 0 <= h < hs.len() implies (#[trigger] used[h]
                        <==> exists|i: int| 0 <= i < m2.len() && m2[i] == Some(h)) by {
                        if used[h] {
                            let i = choose|i: int| 0 <= i < m.len() && m[i] == Some(h);
                            assert(m2[i] == Some(h));
                        }
                        if exists|i: int| 0 <= i < m2.len() && m2[i] == Some(h) {
                            let i = choose|i: int| 0 <= i < m2.len() && m2[i] == Some(h);
                            assert(m[i] == Some(h));
                        }
                    }
                    assert forall|i: int| 0 <= i < k && #[trigger] m2[i] is Some implies bs[i].len() > 0
                        && hs[m2[i]->0] == bs[i] by {
                        assert(m2[i] == m[i]);
                    }
                },
            }
        } else {
            let m2 = m.push(None);
            assert forall|h: int| 0 <= h < hs.len() implies (#[trigger] used[h] <==> exists|i: int|
                0 <= i < m2.len() && m2[i] == Some(h)) by {
                if used[h] {
                    let i = choose|i: int| 0 <= i < m.len() && m[i] == Some(h);
                    assert(m2[i] == Some(h));
                }
                if exists|i: int| 0 <= i < m2.len() && m2[i] == Some(h) {
                    let i = choose|i: int| 0 <= i < m2.len() && m2[i] == Some(h);
                    assert(m[i] == Some(h));
                }
            }
            assert forall|i: int| 0 <= i < k && #[trigger] m2[i] is Some implies bs[i].len() > 0
                && hs[m2[i]->0] == bs[i] by {
                assert(m2[i] == m[i]);
            }
        }
    }
}

proof fn lemma_position_pass(hs: Seq<Seq<char>>, used0: Seq<bool>, m0: Seq<Option<int>>, k: int)
    requires
        matching_ok(hs.len() as int, used0, m0),
        0 <= k <= m0.len(),
    ensures
        matching_ok(hs.len() as int, position_pass(hs, used0, m0, k).0, position_pass(hs, used0, m0, k).1),
        position_pass(hs, used0, m0, k).1.len() == m0.len(),
        forall|i: int| k <= i < m0.len() ==> #[trigger] position_pass(hs, used0, m0, k).1[i] == m0[i],
        forall|i: int|
            0 <= i < m0.len() && #[trigger] m0[i] is Some ==> position_pass(hs, used0, m0, k).1[i]
                == m0[i],
        forall|i: int|
            0 <= i < k && #[trigger] position_pass(hs, used0, m0, k).1[i] is None ==> forall|h: int|
                0 <= h < hs.len() ==> position_pass(hs, used0, m0, k).0[h],
    decreases k,
{
    if k > 0 {
        lemma_position_pass(hs, used0, m0, k - 1);
        let (used, m) = position_pass(hs, used0, m0, k - 1);
        if m[k - 1] is None {
            lemma_first_free(hs, used, None, 0);
            match first_free(hs, used, None, 0) {
                Some(h) => {
                    lemma_take_head(hs.len() as int, used, m, h, k - 1);
                    let m2 = m.update(k - 1, Some(h));
                    let u2 = used.update(h, true);
                    assert forall|i: int| 0 <= i < k && #[trigger] m2[i] is None implies forall|g: int|
                        0 <= g < hs.len() ==> u2[g] by {
                        assert(m2[i] == m[i]);
                        assert forall|g: int| 0 <= g < hs.len() implies u2[g] by {
                            assert(used[g]);
                        }
                    }
                },
                None => {},
            }
        }
    }
}

/// The matching of two sibling lists by selector, then by position, is
/// one to one, points only at existing head siblings, pairs equal
/// non-empty selectors or falls back to position, and leaves a base
/// sibling unmatched only when every head sibling is taken.
pub proof fn lemma_sibling_matches(bs: Seq<Seq<char>>, hs: Seq<Seq<char>>)
    ensures
        sibling_matches(bs, hs).len() == bs.len(),
        forall|i: int|
            0 <= i < bs.len() && #[trigger] sibling_matches(bs, hs)[i] is Some ==> 0
                <= sibling_matches(bs, hs)[i]->0 < hs.len(),
        forall|i: int, j: int|
            0 <= i < bs.len() && 0 <= j < bs.len() && i != j && sibling_matches(bs, hs)[i] is Some
                && sibling_matches(bs, hs)[j] is Some ==> #[trigger] sibling_matches(bs, hs)[i]
                != #[trigger] sibling_matches(bs, hs)[j],
        forall|i: int|
            0 <= i < bs.len() && #[trigger] sibling_matches(bs, hs)[i] is None ==> forall|h: int|
                0 <= h < hs.len() ==> #[trigger] head_matched(sibling_matches(bs, hs), h),
        forall|i: int|
            0 <= i < bs.len() && #[trigger] selector_pass(bs, hs, bs.len() as int).1[i] is Some
                ==> sibling_matches(bs, hs)[i] == selector_pass(bs, hs, bs.len() as int).1[i]
                && hs[sibling_matches(bs, hs)[i]->0] == bs[i],
{
    let n = bs.len() as int;
    lemma_selector_pass(bs, hs, n);
    let (used, m) = selector_pass(bs, hs, n);
    lemma_position_pass(hs, used, m, n);
    let (u2, m2) = position_pass(hs, used, m, n);
    assert forall|i: int|
        0 <= i < bs.len() && #[trigger] m2[i] is None implies forall|h: int|
            0 <= h < hs.len() ==> #[trigger] head_matched(m2, h) by {
        assert forall|h: int| 0 <= h < hs.len() implies #[trigger] head_matched(m2, h) by {
            assert(u2[h]);
        }
    }
}

pub open spec fn matches_model(m: Seq<Option<usize>>) -> Seq<Option<int>> {
    m.map_values(
        |o: Option<usize>|
            match o {
                Some(h) => Some(h as int),
                None => None::<int>,
            },
    )
}

/// Index of the first free head sibling at or after `i` (with selector
/// `sel` when given).
fn find_free(hs: &Vec<String>, used: &Vec<bool>, sel: Option<&String>) -> (r: Option<usize>)
    requires
        used@.len() == hs@.len(),
    ensures
        match r {
            Some(h) => first_free(
                strings_model(hs@),
                used@,
                match sel {
                    Some(s) => Some(s@),
                    None => None,
                },
                0,
            ) == Some(h as int),
            None => first_free(
                strings_model(hs@),
                used@,
                match sel {
                    Some(s) => Some(s@),
                    None => None,
                },
                0,
            ) is None,
        },
{
    let ghost hv = strings_model(hs@);
    let ghost sv = match sel {
        Some(s) => Some(s@),
        None => None::<Seq<char>>,
    };
    let mut i: usize = 0;
    while i < hs.len()
        invariant
            i <= hs.len(),
            used@.len() == hs@.len(),
            hv == strings_model(hs@),
            sv == (match sel {
                Some(s) => Some(s@),
                None => None::<Seq<char>>,
            }),
            first_free(hv, used@, sv, 0) == first_free(hv, used@, sv, i as int),
        decreases hs.len() - i,
    {
        let fits = match sel {
            Some(s) => hs[i] == *s,
            None => true,
        };
        if !used[i] && fits {
            return Some(i);
        }
        i = i + 1;
    }
    None
}

/// Match base siblings (by selector) to head siblings: first by equal
/// non-empty selector, then by position among the rest.
pub fn match_siblings(base: &Vec<String>, head: &Vec<String>) -> (r: Vec<Option<usize>>)
    ensures
        r@.len() == base@.len(),
        matches_model(r@) == sibling_matches(strings_model(base@), strings_model(head@)),
{
    let ghost bv = strings_model(base@);
    let ghost hv = strings_model(head@);
    let mut used: Vec<bool> = Vec::new();
    let mut k: usize = 0;
    while k < head.len()
        invariant
            k <= head.len(),
            used@ == Seq::new(k as nat, |_i: int| false),
        decreases head.len() - k,
    {
        used.push(false);
        assert(used@ =~= Seq::new((k + 1) as nat, |_i: int| false));
        k = k + 1;
    }
    let mut m: Vec<Option<usize>> = Vec::new();
    let mut bi: usize = 0;
    while bi < base.len()
        invariant
            bi <= base.len(),
            bv == strings_model(base@),
            hv == strings_model(head@),
            used@ == selector_pass(bv, hv, bi as int).0,
            matches_model(m@) == selector_pass(bv, hv, bi as int).1,
        decreases base.len() - bi,
    {
        proof {
            lemma_selector_pass(bv, hv, bi as int);
        }
        let ghost mv = matches_model(m@);
        let found = if base[bi].as_str().unicode_len() > 0 {
            find_free(head, &used, Some(&base[bi]))
        } else {
            None
        };
        proof {
            lemma_first_free(hv, used@, Some(base@[bi as int]@), 0);
        }
        match found {
            Some(h) => {
                used.set(h, true);
            },
            None => {},
        }
        m.push(found);
        assert(matches_model(m@) =~= mv.push(
            match found {
                Some(h) => Some(h as int),
                None => None::<int>,
            },
        ));
        bi = bi + 1;
    }
    proof {
        lemma_selector_pass(bv, hv, base.len() as int);
    }
    let ghost used1 = used@;
    let ghost m1 = m@.map_values(|o: Option<usize>| match o {
        Some(h) => Some(h as int),
        None => None::<int>,
    });
    let mut s: usize = 0;
    while s < m.len()
        invariant
            s <= m.len() == base.len(),
            hv == strings_model(head@),
            used@.len() == head@.len(),
            matching_ok(hv.len() as int, used1, m1),
            m1.len() == m@.len(),
            used@ == position_pass(hv, used1, m1, s as int).0,
            matches_model(m@) == position_pass(hv, used1, m1, s as int).1,
        decreases m.len() - s,
    {
        proof {
            lemma_position_pass(hv, used1, m1, s as int);
        }
        let ghost mv = matches_model(m@);
        if m[s].is_none() {
            assert(mv[s as int] is None);
            let free = find_free(head, &used, None);
            proof {
                lemma_first_free(hv, used@, None, 0);
            }
            match free {
                Some(h) => {
                    used.set(h, true);
                    m.set(s, Some(h));
                    assert(matches_model(m@) =~= mv.update(s as int, Some(h as int)));
                },
                None => {},
            }
        } else {
            assert(mv[s as int] is Some);
        }
        s = s + 1;
    }
    m
}

// ---------------------------------------------------------------------------
// Rebuilding a forest from flat lines
// ---------------------------------------------------------------------------

/// The last line before `k` whose id is `p` (a later line with the same id
/// replaces an earlier one).
pub open spec fn last_index_of(links: Seq<(u64, Option<u64>)>, p: u64, k: int) -> Option<int>
    decreases k,
{
    if k <= 0 {
        None
    } else if links[k - 1].0 == p {
        Some(k - 1)
    } else {
        last_index_of(links, p, k - 1)
    }
}

/// The line that line `i` hangs under: the line carrying its parent id;
/// none for a root or when no line carries that id (an orphan).
pub open spec fn parent_line(links: Seq<(u64, Option<u64>)>, i: int) -> Option<int> {
    match links[i].1 {
        None => None,
        Some(p) => last_index_of(links, p, links.len() as int),
    }
}

/// The lines before `k` that hang under no line, in order.
pub open spec fn roots_before(links: Seq<(u64, Option<u64>)>, k: int) -> Seq<int>
    decreases k,
{
    if k <= 0 {
        Seq::empty()
    } else if parent_line(links, k - 1) is None {
        roots_before(links, k - 1).push(k - 1)
    } else {
        roots_before(links, k - 1)
    }
}

/// The lines before `k` that hang under line `p`, in order.
pub open spec fn children_before(links: Seq<(u64, Option<u64>)>, p: int, k: int) -> Seq<int>
    decreases k,
{
    if k <= 0 {
        Seq::empty()
    } else if parent_line(links, k - 1) == Some(p) {
        children_before(links, p, k - 1).push(k - 1)
    } else {
        children_before(links, p, k - 1)
    }
}

pub open spec fn indices_model(v: Seq<usize>) -> Seq<int> {
    v.map_values(|i: usize| i as int)
}

/// Which lines are roots and which lines hang under each line.
#[derive(Debug, Clone, PartialEq, Eq)]
pub struct ForestLinks {
    pub roots: Vec<usize>,
    pub children: Vec<Vec<usize>>,
}

proof fn lemma_last_index_of(links: Seq<(u64, Option<u64>)>, p: u64, k: int)
    requires
        0 <= k <= links.len(),
    ensures
        match last_index_of(links, p, k) {
            Some(j) => 0 <= j < k && links[j].0 == p,
            None => forall|j: int| 0 <= j < k ==> links[j].0 != p,
        },
    decreases k,
{
    if k > 0 {
        lemma_last_index_of(links, p, k - 1);
    }
}

proof fn lemma_push_contains(s: Seq<int>, x: int, i: int)
    ensures
        s.push(x).contains(i) <==> (s.contains(i) || x == i),
{
    if s.contains(i) {
        let j = choose|j: int| 0 <= j < s.len() && s[j] == i;
        assert(s.push(x)[j] == i);
    }
    if x == i {
        assert(s.push(x)[s.len() as int] == i);
    }
    if s.push(x).contains(i) {
        let j = choose|j: int| 0 <= j < s.push(x).len() && s.push(x)[j] == i;
        if j < s.len() {
            assert(s[j] == i);
        }
    }
}

pub proof fn lemma_indices_below(links: Seq<(u64, Option<u64>)>, p: int, k: int)
    requires
        0 <= k,
    ensures
        forall|j: int|
            0 <= j < roots_before(links, k).len() ==> #[trigger] roots_before(links, k)[j] < k,
        forall|j: int|
            0 <= j < children_before(links, p, k).len() ==> #[trigger] children_before(
                links,
                p,
                k,
            )[j] < k,
    decreases k,
{
    if k > 0 {
        lemma_indices_below(links, p, k - 1);
        let r = roots_before(links, k - 1);
        let c = children_before(links, p, k - 1);
        assert forall|j: int| 0 <= j < roots_before(links, k).len() implies #[trigger] roots_before(
            links,
            k,
        )[j] < k by {
            if j < r.len() {
                assert(roots_before(links, k)[j] == r[j]);
            }
        }
        assert forall|j: int|
            0 <= j < children_before(links, p, k).len() implies #[trigger] children_before(
            links,
            p,
            k,
        )[j] < k by {
            if j < c.len() {
                assert(children_before(links, p, k)[j] == c[j]);
            }
        }
    }
}

/// Every line is a root or hangs under exactly the line its parent id
/// names: no line is lost or placed twice.
pub proof fn lemma_forest_places_every_line(links: Seq<(u64, Option<u64>)>, i: int, p: int, k: int)
    requires
        0 <= i < k <= links.len(),
    ensures
        roots_before(links, k).contains(i) <==> parent_line(links, i) is None,
        children_before(links, p, k).contains(i) <==> parent_line(links, i) == Some(p),
    decreases k,
{
    let r = roots_before(links, k - 1);
    let c = children_before(links, p, k - 1);
    lemma_push_contains(r, k - 1, i);
    lemma_push_contains(c, k - 1, i);
    if i < k - 1 {
        lemma_forest_places_every_line(links, i, p, k - 1);
    } else {
        lemma_indices_below(links, p, k - 1);
        if r.contains(i) {
            let j = choose|j: int| 0 <= j < r.len() && r[j] == i;
            assert(r[j] < k - 1);
        }
        if c.contains(i) {
            let j = choose|j: int| 0 <= j < c.len() && c[j] == i;
            assert(c[j] < k - 1);
        }
    }
}

/// The last line whose id is `p`.
fn last_line_with_id(links: &Vec<(u64, Option<u64>)>, p: u64) -> (r: Option<usize>)
    ensures
        match r {
            Some(j) => last_index_of(links@, p, links@.len() as int) == Some(j as int),
            None => last_index_of(links@, p, links@.len() as int) is None,
        },
{
    let n = links.len();
    let mut j: usize = n;
    while j > 0 && links[j - 1].0 != p
        invariant
            j <= n == links@.len(),
            last_index_of(links@, p, n as int) == last_index_of(links@, p, j as int),
        decreases j,
    {
        j = j - 1;
    }
    if j == 0 {
        None
    } else {
        Some(j - 1)
    }
}

/// The line index each line hangs under.
fn parent_lines(links: &Vec<(u64, Option<u64>)>) -> (r: Vec<Option<usize>>)
    ensures
        r@.len() == links@.len(),
        forall|i: int|
            0 <= i < r@.len() ==> (match #[trigger] r@[i] {
                Some(j) => parent_line(links@, i) == Some(j as int),
                None => parent_line(links@, i) is None,
            }),
{
    let n = links.len();
    let mut out: Vec<Option<usize>> = Vec::new();
    let mut i: usize = 0;
    while i < n
        invariant
            i <= n == links@.len(),
            out@.len() == i,
            forall|k: int|
                0 <= k < i ==> (match #[trigger] out@[k] {
                    Some(j) => parent_line(links@, k) == Some(j as int),
                    None => parent_line(links@, k) is None,
                }),
        decreases n - i,
    {
        let found: Option<usize> = match links[i].1 {
            None => None,
            Some(p) => last_line_with_id(links, p),
        };
        let ghost before = out@;
        out.push(found);
        assert forall|k: int|
            0 <= k < i + 1 implies (match #[trigger] out@[k] {
                Some(j) => parent_line(links@, k) == Some(j as int),
                None => parent_line(links@, k) is None,
            }) by {
            if k < i {
                assert(out@[k] == before[k]);
            }
        }
        i = i + 1;
    }
    out
}

/// The forest shape of flat snapshot lines given as `(id, parent_id)`:
/// lines whose parent id names no line are roots too, so no line is lost.
pub fn forest_links(links: &Vec<(u64, Option<u64>)>) -> (r: ForestLinks)
    ensures
        indices_model(r.roots@) == roots_before(links@, links@.len() as int),
        r.children@.len() == links@.len(),
        forall|p: int|
            0 <= p < links@.len() ==> indices_model(#[trigger] r.children@[p]@) == children_before(
                links@,
                p,
                links@.len() as int,
            ),
{
    let n = links.len();
    let parents = parent_lines(links);
    let mut roots: Vec<usize> = Vec::new();
    let mut i: usize = 0;
    while i < n
        invariant
            i <= n == links@.len() == parents@.len(),
            forall|k: int|
                0 <= k < n ==> (match #[trigger] parents@[k] {
                    Some(j) => parent_line(links@, k) == Some(j as int),
                    None => parent_line(links@, k) is None,
                }),
            indices_model(roots@) == roots_before(links@, i as int),
        decreases n - i,
    {
        let ghost before = indices_model(roots@);
        if parents[i].is_none() {
            roots.push(i);
            assert(indices_model(roots@) =~= before.push(i as int));
        }
        i = i + 1;
    }
    let mut children: Vec<Vec<usize>> = Vec::new();
    let mut p: usize = 0;
    while p < n
        invariant
            p <= n == links@.len() == parents@.len(),
            forall|k: int|
                0 <= k < n ==> (match #[trigger] parents@[k] {
                    Some(j) => parent_line(links@, k) == Some(j as int),
                    None => parent_line(links@, k) is None,
                }),
            children@.len() == p,
            forall|q: int|
                0 <= q < p ==> indices_model(#[trigger] children@[q]@) == children_before(
                    links@,
                    q,
                    n as int,
                ),
        decreases n - p,
    {
        let mut kids: Vec<usize> = Vec::new();
        let mut k: usize = 0;
        while k < n
            invariant
                k <= n == links@.len() == parents@.len(),
                p < n,
                forall|m: int|
                    0 <= m < n ==> (match #[trigger] parents@[m] {
                        Some(j) => parent_line(links@, m) == Some(j as int),
                        None => parent_line(links@, m) is None,
                    }),
                indices_model(kids@) == children_before(links@, p as int, k as int),
            decreases n - k,
        {
            let ghost before = indices_model(kids@);
            if parents[k] == Some(p) {
                kids.push(k);
                assert(indices_model(kids@) =~= before.push(k as int));
            }
            k = k + 1;
        }
        children.push(kids);
        p = p + 1;
    }
    ForestLinks { roots, children }
}

// ---------------------------------------------------------------------------
// Loading errors
// ---------------------------------------------------------------------------

#[verifier::external_type_specification]
#[verifier::external_body]
pub struct ExJsonError(serde_json::Error);

/// Why a snapshot could not be loaded.
#[derive(Debug)]
pub enum DiffError {
    Io(std::io::Error),
    Json(serde_json::Error),
    MixedLayout,
}

/// The text of `serde_json::Error`'s `Display` for `e`. Nothing is
/// promised of it here: the error value is opaque to the library.
#[verifier::external_body]
fn json_error_text(e: &serde_json::Error) -> String {
    e.to_string()
}

impl DiffError {
    /// The human-readable text of the error.
    pub fn message(&self) -> (r: String)
        ensures
            self is Io ==> "io error: "@.is_prefix_of(r@),
            self is Json ==> "invalid jsonl: "@.is_prefix_of(r@),
            self is MixedLayout ==> r@ == "snapshot mixes tree and flat layouts in a single file"@,
    {
        let mut v: Vec<char> = Vec::new();
        match self {
            DiffError::Io(e) => {
                push_str(&mut v, "io error: ");
                let t = crate::cdp::io_error_text(e);
                push_str(&mut v, t.as_str());
            },
            DiffError::Json(e) => {
                push_str(&mut v, "invalid jsonl: ");
                let t = json_error_text(e);
                push_str(&mut v, t.as_str());
            },
            DiffError::MixedLayout => {
                push_str(&mut v, "snapshot mixes tree and flat layouts in a single file");
            },
        }
        string_of(v)
    }
}

impl From<std::io::Error> for DiffError {
    fn from(e: std::io::Error) -> (r: DiffError) {
        DiffError::Io(e)
    }
}

impl vstd::std_specs::convert::FromSpecImpl<std::io::Error> for DiffError {
    open spec fn obeys_from_spec() -> bool {
        true
    }

    open spec fn from_spec(v: std::io::Error) -> DiffError {
        DiffError::Io(v)
    }
}

impl From<serde_json::Error> for DiffError {
    fn from(e: serde_json::Error) -> (r: DiffError) {
        DiffError::Json(e)
    }
}

impl vstd::std_specs::convert::FromSpecImpl<serde_json::Error> for DiffError {
    open spec fn obeys_from_spec() -> bool {
        true
    }

    open spec fn from_spec(v: serde_json::Error) -> DiffError {
        DiffError::Json(v)
    }
}

} // verus!
