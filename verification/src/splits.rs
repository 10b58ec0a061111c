//! Split panes: the layout of a tab's panes, rebuilt from the panes' frames as a tree of
//! splits, each cutting a region in two along one straight line.
use vstd::prelude::*;

use crate::script::{self, TabRow};
use crate::text;

verus! {

/// One pane of a captured tab: the tab it belongs to (counted from 1), its working
/// directory, and its frame on screen.
#[derive(Clone, Debug)]
pub struct PaneRow {
    pub tab: usize,
    pub working_dir: String,
    pub x: u32,
    pub y: u32,
    pub width: u32,
    pub height: u32,
}

/// How a tab's panes are laid out: one pane (by its position in the captured panes), or a
/// region split in two, side by side or (`down`) one above the other.
#[derive(Debug)]
pub enum SplitTree {
    Pane(usize),
    Split { down: bool, first: Box<SplitTree>, second: Box<SplitTree> },
}

// ---------------------------------------------------------------------------
// Specifications
// ---------------------------------------------------------------------------

/// Where a pane ends along the cut's axis: its right edge, or (`down`) its bottom edge.
pub open spec fn far_edge(p: PaneRow, down: bool) -> int {
    if down {
        p.y + p.height
    } else {
        p.x + p.width
    }
}

/// Where a pane starts along the cut's axis: its left edge, or (`down`) its top edge.
pub open spec fn near_edge(p: PaneRow, down: bool) -> int {
    if down {
        p.y as int
    } else {
        p.x as int
    }
}

/// The panes (by position) that lie wholly before the line at `c` (`before`), or the others,
/// in their order.
pub open spec fn side(ps: Seq<PaneRow>, ids: Seq<usize>, down: bool, c: int, before: bool) -> Seq<usize>
    decreases ids.len(),
{
    if ids.len() == 0 {
        seq![]
    } else {
        let rest = side(ps, ids.drop_last(), down, c, before);
        if (far_edge(ps[ids.last() as int], down) <= c) == before {
            rest.push(ids.last())
        } else {
            rest
        }
    }
}

/// The line at `c` cuts the panes in two: each lies wholly on one side, and both sides hold
/// some.
pub open spec fn is_cut(ps: Seq<PaneRow>, ids: Seq<usize>, down: bool, c: int) -> bool {
    &&& forall|k: int|
        0 <= k < ids.len() ==> far_edge(ps[#[trigger] ids[k] as int], down) <= c || near_edge(
            ps[ids[k] as int],
            down,
        ) >= c
    &&& side(ps, ids, down, c, true).len() > 0
    &&& side(ps, ids, down, c, false).len() > 0
}

/// The first cut along the far edge of a pane, trying the panes from position `k` on.
pub open spec fn first_cut_from(ps: Seq<PaneRow>, ids: Seq<usize>, down: bool, k: int) -> Option<int>
    decreases ids.len() - k,
{
    if k < 0 || k >= ids.len() {
        None
    } else if is_cut(ps, ids, down, far_edge(ps[ids[k] as int], down)) {
        Some(far_edge(ps[ids[k] as int], down))
    } else {
        first_cut_from(ps, ids, down, k + 1)
    }
}

/// The cut a region is split along: side by side when some line does it, else one above the
/// other.
pub open spec fn find_cut(ps: Seq<PaneRow>, ids: Seq<usize>) -> Option<(bool, int)> {
    match first_cut_from(ps, ids, false, 0) {
        Some(c) => Some((false, c)),
        None => match first_cut_from(ps, ids, true, 0) {
            Some(c) => Some((true, c)),
            None => None,
        },
    }
}

/// The layout of the panes `ids`: a single pane, or the first cut with each side laid out in
/// turn; `None` when no straight cut divides some region (or there are no panes).
pub open spec fn layout(ps: Seq<PaneRow>, ids: Seq<usize>) -> Option<SplitTree>
    decreases ids.len(),
{
    if ids.len() == 0 {
        None
    } else if ids.len() == 1 {
        Some(SplitTree::Pane(ids[0]))
    } else {
        match find_cut(ps, ids) {
            None => None,
            Some((down, c)) => {
                let a = side(ps, ids, down, c, true);
                let b = side(ps, ids, down, c, false);
                if 0 < a.len() < ids.len() && 0 < b.len() < ids.len() {
                    match (layout(ps, a), layout(ps, b)) {
                        (Some(ta), Some(tb)) => Some(
                            SplitTree::Split { down, first: Box::new(ta), second: Box::new(tb) },
                        ),
                        _ => None,
                    }
                } else {
                    None
                }
            },
        }
    }
}

/// The panes of a layout, first side before second.
pub open spec fn leaves(t: SplitTree) -> Seq<usize>
    decreases t,
{
    match t {
        SplitTree::Pane(i) => seq![i],
        SplitTree::Split { first, second, .. } => leaves(*first) + leaves(*second),
    }
}

/// Every split of the layout has all the panes of its first side wholly before all the panes
/// of its second side, along the split's axis.
pub open spec fn separated(ps: Seq<PaneRow>, t: SplitTree) -> bool
    decreases t,
{
    match t {
        SplitTree::Pane(_) => true,
        SplitTree::Split { down, first, second } => {
            &&& forall|i: usize, j: usize|
                leaves(*first).contains(i) && leaves(*second).contains(j) ==> far_edge(ps[i as int], down)
                    <= near_edge(ps[j as int], down)
            &&& separated(ps, *first)
            &&& separated(ps, *second)
        },
    }
}

pub open spec fn valid_ids(ps: Seq<PaneRow>, ids: Seq<usize>) -> bool {
    forall|k: int| 0 <= k < ids.len() ==> #[trigger] ids[k] < ps.len()
}

/// A pane as a value: its tab, frame (x, y, width, height) and working directory.
pub open spec fn pane_view(p: PaneRow) -> (nat, nat, nat, nat, nat, Seq<char>) {
    (p.tab as nat, p.x as nat, p.y as nat, p.width as nat, p.height as nat, p.working_dir@)
}

pub open spec fn panes_view(ps: Seq<PaneRow>) -> Seq<(nat, nat, nat, nat, nat, Seq<char>)> {
    Seq::new(ps.len(), |i: int| pane_view(ps[i]))
}

/// A number at the front of `s` that fits a `u32`, followed by a tab: its value and the text
/// after the tab.
pub open spec fn number_field(s: Seq<char>) -> Option<(nat, Seq<char>)> {
    match script::split_digits_spec(s) {
        Some((v, rest)) => if v <= u32::MAX && rest.len() > 0 && rest[0] == '\t' {
            Some((v, rest.drop_first()))
        } else {
            None
        },
        None => None,
    }
}

/// One line of the pane listing, trimmed: "tab<TAB>x<TAB>y<TAB>width<TAB>height<TAB>directory",
/// the five numbers each fitting a `u32`; `None` for any other line.
pub open spec fn captured_pane(line: Seq<char>) -> Option<(nat, nat, nat, nat, nat, Seq<char>)> {
    match number_field(text::trim(line)) {
        None => None,
        Some((tab, r1)) => match number_field(r1) {
            None => None,
            Some((x, r2)) => match number_field(r2) {
                None => None,
                Some((y, r3)) => match number_field(r3) {
                    None => None,
                    Some((w, r4)) => match number_field(r4) {
                        None => None,
                        Some((h, wd)) => Some((tab, x, y, w, h, wd)),
                    },
                },
            },
        },
    }
}

/// The panes of the pane listing, one per well-formed line, in order.
pub open spec fn captured_panes(ls: Seq<Seq<char>>) -> Seq<(nat, nat, nat, nat, nat, Seq<char>)>
    decreases ls.len(),
{
    if ls.len() == 0 {
        seq![]
    } else {
        let rest = captured_panes(ls.drop_last());
        match captured_pane(ls.last()) {
            Some(p) => rest.push(p),
            None => rest,
        }
    }
}

/// The first pane of a layout.
pub open spec fn first_leaf(t: SplitTree) -> usize
    decreases t,
{
    match t {
        SplitTree::Pane(i) => i,
        SplitTree::Split { first, .. } => first_leaf(*first),
    }
}

/// The script name of the pane at position `j`, or of its surface configuration.
pub open spec fn pane_var(j: usize) -> Seq<char> {
    "pane"@ + text::decimal(j as nat)
}

pub open spec fn pane_cfg(j: usize) -> Seq<char> {
    "pcfg"@ + text::decimal(j as nat)
}

pub open spec fn split_cfg_line(j: usize) -> Seq<char> {
    script::indent("set "@ + pane_cfg(j) + " to new surface configuration"@)
}

pub open spec fn split_dir_line(j: usize, wd: Seq<char>) -> Seq<char> {
    script::indent(
        "tell "@ + pane_cfg(j) + " to set initial working directory to "@ + seq!['"'] + script::apple_escaped(wd)
            + seq!['"'],
    )
}

pub open spec fn direction_word(down: bool) -> Seq<char> {
    if down {
        "down"@
    } else {
        "right"@
    }
}

pub open spec fn split_line(j: usize, parent: Seq<char>, down: bool) -> Seq<char> {
    script::indent(
        "set "@ + pane_var(j) + " to split "@ + parent + " direction "@ + direction_word(down)
            + " with configuration "@ + pane_cfg(j),
    )
}

/// The script lines that split the terminal `parent` into the layout `t`: each split makes a
/// new terminal for its second side, in the working directory of that side's first pane, and
/// then each side is split in turn.
pub open spec fn split_lines(ps: Seq<PaneRow>, t: SplitTree, parent: Seq<char>) -> Seq<Seq<char>>
    decreases t,
{
    match t {
        SplitTree::Pane(_) => seq![],
        SplitTree::Split { down, first, second } => {
            let j = first_leaf(*second);
            seq![split_cfg_line(j), split_dir_line(j, ps[j as int].working_dir@), split_line(j, parent, down)]
                + split_lines(ps, *first, parent) + split_lines(ps, *second, pane_var(j))
        },
    }
}

/// The positions, among the first `m` panes, of the panes of tab `n`.
pub open spec fn tab_pane_ids(ps: Seq<PaneRow>, n: nat, m: nat) -> Seq<usize>
    decreases m,
{
    if m == 0 {
        seq![]
    } else {
        let rest = tab_pane_ids(ps, n, (m - 1) as nat);
        if ps[m - 1].tab == n {
            rest.push((m - 1) as usize)
        } else {
            rest
        }
    }
}

/// The lines that lay out tab `n`'s panes, when they can be laid out.
pub open spec fn tab_layout_lines(ps: Seq<PaneRow>, n: nat) -> Seq<Seq<char>> {
    match layout(ps, tab_pane_ids(ps, n, ps.len())) {
        Some(t) => split_lines(ps, t, "term"@ + text::decimal(n)),
        None => seq![],
    }
}

/// The layout lines of tabs 1 to `count`, in order.
pub open spec fn layout_lines(ps: Seq<PaneRow>, count: nat) -> Seq<Seq<char>>
    decreases count,
{
    if count == 0 {
        seq![]
    } else {
        layout_lines(ps, (count - 1) as nat) + tab_layout_lines(ps, count)
    }
}

// ---------------------------------------------------------------------------
// Lemmas
// ---------------------------------------------------------------------------

/// The two sides of a line share out the panes: together they hold each pane once, the first
/// side the panes before the line, the second the others.
pub proof fn lemma_sides(ps: Seq<PaneRow>, ids: Seq<usize>, down: bool, c: int)
    ensures
        side(ps, ids, down, c, true).to_multiset().add(side(ps, ids, down, c, false).to_multiset())
            =~= ids.to_multiset(),
        side(ps, ids, down, c, true).len() + side(ps, ids, down, c, false).len() == ids.len(),
        forall|i: usize| #[trigger] side(ps, ids, down, c, true).contains(i) ==> ids.contains(i) && far_edge(ps[i as int], down) <= c,
        forall|i: usize| #[trigger] side(ps, ids, down, c, false).contains(i) ==> ids.contains(i) && far_edge(ps[i as int], down) > c,
    decreases ids.len(),
{
    broadcast use vstd::seq_lib::group_to_multiset_ensures;

    if ids.len() > 0 {
        let d = ids.drop_last();
        let l = ids.last();
        lemma_sides(ps, d, down, c);
        assert(ids =~= d.push(l));
        let a = side(ps, d, down, c, true);
        let b = side(ps, d, down, c, false);
        let sa = side(ps, ids, down, c, true);
        let sb = side(ps, ids, down, c, false);
        let bt = far_edge(ps[l as int], down) <= c;
        assert(sa == if bt { a.push(l) } else { a });
        assert(sb == if !bt { b.push(l) } else { b });
        assert(ids[ids.len() - 1] == l);
        assert forall|i: usize| #[trigger] sa.contains(i) implies ids.contains(i) && far_edge(ps[i as int], down) <= c by {
            let k = choose|k: int| 0 <= k < sa.len() && sa[k] == i;
            if bt && k == a.len() {
                assert(ids[ids.len() - 1] == i);
            } else {
                assert(a[k] == i);
                assert(a.contains(i));
                let j = choose|j: int| 0 <= j < d.len() && d[j] == i;
                assert(ids[j] == d[j]);
            }
        }
        assert forall|i: usize| #[trigger] sb.contains(i) implies ids.contains(i) && far_edge(ps[i as int], down) > c by {
            let k = choose|k: int| 0 <= k < sb.len() && sb[k] == i;
            if !bt && k == b.len() {
                assert(ids[ids.len() - 1] == i);
            } else {
                assert(b[k] == i);
                assert(b.contains(i));
                let j = choose|j: int| 0 <= j < d.len() && d[j] == i;
                assert(ids[j] == d[j]);
            }
        }
    } else {
        assert(side(ps, ids, down, c, true) =~= Seq::<usize>::empty());
        assert(side(ps, ids, down, c, false) =~= Seq::<usize>::empty());
    }
}

proof fn lemma_side_valid(ps: Seq<PaneRow>, ids: Seq<usize>, down: bool, c: int, before: bool)
    requires
        valid_ids(ps, ids),
    ensures
        valid_ids(ps, side(ps, ids, down, c, before)),
{
    lemma_sides(ps, ids, down, c);
    let s = side(ps, ids, down, c, before);
    assert forall|k: int| 0 <= k < s.len() implies #[trigger] s[k] < ps.len() by {
        assert(s.contains(s[k]));
        if before {
            assert(side(ps, ids, down, c, true).contains(s[k]));
        } else {
            assert(side(ps, ids, down, c, false).contains(s[k]));
        }
        let j = choose|j: int| 0 <= j < ids.len() && ids[j] == s[k];
    }
}

proof fn lemma_first_cut(ps: Seq<PaneRow>, ids: Seq<usize>, down: bool, k: int)
    ensures
        first_cut_from(ps, ids, down, k) matches Some(c) ==> is_cut(ps, ids, down, c),
    decreases ids.len() - k,
{
    if 0 <= k < ids.len() && !is_cut(ps, ids, down, far_edge(ps[ids[k] as int], down)) {
        lemma_first_cut(ps, ids, down, k + 1);
    }
}

pub proof fn lemma_tab_pane_ids(ps: Seq<PaneRow>, n: nat, m: nat)
    requires
        m <= ps.len(),
    ensures
        valid_ids(ps, tab_pane_ids(ps, n, m)),
    decreases m,
{
    if m > 0 {
        lemma_tab_pane_ids(ps, n, (m - 1) as nat);
    }
}

// ---------------------------------------------------------------------------
// Laws
// ---------------------------------------------------------------------------

/// A rebuilt layout holds each captured pane exactly once, and each of its splits has the
/// panes of one side wholly before those of the other, as they were on screen.
pub proof fn law_layout_sound(ps: Seq<PaneRow>, ids: Seq<usize>)
    requires
        valid_ids(ps, ids),
    ensures
        layout(ps, ids) matches Some(t) ==> leaves(t).to_multiset() =~= ids.to_multiset() && separated(ps, t),
    decreases ids.len(),
{
    broadcast use vstd::seq_lib::group_to_multiset_ensures;

    if ids.len() == 1 {
        assert(ids =~= Seq::<usize>::empty().push(ids[0]));
        assert(seq![ids[0]] =~= Seq::<usize>::empty().push(ids[0]));
    } else if ids.len() > 1 {
        match find_cut(ps, ids) {
            None => {},
            Some((down, c)) => {
                let a = side(ps, ids, down, c, true);
                let b = side(ps, ids, down, c, false);
                if 0 < a.len() < ids.len() && 0 < b.len() < ids.len() {
                    lemma_first_cut(ps, ids, false, 0);
                    lemma_first_cut(ps, ids, true, 0);
                    assert(is_cut(ps, ids, down, c));
                    lemma_sides(ps, ids, down, c);
                    lemma_side_valid(ps, ids, down, c, true);
                    lemma_side_valid(ps, ids, down, c, false);
                    law_layout_sound(ps, a);
                    law_layout_sound(ps, b);
                    if let (Some(ta), Some(tb)) = (layout(ps, a), layout(ps, b)) {
                        vstd::seq_lib::lemma_multiset_commutative(leaves(ta), leaves(tb));
                        assert forall|i: usize, j: usize|
                            leaves(ta).contains(i) && leaves(tb).contains(j) implies far_edge(ps[i as int], down)
                            <= near_edge(ps[j as int], down) by {
                            assert(leaves(ta).to_multiset().count(i) > 0);
                            assert(a.contains(i));
                            assert(leaves(tb).to_multiset().count(j) > 0);
                            assert(b.contains(j));
                            let k = choose|k: int| 0 <= k < ids.len() && ids[k] == j;
                            assert(far_edge(ps[ids[k] as int], down) <= c || near_edge(ps[ids[k] as int], down) >= c);
                        }
                    }
                }
            },
        }
    }
}

/// The panes of a layout rebuilt from valid positions are valid positions.
pub proof fn lemma_layout_valid(ps: Seq<PaneRow>, ids: Seq<usize>)
    requires
        valid_ids(ps, ids),
    ensures
        layout(ps, ids) matches Some(t) ==> valid_ids(ps, leaves(t)),
{
    broadcast use vstd::seq_lib::group_to_multiset_ensures;

    law_layout_sound(ps, ids);
    if let Some(t) = layout(ps, ids) {
        let l = leaves(t);
        assert forall|k: int| 0 <= k < l.len() implies #[trigger] l[k] < ps.len() by {
            assert(l.contains(l[k]));
            assert(l.to_multiset().count(l[k]) > 0);
            assert(ids.contains(l[k]));
            let j = choose|j: int| 0 <= j < ids.len() && ids[j] == l[k];
        }
    }
}

// ---------------------------------------------------------------------------
// Executable functions
// ---------------------------------------------------------------------------

fn far_edge_exec(p: &PaneRow, down: bool) -> (r: u64)
    ensures
        r == far_edge(*p, down),
{
    if down {
        p.y as u64 + p.height as u64
    } else {
        p.x as u64 + p.width as u64
    }
}

fn near_edge_exec(p: &PaneRow, down: bool) -> (r: u64)
    ensures
        r == near_edge(*p, down),
{
    if down {
        p.y as u64
    } else {
        p.x as u64
    }
}

/// The panes of `ids` on one side of the line at `c` (see `side`).
fn side_exec(ps: &Vec<PaneRow>, ids: &Vec<usize>, down: bool, c: u64, before: bool) -> (r: Vec<usize>)
    requires
        valid_ids(ps@, ids@),
    ensures
        r@ == side(ps@, ids@, down, c as int, before),
{
    let mut r: Vec<usize> = Vec::new();
    assert(ids@.take(0) =~= Seq::<usize>::empty());
    for k in 0..ids.len()
        invariant
            valid_ids(ps@, ids@),
            r@ == side(ps@, ids@.take(k as int), down, c as int, before),
    {
        assert(ids@.take(k + 1).drop_last() =~= ids@.take(k as int));
        assert(ids@.take(k + 1).last() == ids@[k as int]);
        assert(ids@[k as int] < ps@.len());
        if (far_edge_exec(&ps[ids[k]], down) <= c) == before {
            r.push(ids[k]);
        }
    }
    assert(ids@.take(ids.len() as int) =~= ids@);
    r
}

/// Whether the line at `c` cuts the panes of `ids` in two (see `is_cut`).
fn is_cut_exec(ps: &Vec<PaneRow>, ids: &Vec<usize>, down: bool, c: u64) -> (r: bool)
    requires
        valid_ids(ps@, ids@),
    ensures
        r == is_cut(ps@, ids@, down, c as int),
{
    let mut k: usize = 0;
    while k < ids.len()
        invariant
            valid_ids(ps@, ids@),
            k <= ids.len(),
            forall|j: int|
                0 <= j < k ==> far_edge(ps@[#[trigger] ids@[j] as int], down) <= c || near_edge(
                    ps@[ids@[j] as int],
                    down,
                ) >= c,
        decreases ids.len() - k,
    {
        assert(ids@[k as int] < ps@.len());
        let p = &ps[ids[k]];
        if !(far_edge_exec(p, down) <= c || near_edge_exec(p, down) >= c) {
            return false;
        }
        k += 1;
    }
    side_exec(ps, ids, down, c, true).len() > 0 && side_exec(ps, ids, down, c, false).len() > 0
}

/// The first cut along a pane's far edge (see `first_cut_from`).
fn first_cut(ps: &Vec<PaneRow>, ids: &Vec<usize>, down: bool) -> (r: Option<u64>)
    requires
        valid_ids(ps@, ids@),
    ensures
        match r {
            Some(c) => first_cut_from(ps@, ids@, down, 0) == Some(c as int),
            None => first_cut_from(ps@, ids@, down, 0) is None,
        },
{
    let mut k: usize = 0;
    while k < ids.len()
        invariant
            valid_ids(ps@, ids@),
            k <= ids.len(),
            first_cut_from(ps@, ids@, down, 0) == first_cut_from(ps@, ids@, down, k as int),
        decreases ids.len() - k,
    {
        assert(ids@[k as int] < ps@.len());
        let c = far_edge_exec(&ps[ids[k]], down);
        if is_cut_exec(ps, ids, down, c) {
            return Some(c);
        }
        k += 1;
    }
    None
}

/// Rebuilds the layout of the panes `ids` of `panes` from their frames (see `layout`).
pub fn split_tree(panes: &Vec<PaneRow>, ids: Vec<usize>) -> (r: Option<SplitTree>)
    requires
        valid_ids(panes@, ids@),
    ensures
        r == layout(panes@, ids@),
    decreases ids.len(),
{
    if ids.len() == 0 {
        return None;
    }
    if ids.len() == 1 {
        return Some(SplitTree::Pane(ids[0]));
    }
    let (down, c) = match first_cut(panes, &ids, false) {
        Some(c) => (false, c),
        None => match first_cut(panes, &ids, true) {
            Some(c) => (true, c),
            None => return None,
        },
    };
    let a = side_exec(panes, &ids, down, c, true);
    let b = side_exec(panes, &ids, down, c, false);
    if !(0 < a.len() && a.len() < ids.len() && 0 < b.len() && b.len() < ids.len()) {
        return None;
    }
    proof {
        lemma_side_valid(panes@, ids@, down, c as int, true);
        lemma_side_valid(panes@, ids@, down, c as int, false);
    }
    let ta = match split_tree(panes, a) {
        Some(t) => t,
        None => return None,
    };
    let tb = match split_tree(panes, b) {
        Some(t) => t,
        None => return None,
    };
    Some(SplitTree::Split { down, first: Box::new(ta), second: Box::new(tb) })
}

/// Appends the lines that split `parent` into the layout `t` (see `split_lines`).
fn push_split_lines(ps: &Vec<PaneRow>, t: &SplitTree, parent: &Vec<char>, out: &mut Vec<Vec<char>>)
    requires
        valid_ids(ps@, leaves(*t)),
    ensures
        text::views(final(out)@) == text::views(old(out)@) + split_lines(ps@, *t, parent@),
    decreases t,
{
    match t {
        SplitTree::Pane(_) => {
            assert(text::views(out@) =~= text::views(out@) + Seq::<Seq<char>>::empty());
        },
        SplitTree::Split { down, first, second } => {
            let ghost start = text::views(out@);
            let ghost lf = leaves(**first);
            let ghost ls = leaves(**second);
            assert(leaves(*t) == lf + ls);
            assert(valid_ids(ps@, lf)) by {
                assert forall|k: int| 0 <= k < lf.len() implies #[trigger] lf[k] < ps@.len() by {
                    assert(leaves(*t)[k] == lf[k]);
                }
            }
            assert(valid_ids(ps@, ls)) by {
                assert forall|k: int| 0 <= k < ls.len() implies #[trigger] ls[k] < ps@.len() by {
                    assert(leaves(*t)[lf.len() + k] == ls[k]);
                }
            }
            let j = first_leaf_exec(second);
            proof {
                lemma_first_leaf(**second);
            }
            let d = text::decimal_chars(j);
            let mut cfg = text::to_chars("pcfg");
            text::extend(&mut cfg, &d);
            let mut var = text::to_chars("pane");
            text::extend(&mut var, &d);
            let mut l1 = text::to_chars("set ");
            text::extend(&mut l1, &cfg);
            text::extend_str(&mut l1, " to new surface configuration");
            out.push(script::indent_chars(&l1));
            let mut l2 = text::to_chars("tell ");
            text::extend(&mut l2, &cfg);
            text::extend_str(&mut l2, " to set initial working directory to ");
            l2.push('"');
            text::extend(&mut l2, &script::escape_chars(&text::to_chars(ps[j].working_dir.as_str())));
            l2.push('"');
            out.push(script::indent_chars(&l2));
            let mut l3 = text::to_chars("set ");
            text::extend(&mut l3, &var);
            text::extend_str(&mut l3, " to split ");
            text::extend(&mut l3, parent);
            text::extend_str(&mut l3, " direction ");
            if *down {
                text::extend_str(&mut l3, "down");
            } else {
                text::extend_str(&mut l3, "right");
            }
            text::extend_str(&mut l3, " with configuration ");
            text::extend(&mut l3, &cfg);
            out.push(script::indent_chars(&l3));
            proof {
                assert(l1@ =~= "set "@ + pane_cfg(j) + " to new surface configuration"@);
                assert(l2@ =~= "tell "@ + pane_cfg(j) + " to set initial working directory to "@ + seq!['"']
                    + script::apple_escaped(ps@[j as int].working_dir@) + seq!['"']);
                assert(l3@ =~= "set "@ + pane_var(j) + " to split "@ + parent@ + " direction "@ + direction_word(*down)
                    + " with configuration "@ + pane_cfg(j));
                assert(text::views(out@) =~= start + seq![
                    split_cfg_line(j),
                    split_dir_line(j, ps@[j as int].working_dir@),
                    split_line(j, parent@, *down),
                ]);
            }
            let ghost mid = text::views(out@);
            push_split_lines(ps, first, parent, out);
            push_split_lines(ps, second, &var, out);
            assert(text::views(out@) =~= start + split_lines(ps@, *t, parent@));
        },
    }
}

fn first_leaf_exec(t: &SplitTree) -> (r: usize)
    ensures
        r == first_leaf(*t),
    decreases t,
{
    match t {
        SplitTree::Pane(i) => *i,
        SplitTree::Split { first, .. } => first_leaf_exec(first),
    }
}

proof fn lemma_first_leaf(t: SplitTree)
    ensures
        leaves(t).len() > 0,
        leaves(t)[0] == first_leaf(t),
    decreases t,
{
    if let SplitTree::Split { first, second, .. } = t {
        lemma_first_leaf(*first);
        assert((leaves(*first) + leaves(*second))[0] == leaves(*first)[0]);
    }
}

/// The positions of the panes of tab `n` (see `tab_pane_ids`).
fn tab_pane_ids_exec(ps: &Vec<PaneRow>, n: usize) -> (r: Vec<usize>)
    ensures
        r@ == tab_pane_ids(ps@, n as nat, ps@.len()),
{
    let mut r: Vec<usize> = Vec::new();
    for k in 0..ps.len()
        invariant
            r@ == tab_pane_ids(ps@, n as nat, k as nat),
    {
        if ps[k].tab == n {
            r.push(k);
        }
    }
    r
}

/// The workspace script for the captured tabs and panes: each tab's panes are laid out again
/// by splits when their frames can be cut apart by straight lines (see `layout`), the split
/// lines following all the tabs.
pub fn build_workspace_script_with_panes(rows: &Vec<TabRow>, panes: &Vec<PaneRow>) -> (r: String)
    ensures
        r@ == script::workspace_script_with(script::rows_view(rows@), layout_lines(panes@, rows@.len())),
{
    let mut extra: Vec<Vec<char>> = Vec::new();
    assert(text::views(extra@) =~= layout_lines(panes@, 0));
    for i in 0..rows.len()
        invariant
            text::views(extra@) == layout_lines(panes@, i as nat),
    {
        let n = i + 1;
        let ids = tab_pane_ids_exec(panes, n);
        proof {
            lemma_tab_pane_ids(panes@, n as nat, panes@.len());
            lemma_layout_valid(panes@, ids@);
        }
        let ghost before = text::views(extra@);
        match split_tree(panes, ids) {
            Some(t) => {
                let mut parent = text::to_chars("term");
                text::extend(&mut parent, &text::decimal_chars(n));
                push_split_lines(panes, &t, &parent, &mut extra);
            },
            None => {
                assert(text::views(extra@) =~= before + Seq::<Seq<char>>::empty());
            },
        }
        assert(layout_lines(panes@, n as nat) == layout_lines(panes@, i as nat) + tab_layout_lines(panes@, n as nat));
    }
    script::build_script_with(rows, extra)
}

/// Reads a number field (see `number_field`).
fn number_field_exec(v: &Vec<char>) -> (r: Option<(u32, Vec<char>)>)
    ensures
        match r {
            Some((n, rest)) => number_field(v@) == Some((n as nat, rest@)),
            None => number_field(v@) is None,
        },
{
    match script::split_digits_chars(v) {
        Some((n, rest)) => {
            if n <= 4294967295usize && rest.len() > 0 && rest[0] == '\t' {
                let tail = text::slice(&rest, 1, rest.len());
                assert(tail@ =~= rest@.drop_first());
                Some((n as u32, tail))
            } else {
                None
            }
        },
        None => None,
    }
}

/// The panes of the front window from the pane listing (trimmed as a whole), one
/// "tab<TAB>x<TAB>y<TAB>width<TAB>height<TAB>directory" per line; other lines are skipped.
pub fn capture_ghostty_panes(output: &str) -> (r: Vec<PaneRow>)
    ensures
        panes_view(r@) == captured_panes(text::lines(text::trim(output@))),
{
    let v = text::trim_chars(&text::to_chars(output));
    let ls = text::split_lines(&v);
    let ghost all = text::lines(text::trim(output@));
    let mut r: Vec<PaneRow> = Vec::new();
    assert(all.take(0) =~= Seq::<Seq<char>>::empty());
    assert(panes_view(r@) =~= captured_panes(all.take(0)));
    for i in 0..ls.len()
        invariant
            text::views(ls@) == all,
            panes_view(r@) == captured_panes(all.take(i as int)),
    {
        assert(text::views(ls@)[i as int] == ls@[i as int]@);
        assert(all.take(i + 1).drop_last() =~= all.take(i as int));
        assert(all.take(i + 1).last() == ls@[i as int]@);
        let t = text::trim_chars(&ls[i]);
        let ghost before = r@;
        if let Some((tab, r1)) = number_field_exec(&t) {
            if let Some((x, r2)) = number_field_exec(&r1) {
                if let Some((y, r3)) = number_field_exec(&r2) {
                    if let Some((w, r4)) = number_field_exec(&r3) {
                        if let Some((h, wd)) = number_field_exec(&r4) {
                            r.push(PaneRow {
                                tab: tab as usize,
                                working_dir: text::from_chars(&wd),
                                x,
                                y,
                                width: w,
                                height: h,
                            });
                            assert(panes_view(r@) =~= panes_view(before).push(pane_view(r@[r@.len() - 1])));
                        }
                    }
                }
            }
        }
    }
    assert(all.take(ls.len() as int) =~= all);
    r
}

} // verus!
