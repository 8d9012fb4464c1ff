//! Arrangement of rendered fragments into one width-bounded row, and
//! hit-testing of columns back to workspace indices.
//!
//! When every label fits the budget, all labels are shown in position order.
//! Otherwise a window of labels around the active one is shown: neighbors to
//! the right of the window are taken first, then neighbors to the left, as
//! long as they fit together with the overflow indicators — a fixed choice,
//! so identical inputs give identical output.  An overflow indicator ` +N `
//! appears on each side that hides `N` labels.  If not even the active
//! label fits with the indicators it stands alone, and if it still exceeds
//! the budget its text is cut and given a trailing ellipsis.

use vstd::prelude::*;

use crate::LinePart;
use crate::LinePartV;
use crate::style::Palette;
use crate::style::reversed_spec;
use crate::style::styled_spec;
use crate::style::push_reversed;
use crate::style::push_styled;
use crate::tab::padded_spec;
use crate::util::char_count;
use crate::util::dec_spec;
use crate::util::dec_string;

verus! {

/// The values of a fragment vector.
pub open spec fn views_of(s: Seq<LinePart>) -> Seq<LinePartV> {
    Seq::new(s.len(), |i: int| s[i]@)
}

/// The display columns occupied by the fragments `s[lo..hi]`.
pub open spec fn width_sum(s: Seq<LinePartV>, lo: int, hi: int) -> int
    decreases hi - lo,
{
    if lo >= hi {
        0
    } else {
        s[lo].width + width_sum(s, lo + 1, hi)
    }
}

/// Every fragment has a non-negative width.
pub open spec fn widths_ok(s: Seq<LinePartV>) -> bool {
    forall|i: int| 0 <= i < s.len() ==> (#[trigger] s[i]).width >= 0
}

pub proof fn lemma_width_sum_snoc(s: Seq<LinePartV>, lo: int, hi: int)
    requires
        lo <= hi,
    ensures
        width_sum(s, lo, hi + 1) == width_sum(s, lo, hi) + s[hi].width,
    decreases hi - lo,
{
    if lo < hi {
        lemma_width_sum_snoc(s, lo + 1, hi);
    } else {
        assert(width_sum(s, lo, hi) == 0);
        assert(width_sum(s, lo + 1, hi + 1) == 0);
    }
}

pub proof fn lemma_width_sum_nonneg(s: Seq<LinePartV>, lo: int, hi: int)
    requires
        widths_ok(s),
        0 <= lo,
        hi <= s.len(),
    ensures
        width_sum(s, lo, hi) >= 0,
    decreases hi - lo,
{
    if lo < hi {
        lemma_width_sum_nonneg(s, lo + 1, hi);
    }
}

/// A prefix of a range never occupies more columns than the whole range.
pub proof fn lemma_width_sum_mono(s: Seq<LinePartV>, lo: int, mid: int, hi: int)
    requires
        widths_ok(s),
        0 <= lo <= mid <= hi <= s.len(),
    ensures
        width_sum(s, lo, mid) <= width_sum(s, lo, hi),
    decreases mid - lo,
{
    if lo < mid {
        lemma_width_sum_mono(s, lo + 1, mid, hi);
    } else {
        lemma_width_sum_nonneg(s, lo, hi);
    }
}

/// The text of an overflow indicator hiding `hidden` labels.
pub open spec fn more_text_spec(hidden: int) -> Seq<char> {
    seq![' ', '+'] + dec_spec(hidden) + seq![' ']
}

/// Decoration text: colored like an inactive label, or plain when the
/// surface has no color support.
pub open spec fn deco_text_spec(txt: Seq<char>, p: Palette, colored: bool) -> Seq<char> {
    if colored {
        styled_spec(txt, p.black, p.fg)
    } else {
        txt
    }
}

/// The overflow-indicator fragment.
pub open spec fn more_part_spec(hidden: int, p: Palette, colored: bool) -> LinePartV {
    LinePartV {
        part: deco_text_spec(more_text_spec(hidden), p, colored),
        width: more_text_spec(hidden).len() as int,
        tab_index: None,
    }
}

/// The session-name fragment.
pub open spec fn session_part_spec(name: Seq<char>, p: Palette, colored: bool) -> LinePartV {
    LinePartV {
        part: deco_text_spec(padded_spec(name), p, colored),
        width: padded_spec(name).len() as int,
        tab_index: None,
    }
}

/// The swap-layout indicator text: the layout name (`unnamed` when the
/// layout has none) with a dirty marker.
pub open spec fn swap_text_spec(swap: Option<Seq<char>>) -> Seq<char> {
    let name: Seq<char> = match swap {
        Some(n) => n,
        None => "unnamed"@,
    };
    seq![' '] + name + seq!['*', ' ']
}

/// The swap-layout fragment.
pub open spec fn swap_part_spec(swap: Option<Seq<char>>, p: Palette, colored: bool) -> LinePartV {
    LinePartV {
        part: deco_text_spec(swap_text_spec(swap), p, colored),
        width: swap_text_spec(swap).len() as int,
        tab_index: None,
    }
}

/// The decoration fragments ahead of the labels: the session name (unless
/// hidden) and, when the active workspace's layout differs from its saved
/// layout, the swap-layout indicator.
pub open spec fn prefix_parts_spec(
    session: Option<Seq<char>>,
    hide: bool,
    swap: Option<Seq<char>>,
    dirty: bool,
    p: Palette,
    colored: bool,
) -> Seq<LinePartV> {
    let base: Seq<LinePartV> = match session {
        Some(n) => if hide {
            Seq::empty()
        } else {
            seq![session_part_spec(n, p, colored)]
        },
        None => Seq::empty(),
    };
    if dirty {
        base.push(swap_part_spec(swap, p, colored))
    } else {
        base
    }
}

/// Columns taken by the overflow indicators of window `[lo, hi)`.
pub open spec fn inds_width(lo: int, hi: int, n: int) -> int {
    (if lo > 0 {
        more_text_spec(lo).len() as int
    } else {
        0
    }) + (if hi < n {
        more_text_spec(n - hi).len() as int
    } else {
        0
    })
}

/// The window `[lo, hi)` fits the budget together with its indicators.
pub open spec fn fits(tabs: Seq<LinePartV>, lo: int, hi: int, budget: int) -> bool {
    width_sum(tabs, lo, hi) + inds_width(lo, hi, tabs.len() as int) <= budget
}

/// Greedy window growth: take the next label to the right while it fits,
/// then the next to the left, until neither fits.
pub open spec fn grow(tabs: Seq<LinePartV>, lo: int, hi: int, budget: int) -> (int, int)
    recommends
        0 <= lo <= hi <= tabs.len(),
    decreases lo + tabs.len() - hi,
        when 0 <= lo <= hi <= tabs.len()
{
    if hi < tabs.len() && fits(tabs, lo, hi + 1, budget) {
        grow(tabs, lo, hi + 1, budget)
    } else if lo > 0 && fits(tabs, lo - 1, hi, budget) {
        grow(tabs, lo - 1, hi, budget)
    } else {
        (lo, hi)
    }
}

/// The grown window stays inside bounds, still contains the start window,
/// and fits the budget.
pub proof fn lemma_grow_props(tabs: Seq<LinePartV>, lo: int, hi: int, budget: int)
    requires
        0 <= lo <= hi <= tabs.len(),
        fits(tabs, lo, hi, budget),
    ensures
        0 <= grow(tabs, lo, hi, budget).0 <= lo,
        hi <= grow(tabs, lo, hi, budget).1 <= tabs.len(),
        fits(tabs, grow(tabs, lo, hi, budget).0, grow(tabs, lo, hi, budget).1, budget),
    decreases lo + tabs.len() - hi,
{
    if hi < tabs.len() && fits(tabs, lo, hi + 1, budget) {
        lemma_grow_props(tabs, lo, hi + 1, budget);
    } else if lo > 0 && fits(tabs, lo - 1, hi, budget) {
        lemma_grow_props(tabs, lo - 1, hi, budget);
    }
}

/// Concatenation splits a row's width.
proof fn lemma_width_sum_concat(a: Seq<LinePartV>, b: Seq<LinePartV>)
    ensures
        width_sum(a + b, 0, (a + b).len() as int) == width_sum(a, 0, a.len() as int) + width_sum(
            b,
            0,
            b.len() as int,
        ),
    decreases a.len(),
{
    let c = a + b;
    if a.len() == 0 {
        assert(c =~= b);
    } else {
        lemma_width_sum_concat(a.drop_first(), b);
        assert(c.drop_first() =~= a.drop_first() + b);
        lemma_width_sum_shift(c, 1, c.len() as int);
        lemma_width_sum_shift(a, 1, a.len() as int);
        assert(c[0] == a[0]);
    }
}

/// A slice of the labels occupies the same columns wherever it stands.
proof fn lemma_width_sum_subrange(s: Seq<LinePartV>, lo: int, hi: int)
    requires
        0 <= lo <= hi <= s.len(),
    ensures
        width_sum(s.subrange(lo, hi), 0, hi - lo) == width_sum(s, lo, hi),
    decreases hi - lo,
{
    let sub = s.subrange(lo, hi);
    if lo < hi {
        lemma_width_sum_subrange(s, lo + 1, hi);
        assert(sub[0] == s[lo]);
        assert(sub.drop_first() =~= s.subrange(lo + 1, hi));
        lemma_width_sum_shift(sub, 1, hi - lo);
    }
}

/// Law: the composed row never exceeds the column budget, whichever case
/// of the layout applies.
pub proof fn lemma_line_within_budget(
    session: Option<Seq<char>>,
    hide: bool,
    swap: Option<Seq<char>>,
    dirty: bool,
    tabs: Seq<LinePartV>,
    active: int,
    active_label: Seq<char>,
    cols: int,
    p: Palette,
    colored: bool,
)
    requires
        0 <= active < tabs.len(),
        widths_ok(tabs),
        cols >= 0,
    ensures
        ({
            let r = tab_line_spec(
                session,
                hide,
                swap,
                dirty,
                tabs,
                active,
                active_label,
                cols,
                p,
                colored,
            );
            width_sum(r, 0, r.len() as int) <= cols
        }),
{
    let r = tab_line_spec(session, hide, swap, dirty, tabs, active, active_label, cols, p, colored);
    let pre0 = prefix_parts_spec(session, hide, swap, dirty, p, colored);
    let pre: Seq<LinePartV> = if width_sum(pre0, 0, pre0.len() as int) <= cols {
        pre0
    } else {
        Seq::empty()
    };
    let pw = width_sum(pre, 0, pre.len() as int);
    assert(pw <= cols);
    let budget = cols - pw;
    let n = tabs.len() as int;
    if width_sum(tabs, 0, n) <= budget {
        lemma_width_sum_concat(pre, tabs);
    } else if fits(tabs, active, active + 1, budget) {
        lemma_grow_props(tabs, active, active + 1, budget);
        let lohi = grow(tabs, active, active + 1, budget);
        let left: Seq<LinePartV> = if lohi.0 > 0 {
            seq![more_part_spec(lohi.0, p, colored)]
        } else {
            Seq::empty()
        };
        let right: Seq<LinePartV> = if lohi.1 < n {
            seq![more_part_spec(n - lohi.1, p, colored)]
        } else {
            Seq::empty()
        };
        let sub = tabs.subrange(lohi.0, lohi.1);
        lemma_width_sum_concat(pre, left);
        lemma_width_sum_concat(pre + left, sub);
        lemma_width_sum_concat(pre + left + sub, right);
        lemma_width_sum_subrange(tabs, lohi.0, lohi.1);
        if lohi.0 > 0 {
            assert(width_sum(left, 1, 1) == 0);
        }
        if lohi.1 < n {
            assert(width_sum(right, 1, 1) == 0);
        }
        assert(width_sum(left, 0, left.len() as int) == (if lohi.0 > 0 {
            more_text_spec(lohi.0).len() as int
        } else {
            0
        }));
        assert(width_sum(right, 0, right.len() as int) == (if lohi.1 < n {
            more_text_spec(n - lohi.1).len() as int
        } else {
            0
        }));
        assert(r == pre + left + sub + right);
    } else if tabs[active].width <= budget {
        lemma_width_sum_concat(pre, seq![tabs[active]]);
        assert(width_sum(seq![tabs[active]], 1, 1) == 0);
        assert(width_sum(seq![tabs[active]], 0, 1) == tabs[active].width);
    } else {
        let tr = trunc_active_spec(active_label, tabs[active].tab_index, budget, p, colored);
        lemma_width_sum_concat(pre, tr);
        if budget > 0 {
            let keep: int = if active_label.len() <= budget - 1 {
                active_label.len() as int
            } else {
                budget - 1
            };
            assert(width_sum(tr, 1, 1) == 0);
            assert(width_sum(tr, 0, 1) == keep + 1);
        }
    }
}

/// The truncated rendering of the active label when nothing else fits: the
/// first `budget - 1` columns of the label and an ellipsis, styled active.
pub open spec fn trunc_active_spec(
    label: Seq<char>,
    idx: Option<usize>,
    budget: int,
    p: Palette,
    colored: bool,
) -> Seq<LinePartV> {
    if budget <= 0 {
        Seq::empty()
    } else {
        let keep = if label.len() <= budget - 1 {
            label.len() as int
        } else {
            budget - 1
        };
        let txt = label.take(keep).push('\u{2026}');
        let part = if colored {
            styled_spec(txt, p.black, p.green)
        } else {
            reversed_spec(txt)
        };
        seq![LinePartV { part: part, width: keep + 1, tab_index: idx }]
    }
}

/// The whole row: prefix decoration, then the shown labels with overflow
/// indicators.
pub open spec fn tab_line_spec(
    session: Option<Seq<char>>,
    hide: bool,
    swap: Option<Seq<char>>,
    dirty: bool,
    tabs: Seq<LinePartV>,
    active: int,
    active_label: Seq<char>,
    cols: int,
    p: Palette,
    colored: bool,
) -> Seq<LinePartV>
    recommends
        0 <= active < tabs.len(),
{
    let pre0 = prefix_parts_spec(session, hide, swap, dirty, p, colored);
    let pre: Seq<LinePartV> = if width_sum(pre0, 0, pre0.len() as int) <= cols {
        pre0
    } else {
        Seq::empty()
    };
    let budget = cols - width_sum(pre, 0, pre.len() as int);
    let n = tabs.len() as int;
    if width_sum(tabs, 0, n) <= budget {
        pre + tabs
    } else if fits(tabs, active, active + 1, budget) {
        let lohi = grow(tabs, active, active + 1, budget);
        let left: Seq<LinePartV> = if lohi.0 > 0 {
            seq![more_part_spec(lohi.0, p, colored)]
        } else {
            Seq::empty()
        };
        let right: Seq<LinePartV> = if lohi.1 < n {
            seq![more_part_spec(n - lohi.1, p, colored)]
        } else {
            Seq::empty()
        };
        pre + left + tabs.subrange(lohi.0, lohi.1) + right
    } else if tabs[active].width <= budget {
        pre + seq![tabs[active]]
    } else {
        pre + trunc_active_spec(active_label, tabs[active].tab_index, budget, p, colored)
    }
}

/// Which workspace, if any, lies under display column `col` of the row.
pub open spec fn hit_spec(parts: Seq<LinePartV>, col: int) -> Option<usize>
    decreases parts.len(),
{
    if parts.len() == 0 {
        None
    } else if col < parts[0].width {
        parts[0].tab_index
    } else {
        hit_spec(parts.drop_first(), col - parts[0].width)
    }
}

/// Law: hit-testing maps every column inside fragment `i`'s span to that
/// fragment's own workspace index, so the spans partition the row's columns
/// in fragment order and no column reaches two workspaces.
pub proof fn lemma_hit_partition(parts: Seq<LinePartV>, i: int, col: int)
    requires
        widths_ok(parts),
        0 <= i < parts.len(),
        width_sum(parts, 0, i) <= col < width_sum(parts, 0, i + 1),
    ensures
        hit_spec(parts, col) == parts[i].tab_index,
    decreases i,
{
    if i == 0 {
        lemma_width_sum_snoc(parts, 0, 0);
    } else {
        assert(width_sum(parts, 0, i) == parts[0].width + width_sum(parts, 1, i));
        lemma_width_sum_snoc(parts, 1, i);
        assert(width_sum(parts, 0, i + 1) == parts[0].width + width_sum(parts, 1, i + 1));
        lemma_width_sum_nonneg(parts, 1, i);
        let q = parts.drop_first();
        assert(forall|j: int| 0 <= j < q.len() ==> q[j] == parts[j + 1]);
        lemma_width_sum_shift(parts, 1, i + 1);
        lemma_width_sum_shift(parts, 1, i);
        lemma_hit_partition(q, i - 1, col - parts[0].width);
    }
}

/// Dropping the first fragment shifts range sums by one position.
proof fn lemma_width_sum_shift(parts: Seq<LinePartV>, lo: int, hi: int)
    requires
        1 <= lo <= hi <= parts.len(),
    ensures
        width_sum(parts.drop_first(), lo - 1, hi - 1) == width_sum(parts, lo, hi),
    decreases hi - lo,
{
    if lo < hi {
        lemma_width_sum_shift(parts, lo + 1, hi);
        assert(parts.drop_first()[lo - 1] == parts[lo]);
    }
}

/// The character-sequence values of an optional host string.
pub open spec fn opt_view(s: &Option<String>) -> Option<Seq<char>> {
    match s {
        Some(x) => Some(x@),
        None => None,
    }
}

/// A decoration fragment around `txt`: no click target.
fn deco_part(txt: String, p: Palette, colored: bool) -> (r: LinePart)
    ensures
        r@.part == deco_text_spec(txt@, p, colored),
        r@.width == txt@.len(),
        r@.tab_index == None::<usize>,
{
    let width = char_count(txt.as_str());
    let mut part = String::new();
    if colored {
        push_styled(&mut part, txt.as_str(), p.black, p.fg);
    } else {
        part = txt;
    }
    LinePart { part, len: width, tab_index: None }
}

/// The text of the overflow indicator for `hidden` labels.
fn more_text(hidden: usize) -> (r: String)
    ensures
        r@ == more_text_spec(hidden as int),
{
    proof {
        reveal_strlit(" +");
        reveal_strlit(" ");
    }
    let mut txt = String::new();
    txt.append(" +");
    let num = dec_string(hidden);
    txt.append(num.as_str());
    txt.append(" ");
    proof {
        assert(" +"@ =~= seq![' ', '+']);
        assert(" "@ =~= seq![' ']);
        assert(txt@ =~= more_text_spec(hidden as int));
    }
    txt
}

/// The overflow indicator for `hidden` labels.
fn more_part(hidden: usize, p: Palette, colored: bool) -> (r: LinePart)
    ensures
        r@ == more_part_spec(hidden as int, p, colored),
{
    let txt = more_text(hidden);
    deco_part(txt, p, colored)
}

/// The columns an overflow indicator for `hidden` labels would take.
fn more_width(hidden: usize) -> (w: usize)
    ensures
        w == more_text_spec(hidden as int).len(),
{
    let txt = more_text(hidden);
    char_count(txt.as_str())
}

/// Move `src[lo..hi]` onto the end of `dst`, keeping order.
fn push_range(dst: &mut Vec<LinePart>, src: &mut Vec<LinePart>, lo: usize, hi: usize)
    requires
        lo <= hi <= old(src)@.len(),
    ensures
        final(dst)@ == old(dst)@ + old(src)@.subrange(lo as int, hi as int),
{
    let mut k: usize = 0;
    proof {
        assert(dst@ =~= old(dst)@ + old(src)@.subrange(lo as int, lo as int));
        assert(src@ =~= old(src)@.subrange(0, lo as int) + old(src)@.skip(lo as int));
    }
    while k < hi - lo
        invariant
            lo <= hi <= old(src)@.len(),
            0 <= k <= hi - lo,
            src@ == old(src)@.subrange(0, lo as int) + old(src)@.skip(lo + k),
            dst@ == old(dst)@ + old(src)@.subrange(lo as int, lo + k),
        decreases hi - lo - k,
    {
        let e = src.remove(lo);
        dst.push(e);
        k = k + 1;
        proof {
            assert(src@ =~= old(src)@.subrange(0, lo as int) + old(src)@.skip(lo + k));
            assert(dst@ =~= old(dst)@ + old(src)@.subrange(lo as int, lo + k));
        }
    }
    proof {
        assert(dst@ =~= old(dst)@ + old(src)@.subrange(lo as int, hi as int));
    }
}

/// The fragments' total width, when it stays within `budget`.
fn seq_width(parts: &Vec<LinePart>, budget: usize) -> (r: Option<usize>)
    ensures
        match r {
            Some(w) => w == width_sum(views_of(parts@), 0, parts@.len() as int) && w <= budget,
            None => width_sum(views_of(parts@), 0, parts@.len() as int) > budget,
        },
{
    let ghost v = views_of(parts@);
    let n = parts.len();
    let mut acc: usize = 0;
    let mut i: usize = 0;
    while i < n
        invariant
            v == views_of(parts@),
            n == parts@.len(),
            0 <= i <= n,
            acc == width_sum(v, 0, i as int),
            acc <= budget,
        decreases n - i,
    {
        let w = parts[i].len;
        proof {
            lemma_width_sum_snoc(v, 0, i as int);
            assert(v[i as int].width == w);
        }
        if w > budget - acc {
            proof {
                assert(widths_ok(v));
                lemma_width_sum_mono(v, 0, i + 1, n as int);
            }
            return None;
        }
        acc = acc + w;
        i = i + 1;
    }
    Some(acc)
}

/// Does window `[lo, hi)` fit `budget` together with its indicators?
fn window_fits(all_tabs: &Vec<LinePart>, lo: usize, hi: usize, budget: usize) -> (r: bool)
    requires
        lo <= hi <= all_tabs@.len(),
    ensures
        r == fits(views_of(all_tabs@), lo as int, hi as int, budget as int),
{
    let ghost v = views_of(all_tabs@);
    let n = all_tabs.len();
    let mut acc: usize = 0;
    let mut k: usize = lo;
    while k < hi
        invariant
            v == views_of(all_tabs@),
            n == all_tabs@.len(),
            lo <= k <= hi <= n,
            acc == width_sum(v, lo as int, k as int),
            acc <= budget,
        decreases hi - k,
    {
        let w = all_tabs[k].len;
        proof {
            lemma_width_sum_snoc(v, lo as int, k as int);
            assert(v[k as int].width == w);
        }
        if w > budget - acc {
            proof {
                assert(widths_ok(v));
                lemma_width_sum_mono(v, lo as int, k + 1, hi as int);
                lemma_width_sum_nonneg(v, lo as int, hi as int);
            }
            return false;
        }
        acc = acc + w;
        k = k + 1;
    }
    let il: usize = if lo > 0 {
        more_width(lo)
    } else {
        0
    };
    if il > budget - acc {
        return false;
    }
    let ir: usize = if hi < n {
        more_width(n - hi)
    } else {
        0
    };
    if ir > budget - acc - il {
        return false;
    }
    true
}

/// Compute the shown window of labels by greedy growth from the active one.
fn grow_exec(all_tabs: &Vec<LinePart>, active: usize, budget: usize) -> (r: (usize, usize))
    requires
        active < all_tabs@.len(),
        fits(views_of(all_tabs@), active as int, active + 1, budget as int),
    ensures
        (r.0 as int, r.1 as int) == grow(
            views_of(all_tabs@),
            active as int,
            active + 1,
            budget as int,
        ),
        r.0 <= active < r.1 <= all_tabs@.len(),
{
    let ghost v = views_of(all_tabs@);
    let n = all_tabs.len();
    let mut lo = active;
    let mut hi = active + 1;
    loop
        invariant_except_break
            v == views_of(all_tabs@),
            n == all_tabs@.len(),
            0 <= lo <= active < hi <= n,
            fits(v, lo as int, hi as int, budget as int),
            grow(v, lo as int, hi as int, budget as int) == grow(
                v,
                active as int,
                active + 1,
                budget as int,
            ),
        ensures
            0 <= lo <= active < hi <= n,
            (lo as int, hi as int) == grow(v, active as int, active + 1, budget as int),
        decreases lo + n - hi,
    {
        let mut moved = false;
        if hi < n {
            if window_fits(all_tabs, lo, hi + 1, budget) {
                hi = hi + 1;
                moved = true;
            }
        }
        if !moved {
            if lo > 0 {
                if window_fits(all_tabs, lo - 1, hi, budget) {
                    lo = lo - 1;
                    moved = true;
                }
            }
        }
        if !moved {
            break ;
        }
    }
    (lo, hi)
}

/// The truncated active fragment for a budget of at least one column.
fn trunc_part(
    active_label: &String,
    idx: Option<usize>,
    budget: usize,
    palette: Palette,
    colored: bool,
) -> (r: LinePart)
    requires
        budget >= 1,
    ensures
        seq![r@] == trunc_active_spec(active_label@, idx, budget as int, palette, colored),
{
    proof {
        reveal_strlit("\u{2026}");
    }
    let label_len = char_count(active_label.as_str());
    let keep: usize = if label_len <= budget - 1 {
        label_len
    } else {
        budget - 1
    };
    let head = active_label.as_str().substring_char(0, keep);
    let mut txt = String::new();
    txt.append(head);
    txt.append("\u{2026}");
    proof {
        assert("\u{2026}"@ =~= seq!['\u{2026}']);
        assert(txt@ =~= active_label@.take(keep as int).push('\u{2026}'));
    }
    let mut part = String::new();
    if colored {
        push_styled(&mut part, txt.as_str(), palette.black, palette.green);
    } else {
        push_reversed(&mut part, txt.as_str());
    }
    let r = LinePart { part, len: keep + 1, tab_index: idx };
    proof {
        assert(seq![r@] =~= trunc_active_spec(active_label@, idx, budget as int, palette, colored));
    }
    r
}

/// Lay the fragments out into one row bounded by `cols` columns.
///
/// The result never exceeds `cols` columns; when every label and the prefix
/// fit, it is the prefix followed by every label in order.
#[verifier::rlimit(100)]
pub fn tab_line(
    session_name: &Option<String>,
    all_tabs: Vec<LinePart>,
    active_tab_index: usize,
    cols: usize,
    palette: Palette,
    colored: bool,
    hide_session_name: bool,
    active_swap_layout_name: &Option<String>,
    is_swap_layout_dirty: bool,
    active_label: &String,
) -> (r: Vec<LinePart>)
    requires
        active_tab_index < all_tabs@.len(),
    ensures
        views_of(r@) == tab_line_spec(
            opt_view(session_name),
            hide_session_name,
            opt_view(active_swap_layout_name),
            is_swap_layout_dirty,
            views_of(all_tabs@),
            active_tab_index as int,
            active_label@,
            cols as int,
            palette,
            colored,
        ),
{
    let ghost tabs_v = views_of(all_tabs@);
    proof {
        assert(widths_ok(tabs_v));
    }
    let mut all_tabs = all_tabs;
    let n = all_tabs.len();
    let active = active_tab_index;
    let mut pre = build_prefix(
        session_name,
        hide_session_name,
        active_swap_layout_name,
        is_swap_layout_dirty,
        palette,
        colored,
    );
    let ghost pre0_v = prefix_parts_spec(
        opt_view(session_name),
        hide_session_name,
        opt_view(active_swap_layout_name),
        is_swap_layout_dirty,
        palette,
        colored,
    );

    // Keep the prefix only if it fits by itself.
    let mut pw: usize = 0;
    match seq_width(&pre, cols) {
        Some(w) => {
            pw = w;
        },
        None => {
            pre = Vec::new();
            pw = 0;
        },
    }
    let ghost pre_v = if width_sum(pre0_v, 0, pre0_v.len() as int) <= cols as int {
        pre0_v
    } else {
        Seq::<LinePartV>::empty()
    };
    proof {
        assert(views_of(pre@) =~= pre_v);
        assert(pw == width_sum(pre_v, 0, pre_v.len() as int));
    }
    let budget = cols - pw;

    // Case: everything fits.
    match seq_width(&all_tabs, budget) {
        Some(_) => {
            let mut out = pre;
            push_range(&mut out, &mut all_tabs, 0, n);
            proof {
                assert(views_of(out@) =~= pre_v + tabs_v);
            }
            return out;
        },
        None => {},
    }

    // Collapse around the active label.
    if window_fits(&all_tabs, active, active + 1, budget) {
        let lohi = grow_exec(&all_tabs, active, budget);
        let lo = lohi.0;
        let hi = lohi.1;
        let mut out = pre;
        if lo > 0 {
            let p = more_part(lo, palette, colored);
            out.push(p);
        }
        push_range(&mut out, &mut all_tabs, lo, hi);
        if hi < n {
            let p = more_part(n - hi, palette, colored);
            out.push(p);
        }
        proof {
            let glohi = grow(tabs_v, active as int, active + 1, budget as int);
            let left: Seq<LinePartV> = if glohi.0 > 0 {
                seq![more_part_spec(glohi.0, palette, colored)]
            } else {
                Seq::empty()
            };
            let right: Seq<LinePartV> = if glohi.1 < n {
                seq![more_part_spec(n - glohi.1, palette, colored)]
            } else {
                Seq::empty()
            };
            assert(views_of(out@) =~= pre_v + left + tabs_v.subrange(glohi.0, glohi.1) + right);
        }
        return out;
    }

    // Only the active label, whole or truncated.
    let w_act = all_tabs[active].len;
    proof {
        lemma_width_sum_snoc(tabs_v, active as int, active as int);
        assert(width_sum(tabs_v, active as int, active + 1) == w_act);
    }
    if w_act <= budget {
        let mut out = pre;
        let e = all_tabs.remove(active);
        out.push(e);
        proof {
            assert(views_of(out@) =~= pre_v + seq![tabs_v[active as int]]);
        }
        return out;
    }
    let mut out = pre;
    if budget >= 1 {
        let idx = all_tabs[active].tab_index;
        let e = trunc_part(active_label, idx, budget, palette, colored);
        out.push(e);
        proof {
            assert(views_of(out@) =~= pre_v + trunc_active_spec(
                active_label@,
                tabs_v[active as int].tab_index,
                budget as int,
                palette,
                colored,
            ));
        }
    } else {
        proof {
            assert(views_of(out@) =~= pre_v + trunc_active_spec(
                active_label@,
                tabs_v[active as int].tab_index,
                budget as int,
                palette,
                colored,
            ));
        }
    }
    out
}

/// The decoration fragments ahead of the labels.
fn build_prefix(
    session_name: &Option<String>,
    hide_session_name: bool,
    active_swap_layout_name: &Option<String>,
    is_swap_layout_dirty: bool,
    palette: Palette,
    colored: bool,
) -> (r: Vec<LinePart>)
    ensures
        views_of(r@) == prefix_parts_spec(
            opt_view(session_name),
            hide_session_name,
            opt_view(active_swap_layout_name),
            is_swap_layout_dirty,
            palette,
            colored,
        ),
{
    let mut pre: Vec<LinePart> = Vec::new();
    match session_name {
        Some(name) => {
            if !hide_session_name {
                proof {
                    reveal_strlit(" ");
                }
                let mut txt = String::new();
                txt.append(" ");
                txt.append(name.as_str());
                txt.append(" ");
                proof {
                    assert(" "@ =~= seq![' ']);
                    assert(txt@ =~= padded_spec(name@));
                }
                let part = deco_part(txt, palette, colored);
                pre.push(part);
            }
        },
        None => {},
    }
    if is_swap_layout_dirty {
        proof {
            reveal_strlit(" ");
            reveal_strlit("* ");
        }
        let mut txt = String::new();
        txt.append(" ");
        match active_swap_layout_name {
            Some(nm) => {
                txt.append(nm.as_str());
            },
            None => {
                txt.append("unnamed");
            },
        }
        txt.append("* ");
        proof {
            assert(" "@ =~= seq![' ']);
            assert("* "@ =~= seq!['*', ' ']);
            assert(txt@ =~= swap_text_spec(opt_view(active_swap_layout_name)));
        }
        let part = deco_part(txt, palette, colored);
        pre.push(part);
    }
    let ghost pre0_v = prefix_parts_spec(
        opt_view(session_name),
        hide_session_name,
        opt_view(active_swap_layout_name),
        is_swap_layout_dirty,
        palette,
        colored,
    );
    proof {
        assert(views_of(pre@) =~= pre0_v);
    }
    pre
}

/// Map a click column back to the workspace index recorded under it.
pub fn get_tab_to_focus(tab_line: &Vec<LinePart>, col: usize) -> (r: Option<usize>)
    ensures
        r == hit_spec(views_of(tab_line@), col as int),
{
    let n = tab_line.len();
    let mut i: usize = 0;
    let mut c = col;
    proof {
        assert(views_of(tab_line@).skip(0) =~= views_of(tab_line@));
    }
    while i < n
        invariant
            n == tab_line@.len(),
            0 <= i <= n,
            c <= col,
            hit_spec(views_of(tab_line@), col as int) == hit_spec(
                views_of(tab_line@).skip(i as int),
                c as int,
            ),
        decreases n - i,
    {
        let w = tab_line[i].len;
        proof {
            assert(views_of(tab_line@).skip(i as int)[0] == tab_line@[i as int]@);
            assert(views_of(tab_line@).skip(i as int).drop_first() =~= views_of(tab_line@).skip(
                i + 1,
            ));
        }
        if c < w {
            return tab_line[i].tab_index;
        }
        c = c - w;
        i = i + 1;
    }
    proof {
        assert(views_of(tab_line@).skip(n as int).len() == 0);
    }
    None
}

} // verus!
