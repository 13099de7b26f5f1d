//! Properties of the renderer that hold for every snapshot and every
//! configuration.

use vstd::prelude::*;
use crate::pattern::{any_matches, pattern_sources};
use crate::tree::{
    Config, Listing, Node, Render, Rendering, connector, entry_line, expands, next_bar, render_children,
    render_entry, render_list, root_rendering, sat, summary_line, tree_output, visible,
    visible_order,
};
use crate::text::strings;

verus! {

/// At every level, the line of a visible child holds `└──` right after the
/// bar exactly when the child is the last visible one, and `├──` otherwise;
/// so exactly one line of each level carries `└──`.
pub proof fn lemma_one_last_connector(
    cfg: Config,
    children: Seq<Node>,
    order: Seq<int>,
    j: int,
    depth: nat,
    bar: Seq<char>,
)
    requires
        0 <= j < order.len(),
        0 <= order[j] < children.len(),
    ensures
        render_list(cfg, children, order, j, depth, bar).lines.len() > 0,
        render_list(cfg, children, order, j, depth, bar).lines[0].subrange(0, bar.len() as int) == bar,
        render_list(cfg, children, order, j, depth, bar).lines[0].subrange(
            bar.len() as int,
            bar.len() + 3int,
        ) == connector(j == order.len() - 1),
        (connector(j == order.len() - 1) == seq!['└', '─', '─']) <==> j == order.len() - 1,
{
    let child = children[order[j]];
    let last = j == order.len() - 1;
    let line = entry_line(cfg, child, bar, last);
    let below = render_children(cfg, child, depth + 1, next_bar(bar, last));
    let e = render_entry(cfg, child, depth, bar, last, below);
    assert(e.lines[0] == line);
    let r = render_list(cfg, children, order, j, depth, bar);
    assert(r.lines[0] == line);
    assert(line.subrange(0, bar.len() as int) =~= bar);
    assert(line.subrange(bar.len() as int, bar.len() + 3int) =~= connector(last));
    if !last {
        assert(connector(false)[0] != connector(true)[0]);
    }
}

/// Two renders of the same snapshot under the same options produce the same
/// lines, messages and counts.
pub proof fn lemma_render_deterministic(
    cfg: Config,
    roots: Seq<Result<Node, String>>,
    r1: Render,
    r2: Render,
)
    requires
        r1.shows(tree_output(cfg, roots)),
        r2.shows(tree_output(cfg, roots)),
    ensures
        strings(r1.lines@) == strings(r2.lines@),
        strings(r1.errors@) == strings(r2.errors@),
        r1.dirs == r2.dirs,
        r1.files == r2.files,
{
}

/// The directories counted for each root, summed over the roots.
pub open spec fn total_dirs(cfg: Config, roots: Seq<Result<Node, String>>) -> nat
    decreases roots.len(),
{
    if roots.len() == 0 {
        0
    } else {
        total_dirs(cfg, roots.drop_last()) + root_rendering(cfg, roots.last()).dirs
    }
}

/// The files counted for each root, summed over the roots.
pub open spec fn total_files(cfg: Config, roots: Seq<Result<Node, String>>) -> nat
    decreases roots.len(),
{
    if roots.len() == 0 {
        0
    } else {
        total_files(cfg, roots.drop_last()) + root_rendering(cfg, roots.last()).files
    }
}

/// The summary line reports the sums, over the roots, of each root's own
/// directory and file tallies.
pub proof fn lemma_summary_sums_roots(cfg: Config, roots: Seq<Result<Node, String>>)
    ensures
        tree_output(cfg, roots).dirs == total_dirs(cfg, roots),
        tree_output(cfg, roots).files == total_files(cfg, roots),
        tree_output(cfg, roots).lines.last() == summary_line(
            cfg.dir_only,
            sat(total_dirs(cfg, roots)),
            sat(total_files(cfg, roots)),
        ),
    decreases roots.len(),
{
    if roots.len() > 0 {
        lemma_summary_sums_roots(cfg, roots.drop_last());
    }
}

/// Name patterns never hide a directory (nor does any other filter); when
/// patterns are given, a file or link that none of them matches is hidden.
pub proof fn lemma_patterns_keep_directories(cfg: Config, n: Node)
    ensures
        n.kind is Dir ==> visible(cfg, n),
        cfg.patterns@.len() > 0 && !(n.kind is Dir) && !any_matches(
            pattern_sources(cfg.patterns@),
            n.name@,
        ) ==> !visible(cfg, n),
{
}

/// A directory at the depth bound is shown on one line and not descended
/// into, whatever lies below it.
pub proof fn lemma_bound_not_expanded(
    cfg: Config,
    child: Node,
    bar: Seq<char>,
    last: bool,
    below: Rendering,
)
    requires
        cfg.depth matches Some(d),
        child.kind is Dir,
    ensures
        render_entry(cfg, child, cfg.depth.unwrap() as nat, bar, last, below) == (Rendering {
            lines: seq![entry_line(cfg, child, bar, last)],
            errors: Seq::empty(),
            dirs: 1,
            files: 0,
        }),
{
}

pub open spec fn is_bar_char(c: char) -> bool {
    c == ' ' || c == '│'
}

pub open spec fn is_connector(s: Seq<char>) -> bool {
    s == connector(true) || s == connector(false)
}

/// `line` is drawn at level `k`: `k - 1` bar units of four characters, then
/// a connector.
pub open spec fn drawn_at(line: Seq<char>, k: nat) -> bool {
    &&& k >= 1
    &&& line.len() >= 4 * k - 1
    &&& forall|i: int| 0 <= i < 4 * (k - 1) ==> is_bar_char(#[trigger] line[i])
    &&& is_connector(line.subrange(4 * (k - 1), 4 * k - 1))
}

/// `line` is drawn at a level between `lo` and `hi`.
pub open spec fn level_within(line: Seq<char>, lo: nat, hi: nat) -> bool {
    exists|k: nat| lo <= k <= hi && #[trigger] drawn_at(line, k)
}

/// Every line is drawn at a level between `lo` and `hi`.
pub open spec fn levels_within(lines: Seq<Seq<char>>, lo: nat, hi: nat) -> bool {
    forall|i: int| 0 <= i < lines.len() ==> level_within(#[trigger] lines[i], lo, hi)
}

pub open spec fn bar_at(bar: Seq<char>, depth: nat) -> bool {
    &&& depth >= 1
    &&& bar.len() == 4 * (depth - 1)
    &&& forall|i: int| 0 <= i < bar.len() ==> is_bar_char(#[trigger] bar[i])
}

proof fn lemma_entry_line_level(cfg: Config, n: Node, bar: Seq<char>, last: bool, depth: nat)
    requires
        bar_at(bar, depth),
    ensures
        drawn_at(entry_line(cfg, n, bar, last), depth),
{
    let line = entry_line(cfg, n, bar, last);
    assert(line.subrange(4 * (depth - 1), 4 * depth - 1) =~= connector(last));
    assert forall|i: int| 0 <= i < 4 * (depth - 1) implies is_bar_char(#[trigger] line[i]) by {
        assert(line[i] == bar[i]);
    }
}

proof fn lemma_next_bar(bar: Seq<char>, depth: nat, last: bool)
    requires
        bar_at(bar, depth),
    ensures
        bar_at(next_bar(bar, last), depth + 1),
{
    let nb = next_bar(bar, last);
    assert forall|i: int| 0 <= i < nb.len() implies is_bar_char(#[trigger] nb[i]) by {
        if i < bar.len() {
            assert(nb[i] == bar[i]);
        }
    }
}

proof fn lemma_levels_concat(a: Seq<Seq<char>>, b: Seq<Seq<char>>, lo: nat, hi: nat)
    requires
        levels_within(a, lo, hi),
        levels_within(b, lo, hi),
    ensures
        levels_within(a + b, lo, hi),
{
    let s = a + b;
    assert forall|i: int| 0 <= i < s.len() implies level_within(#[trigger] s[i], lo, hi) by {
        if i < a.len() {
            assert(s[i] == a[i]);
        } else {
            assert(s[i] == b[i - a.len()]);
        }
    }
}

proof fn lemma_levels_widen(a: Seq<Seq<char>>, lo: nat, hi: nat, lo2: nat)
    requires
        levels_within(a, lo, hi),
        lo2 <= lo,
    ensures
        levels_within(a, lo2, hi),
{
    assert forall|i: int| 0 <= i < a.len() implies level_within(#[trigger] a[i], lo2, hi) by {
        assert(level_within(a[i], lo, hi));
        let k = choose|k: nat| lo <= k <= hi && drawn_at(a[i], k);
        assert(drawn_at(a[i], k));
    }
}

proof fn lemma_children_levels(cfg: Config, n: Node, depth: nat, bar: Seq<char>)
    requires
        cfg.depth matches Some(d),
        depth <= cfg.depth.unwrap(),
        bar_at(bar, depth),
    ensures
        levels_within(render_children(cfg, n, depth, bar).lines, depth, cfg.depth.unwrap() as nat),
    decreases n, 0int,
{
    match n.listing {
        Listing::Entries(v) => {
            lemma_list_levels(cfg, v@, visible_order(cfg, v@), 0, depth, bar);
        },
        _ => {},
    }
}

proof fn lemma_list_levels(
    cfg: Config,
    children: Seq<Node>,
    order: Seq<int>,
    j: int,
    depth: nat,
    bar: Seq<char>,
)
    requires
        cfg.depth matches Some(d),
        depth <= cfg.depth.unwrap(),
        bar_at(bar, depth),
    ensures
        levels_within(
            render_list(cfg, children, order, j, depth, bar).lines,
            depth,
            cfg.depth.unwrap() as nat,
        ),
    decreases children, order.len() - j,
{
    let hi = cfg.depth.unwrap() as nat;
    if j < 0 || j >= order.len() || !(0 <= order[j] < children.len()) {
    } else {
        let child = children[order[j]];
        let last = j == order.len() - 1;
        let nb = next_bar(bar, last);
        let below = render_children(cfg, child, depth + 1, nb);
        let e = render_entry(cfg, child, depth, bar, last, below);
        let line = entry_line(cfg, child, bar, last);
        lemma_entry_line_level(cfg, child, bar, last, depth);
        let single = seq![line];
        assert(levels_within(single, depth, hi)) by {
            assert forall|i: int| 0 <= i < single.len() implies level_within(
                #[trigger] single[i],
                depth,
                hi,
            ) by {
                assert(single[i] == line);
                assert(drawn_at(line, depth));
            }
        }
        if child.kind is Dir && expands(cfg, depth) {
            lemma_next_bar(bar, depth, last);
            lemma_children_levels(cfg, child, depth + 1, nb);
            lemma_levels_widen(below.lines, depth + 1, hi, depth);
            lemma_levels_concat(single, below.lines, depth, hi);
        } else {
            assert(e.lines == single);
        }
        lemma_list_levels(cfg, children, order, j + 1, depth, bar);
        lemma_levels_concat(e.lines, render_list(cfg, children, order, j + 1, depth, bar).lines, depth, hi);
    }
}

/// With a depth bound `D` of at least 1, every line drawn below a root sits
/// at an indentation level between 1 and `D`.
pub proof fn lemma_depth_bound(cfg: Config, root: Node)
    requires
        cfg.depth matches Some(d) && d >= 1,
    ensures
        levels_within(render_children(cfg, root, 1, Seq::empty()).lines, 1, cfg.depth.unwrap() as nat),
{
    lemma_children_levels(cfg, root, 1, Seq::empty());
}

} // verus!
