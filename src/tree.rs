//! The tree renderer: a snapshot of a directory hierarchy, the options of a
//! run, and the lines, errors and tallies that rendering produces.

use vstd::prelude::*;
use crate::filter::{EntryKind, SizeSpec, size_passes};
use crate::order::{as_ints, sort_indices, sort_order};
use crate::pattern::{NamePattern, any_matches, any_pattern_matches, pattern_sources};
use crate::perms::{format_mode, mode_text};
use crate::size::{SizePrinter, size_text};
use crate::text::{decimal, decimal_string, join_strings, join_with, strings};

verus! {

broadcast use vstd::std_specs::vec::group_vec_axioms;

/// What is known of an entry besides its name and kind.
///
/// `owner` and `group` are the names to show (or the numeric ids as text);
/// `modified` is the date to show, absent where the platform gives none.
pub struct EntryMeta {
    pub len: u64,
    pub mode: u32,
    pub owner: String,
    pub group: String,
    pub modified: Option<String>,
}

/// The children of a directory as they were read.
pub enum Listing {
    /// not read, as below the depth bound or for a non-directory
    Unread,
    Entries(Vec<Node>),
    /// the listing failed with this message
    Failed(String),
}

/// One entry of the snapshot. `target` is a symbolic link's target (empty
/// when unreadable).
pub struct Node {
    pub name: String,
    pub kind: EntryKind,
    pub meta: EntryMeta,
    pub target: String,
    pub listing: Listing,
}

/// The options of a run.
pub struct Config {
    /// maximum depth of rendered entries (the root's children are at depth 1)
    pub depth: Option<usize>,
    pub dir_only: bool,
    pub patterns: Vec<NamePattern>,
    pub size: Option<SizeSpec>,
    pub size_printer: Option<SizePrinter>,
    pub show_perms: bool,
    pub show_user: bool,
    pub show_group: bool,
    pub show_date: bool,
}

/// The type character shown before the permissions.
pub open spec fn type_char(k: EntryKind) -> char {
    match k {
        EntryKind::Dir => 'd',
        EntryKind::Symlink => 'l',
        _ => '-',
    }
}

pub open spec fn opt_field(present: bool, f: Seq<char>) -> Seq<Seq<char>> {
    if present {
        seq![f]
    } else {
        Seq::empty()
    }
}

/// The metadata fields shown for an entry, in order: permissions, size,
/// owner, group, modification date; each only when asked for and available.
pub open spec fn detail_fields(cfg: Config, kind: EntryKind, meta: EntryMeta) -> Seq<Seq<char>> {
    opt_field(cfg.show_perms, seq![type_char(kind)] + mode_text(meta.mode))
        + opt_field(cfg.size_printer is Some, size_text(cfg.size_printer.unwrap(), meta.len as nat))
        + opt_field(cfg.show_user, meta.owner@)
        + opt_field(cfg.show_group, meta.group@)
        + opt_field(cfg.show_date && meta.modified is Some, meta.modified.unwrap()@)
}

/// The metadata prefix of an entry's line: the fields in brackets followed by
/// two spaces, or nothing when no field is shown.
pub open spec fn details_text(cfg: Config, kind: EntryKind, meta: EntryMeta) -> Seq<char> {
    let f = detail_fields(cfg, kind, meta);
    if f.len() > 0 {
        seq!['['] + join_with(f, ' ') + seq![']', ' ', ' ']
    } else {
        Seq::empty()
    }
}

/// Whether an entry survives the directories-only, name and size filters.
/// Directories always pass the name and size filters.
pub open spec fn visible(cfg: Config, n: Node) -> bool {
    &&& (!cfg.dir_only || n.kind is Dir)
    &&& (cfg.patterns@.len() == 0 || n.kind is Dir || any_matches(
        pattern_sources(cfg.patterns@),
        n.name@,
    ))
    &&& (n.kind is Dir || match cfg.size {
        None => true,
        Some(sp) => size_passes(sp.sign, sp.threshold(), n.meta.len as nat),
    })
}

pub open spec fn connector(last: bool) -> Seq<char> {
    if last {
        seq!['└', '─', '─']
    } else {
        seq!['├', '─', '─']
    }
}

/// The line of a child entry: bar, connector, metadata prefix, name, and a
/// symbolic link's target.
pub open spec fn entry_line(cfg: Config, n: Node, bar: Seq<char>, last: bool) -> Seq<char> {
    bar + connector(last) + seq![' '] + details_text(cfg, n.kind, n.meta) + n.name@ + (
    if n.kind is Symlink {
        seq![' ', '-', '>', ' '] + n.target@
    } else {
        Seq::empty()
    })
}

/// The bar under which a child's own children are drawn: blank below the
/// last sibling, a vertical line otherwise; four characters per level.
pub open spec fn next_bar(bar: Seq<char>, last: bool) -> Seq<char> {
    bar + if last {
        seq![' ', ' ', ' ', ' ']
    } else {
        seq!['│', ' ', ' ', ' ']
    }
}

fn push_field(fields: &mut Vec<String>, f: String)
    ensures
        strings(final(fields)@) == strings(old(fields)@).push(f@),
{
    fields.push(f);
    assert(strings(fields@) =~= strings(old(fields)@).push(f@));
}

impl Config {
    /// The metadata prefix of an entry's line.
    pub fn entry_details(&self, kind: &EntryKind, meta: &EntryMeta) -> (r: String)
        ensures
            r@ == details_text(*self, *kind, *meta),
    {
        let mut fields: Vec<String> = Vec::new();
        let ghost perm_part = opt_field(self.show_perms, seq![type_char(*kind)] + mode_text(meta.mode));
        let ghost size_part = opt_field(
            self.size_printer is Some,
            size_text(self.size_printer.unwrap(), meta.len as nat),
        );
        let ghost user_part = opt_field(self.show_user, meta.owner@);
        let ghost group_part = opt_field(self.show_group, meta.group@);
        if self.show_perms {
            proof {
                reveal_strlit("d");
                reveal_strlit("l");
                reveal_strlit("-");
            }
            let mut p = String::from_str(
                match kind {
                    EntryKind::Dir => "d",
                    EntryKind::Symlink => "l",
                    _ => "-",
                },
            );
            let m = format_mode(meta.mode);
            p.append(m.as_str());
            assert(p@ =~= seq![type_char(*kind)] + mode_text(meta.mode));
            push_field(&mut fields, p);
        }
        assert(strings(fields@) =~= perm_part);
        match &self.size_printer {
            Some(sp) => push_field(&mut fields, sp.get_file_size(meta.len)),
            None => {},
        }
        assert(strings(fields@) =~= perm_part + size_part);
        if self.show_user {
            push_field(&mut fields, meta.owner.clone());
        }
        assert(strings(fields@) =~= perm_part + size_part + user_part);
        if self.show_group {
            push_field(&mut fields, meta.group.clone());
        }
        assert(strings(fields@) =~= perm_part + size_part + user_part + group_part);
        if self.show_date {
            match &meta.modified {
                Some(m) => push_field(&mut fields, m.clone()),
                None => {},
            }
        }
        assert(strings(fields@) =~= detail_fields(*self, *kind, *meta));
        if fields.len() > 0 {
            proof {
                reveal_strlit("[");
                reveal_strlit("]  ");
            }
            let mut s = String::from_str("[");
            proof {
                reveal_strlit(" ");
            }
            let j = join_strings(&fields, " ");
            s.append(j.as_str());
            s.append("]  ");
            assert(s@ =~= details_text(*self, *kind, *meta));
            s
        } else {
            String::new()
        }
    }

    /// Whether an entry survives the filters of this run.
    pub fn is_visible(&self, n: &Node) -> (r: bool)
        ensures
            r == visible(*self, *n),
    {
        let is_dir = match n.kind {
            EntryKind::Dir => true,
            _ => false,
        };
        if self.dir_only && !is_dir {
            return false;
        }
        if self.patterns.len() > 0 && !is_dir && !any_pattern_matches(&self.patterns, n.name.as_str()) {
            return false;
        }
        if is_dir {
            return true;
        }
        match &self.size {
            None => true,
            Some(sp) => sp.accepts(n.meta.len),
        }
    }

    /// The line of a child entry.
    pub fn entry_line(&self, n: &Node, bar: &str, last: bool) -> (r: String)
        ensures
            r@ == entry_line(*self, *n, bar@, last),
    {
        proof {
            reveal_strlit("└──");
            reveal_strlit("├──");
            reveal_strlit(" ");
            reveal_strlit(" -> ");
        }
        let mut s = String::from_str(bar);
        if last {
            s.append("└──");
        } else {
            s.append("├──");
        }
        s.append(" ");
        let d = self.entry_details(&n.kind, &n.meta);
        s.append(d.as_str());
        s.append(n.name.as_str());
        match n.kind {
            EntryKind::Symlink => {
                s.append(" -> ");
                s.append(n.target.as_str());
            },
            _ => {},
        }
        assert(s@ =~= entry_line(*self, *n, bar@, last));
        s
    }
}

/// The bar for the children of a child entry.
pub fn extend_bar(bar: &str, last: bool) -> (r: String)
    ensures
        r@ == next_bar(bar@, last),
{
    proof {
        reveal_strlit("    ");
        reveal_strlit("│   ");
    }
    let mut s = String::from_str(bar);
    if last {
        s.append("    ");
    } else {
        s.append("│   ");
    }
    assert(s@ =~= next_bar(bar@, last));
    s
}

/// What rendering produces: output lines, error messages, and the counts of
/// directories and of files (symbolic links included).
pub struct Rendering {
    pub lines: Seq<Seq<char>>,
    pub errors: Seq<Seq<char>>,
    pub dirs: nat,
    pub files: nat,
}

pub open spec fn empty_rendering() -> Rendering {
    Rendering { lines: Seq::empty(), errors: Seq::empty(), dirs: 0, files: 0 }
}

/// One rendering followed by another.
pub open spec fn join(a: Rendering, b: Rendering) -> Rendering {
    Rendering {
        lines: a.lines + b.lines,
        errors: a.errors + b.errors,
        dirs: a.dirs + b.dirs,
        files: a.files + b.files,
    }
}

pub open spec fn node_names(s: Seq<Node>) -> Seq<Seq<char>> {
    s.map_values(|n: Node| n.name@)
}

/// The indices of `order` whose entries are visible, in the same order.
pub open spec fn filter_visible(cfg: Config, children: Seq<Node>, order: Seq<int>) -> Seq<int>
    decreases order.len(),
{
    if order.len() == 0 {
        Seq::empty()
    } else {
        let rest = filter_visible(cfg, children, order.drop_last());
        if visible(cfg, children[order.last()]) {
            rest.push(order.last())
        } else {
            rest
        }
    }
}

/// The visible children, as indices, in ascending name order.
pub open spec fn visible_order(cfg: Config, children: Seq<Node>) -> Seq<int> {
    filter_visible(cfg, children, sort_indices(node_names(children), children.len()))
}

/// Whether a directory at `depth` is descended into.
pub open spec fn expands(cfg: Config, depth: nat) -> bool {
    match cfg.depth {
        None => true,
        Some(d) => depth < d,
    }
}

/// What is rendered below a directory entry at `depth`, drawn under `bar`.
pub open spec fn render_children(cfg: Config, n: Node, depth: nat, bar: Seq<char>) -> Rendering
    decreases n, 0int,
{
    match n.listing {
        Listing::Unread => empty_rendering(),
        Listing::Failed(e) => Rendering {
            lines: Seq::empty(),
            errors: seq![e@],
            dirs: 0,
            files: 0,
        },
        Listing::Entries(v) => render_list(cfg, v@, visible_order(cfg, v@), 0, depth, bar),
    }
}

/// The rendering of one visible child: its line, then, for a directory that
/// is expanded, what lies below it.
pub open spec fn render_entry(
    cfg: Config,
    child: Node,
    depth: nat,
    bar: Seq<char>,
    last: bool,
    below: Rendering,
) -> Rendering {
    let line = entry_line(cfg, child, bar, last);
    match child.kind {
        EntryKind::Dir => if expands(cfg, depth) {
            Rendering {
                lines: seq![line] + below.lines,
                errors: below.errors,
                dirs: 1 + below.dirs,
                files: below.files,
            }
        } else {
            Rendering { lines: seq![line], errors: Seq::empty(), dirs: 1, files: 0 }
        },
        EntryKind::File | EntryKind::Symlink => Rendering {
            lines: seq![line],
            errors: Seq::empty(),
            dirs: 0,
            files: 1,
        },
        EntryKind::Other => Rendering {
            lines: seq![line],
            errors: Seq::empty(),
            dirs: 0,
            files: 0,
        },
    }
}

/// The rendering of the visible children `order[j..]` of one directory.
pub open spec fn render_list(
    cfg: Config,
    children: Seq<Node>,
    order: Seq<int>,
    j: int,
    depth: nat,
    bar: Seq<char>,
) -> Rendering
    decreases children, order.len() - j,
{
    if j < 0 || j >= order.len() || !(0 <= order[j] < children.len()) {
        empty_rendering()
    } else {
        let child = children[order[j]];
        let last = j == order.len() - 1;
        let below = render_children(cfg, child, depth + 1, next_bar(bar, last));
        join(
            render_entry(cfg, child, depth, bar, last, below),
            render_list(cfg, children, order, j + 1, depth, bar),
        )
    }
}

/// A count as kept in a `usize`: exact up to `usize::MAX`, then saturated.
pub open spec fn sat(n: nat) -> nat {
    if n < usize::MAX {
        n
    } else {
        usize::MAX as nat
    }
}

/// Output of a rendering: lines, error messages, and the counts of
/// directories and of files (counts saturate at `usize::MAX`).
pub struct Render {
    pub lines: Vec<String>,
    pub errors: Vec<String>,
    pub dirs: usize,
    pub files: usize,
}

impl Render {
    /// Whether this output is the rendering `s`.
    pub open spec fn shows(&self, s: Rendering) -> bool {
        &&& strings(self.lines@) == s.lines
        &&& strings(self.errors@) == s.errors
        &&& self.dirs as nat == sat(s.dirs)
        &&& self.files as nat == sat(s.files)
    }

    fn empty() -> (r: Render)
        ensures
            r.shows(empty_rendering()),
    {
        let r = Render { lines: Vec::new(), errors: Vec::new(), dirs: 0, files: 0 };
        assert(strings(r.lines@) =~= Seq::empty());
        assert(strings(r.errors@) =~= Seq::empty());
        r
    }

    /// Appends `other` to this output.
    fn absorb(&mut self, other: Render, Ghost(a): Ghost<Rendering>, Ghost(b): Ghost<Rendering>)
        requires
            old(self).shows(a),
            other.shows(b),
        ensures
            final(self).shows(join(a, b)),
    {
        let mut other = other;
        let ghost ol = old(self).lines@;
        let ghost oe = old(self).errors@;
        let ghost bl = other.lines@;
        let ghost be = other.errors@;
        self.lines.append(&mut other.lines);
        self.errors.append(&mut other.errors);
        self.dirs = self.dirs.saturating_add(other.dirs);
        self.files = self.files.saturating_add(other.files);
        assert(strings(ol + bl) =~= strings(ol) + strings(bl));
        assert(strings(oe + be) =~= strings(oe) + strings(be));
    }
}

/// The visible entries of `order`, in the same order.
fn visible_indices(cfg: &Config, children: &Vec<Node>, order: &Vec<usize>) -> (r: Vec<usize>)
    requires
        forall|j: int| 0 <= j < order@.len() ==> #[trigger] order@[j] < children@.len(),
    ensures
        as_ints(r@) == filter_visible(*cfg, children@, as_ints(order@)),
        forall|j: int| 0 <= j < r@.len() ==> #[trigger] r@[j] < children@.len(),
{
    let ghost ord = as_ints(order@);
    let mut r: Vec<usize> = Vec::new();
    let mut i: usize = 0;
    assert(as_ints(r@) =~= filter_visible(*cfg, children@, ord.subrange(0, 0)));
    while i < order.len()
        invariant
            i <= order@.len(),
            ord == as_ints(order@),
            forall|j: int| 0 <= j < order@.len() ==> #[trigger] order@[j] < children@.len(),
            as_ints(r@) == filter_visible(*cfg, children@, ord.subrange(0, i as int)),
            forall|j: int| 0 <= j < r@.len() ==> #[trigger] r@[j] < children@.len(),
        decreases order@.len() - i,
    {
        let k = order[i];
        let ghost pre = ord.subrange(0, i as int);
        let ghost next = ord.subrange(0, i + 1);
        assert(next.drop_last() =~= pre);
        assert(next.last() == k as int);
        if cfg.is_visible(&children[k]) {
            r.push(k);
            assert(as_ints(r@) =~= filter_visible(*cfg, children@, pre).push(k as int));
        }
        i = i + 1;
    }
    assert(ord.subrange(0, order@.len() as int) =~= ord);
    r
}

/// How many more levels may be descended into, for a directory rendered at
/// `depth`: none where the bound is unset.
pub open spec fn level_budget(cfg: Config, depth: nat) -> Option<usize> {
    match cfg.depth {
        None => None,
        Some(d) => Some((if depth <= d { d - depth } else { 0int }) as usize),
    }
}

proof fn lemma_join_assoc(a: Rendering, b: Rendering, c: Rendering)
    ensures
        join(join(a, b), c) == join(a, join(b, c)),
{
    assert(join(join(a, b), c).lines =~= join(a, join(b, c)).lines);
    assert(join(join(a, b), c).errors =~= join(a, join(b, c)).errors);
}

proof fn lemma_join_empty(a: Rendering)
    ensures
        join(a, empty_rendering()) == a,
        join(empty_rendering(), a) == a,
{
    assert(join(a, empty_rendering()).lines =~= a.lines);
    assert(join(a, empty_rendering()).errors =~= a.errors);
    assert(join(empty_rendering(), a).lines =~= a.lines);
    assert(join(empty_rendering(), a).errors =~= a.errors);
}

/// Renders the children of directory `node`, whose own line stands at
/// `depth` (0 for a root), under `bar`.
fn visit_dir(cfg: &Config, node: &Node, budget: Option<usize>, bar: &String, Ghost(depth): Ghost<nat>) -> (r: Render)
    requires
        budget == level_budget(*cfg, depth + 1),
    ensures
        r.shows(render_children(*cfg, *node, depth + 1, bar@)),
    decreases node,
{
    match &node.listing {
        Listing::Unread => Render::empty(),
        Listing::Failed(e) => {
            let mut errors: Vec<String> = Vec::new();
            errors.push(e.clone());
            let r = Render { lines: Vec::new(), errors, dirs: 0, files: 0 };
            assert(strings(r.lines@) =~= Seq::empty());
            assert(strings(r.errors@) =~= seq![e@]);
            r
        },
        Listing::Entries(children) => {
            let mut names: Vec<String> = Vec::new();
            let mut i: usize = 0;
            while i < children.len()
                invariant
                    i <= children@.len(),
                    names@.len() == i,
                    forall|j: int| 0 <= j < i ==> #[trigger] names@[j]@ == children@[j].name@,
                decreases children@.len() - i,
            {
                names.push(children[i].name.clone());
                i = i + 1;
            }
            assert(names@.map_values(|s: String| s@) =~= node_names(children@));
            let order = sort_order(&names);
            let vis = visible_indices(cfg, children, &order);
            let ghost ord = visible_order(*cfg, children@);
            let ghost d = depth + 1;
            let ghost whole = render_list(*cfg, children@, ord, 0, d, bar@);
            let mut acc = Render::empty();
            let ghost mut done = empty_rendering();
            let mut j: usize = 0;
            proof {
                lemma_join_empty(whole);
            }
            while j < vis.len()
                invariant
                    j <= vis@.len(),
                    ord == as_ints(vis@),
                    budget == level_budget(*cfg, d),
                    d == depth + 1,
                    forall|k: int| 0 <= k < vis@.len() ==> #[trigger] vis@[k] < children@.len(),
                    acc.shows(done),
                    join(done, render_list(*cfg, children@, ord, j as int, d, bar@)) == whole,
                    node.listing == Listing::Entries(*children),
                decreases vis@.len() - j,
            {
                let k = vis[j];
                let child = &children[k];
                let last = j + 1 == vis.len();
                assert(ord[j as int] == k as int);
                let ghost below = render_children(*cfg, *child, d + 1, next_bar(bar@, last));
                let ghost item = render_entry(*cfg, *child, d, bar@, last, below);
                let line = cfg.entry_line(child, bar.as_str(), last);
                let mut lines: Vec<String> = Vec::new();
                lines.push(line);
                let mut item_out = Render { lines, errors: Vec::new(), dirs: 0, files: 0 };
                assert(strings(item_out.lines@) =~= seq![entry_line(*cfg, *child, bar@, last)]);
                assert(strings(item_out.errors@) =~= Seq::empty());
                match child.kind {
                    EntryKind::Dir => {
                        let expand = match budget {
                            None => true,
                            Some(b) => b > 0,
                        };
                        item_out.dirs = 1;
                        if expand {
                            let child_budget = match budget {
                                None => None,
                                Some(b) => Some(b - 1),
                            };
                            let nb = extend_bar(bar.as_str(), last);
                            proof {
                                assert(decreases_to!(*children => children@));
                                assert(decreases_to!(children@ => children@[k as int]));
                                assert(node.listing->Entries_0 == *children);
                                assert(decreases_to!(node.listing => node.listing->Entries_0));
                                assert(decreases_to!(*node => node.listing));
                                assert(decreases_to!(*node => *child));
                            }
                            let sub = visit_dir(cfg, child, child_budget, &nb, Ghost(d));
                            let ghost head = Rendering {
                                lines: seq![entry_line(*cfg, *child, bar@, last)],
                                errors: Seq::empty(),
                                dirs: 1,
                                files: 0,
                            };
                            item_out.absorb(sub, Ghost(head), Ghost(below));
                            assert(join(head, below).lines =~= item.lines);
                            assert(join(head, below).errors =~= item.errors);
                        }
                    },
                    EntryKind::File | EntryKind::Symlink => {
                        item_out.files = 1;
                    },
                    EntryKind::Other => {},
                }
                assert(item_out.shows(item));
                proof {
                    lemma_join_assoc(done, item, render_list(*cfg, children@, ord, j + 1, d, bar@));
                }
                acc.absorb(item_out, Ghost(done), Ghost(item));
                proof {
                    done = join(done, item);
                }
                j = j + 1;
            }
            proof {
                lemma_join_empty(done);
            }
            acc
        },
    }
}

/// The line of a root: its metadata prefix and its path as given.
pub open spec fn root_line(cfg: Config, n: Node) -> Seq<char> {
    details_text(cfg, n.kind, n.meta) + n.name@
}

/// The rendering of one root: its line and what lies below it, the root
/// counting as one directory; or the message of a root that could not be
/// read.
pub open spec fn root_rendering(cfg: Config, root: Result<Node, String>) -> Rendering {
    match root {
        Ok(n) => {
            let below = render_children(cfg, n, 1, Seq::empty());
            Rendering {
                lines: seq![root_line(cfg, n)] + below.lines,
                errors: below.errors,
                dirs: 1 + below.dirs,
                files: below.files,
            }
        },
        Err(e) => Rendering { lines: Seq::empty(), errors: seq![e@], dirs: 0, files: 0 },
    }
}

/// The roots rendered one after the other.
pub open spec fn roots_rendering(cfg: Config, roots: Seq<Result<Node, String>>) -> Rendering
    decreases roots.len(),
{
    if roots.len() == 0 {
        empty_rendering()
    } else {
        join(roots_rendering(cfg, roots.drop_last()), root_rendering(cfg, roots.last()))
    }
}

/// The closing line: the directory count and, unless only directories are
/// shown, the file count, with "files" for any count but one.
pub open spec fn summary_line(dir_only: bool, dirs: nat, files: nat) -> Seq<char> {
    decimal(dirs) + " directories"@ + if dir_only {
        Seq::empty()
    } else {
        ", "@ + decimal(files) + " file"@ + if files == 1 {
            Seq::empty()
        } else {
            seq!['s']
        }
    }
}

/// The whole output of a run: every root, an empty line, and the summary.
pub open spec fn tree_output(cfg: Config, roots: Seq<Result<Node, String>>) -> Rendering {
    let all = roots_rendering(cfg, roots);
    Rendering {
        lines: all.lines + seq![Seq::empty(), summary_line(cfg.dir_only, sat(all.dirs), sat(all.files))],
        errors: all.errors,
        dirs: all.dirs,
        files: all.files,
    }
}

/// The closing line for the given counts.
pub fn summary(dir_only: bool, dirs: usize, files: usize) -> (r: String)
    ensures
        r@ == summary_line(dir_only, dirs as nat, files as nat),
{
    proof {
        reveal_strlit(" directories");
        reveal_strlit(", ");
        reveal_strlit(" file");
        reveal_strlit("s");
    }
    let mut s = decimal_string(dirs as u64);
    s.append(" directories");
    if !dir_only {
        s.append(", ");
        let f = decimal_string(files as u64);
        s.append(f.as_str());
        s.append(" file");
        if files != 1 {
            s.append("s");
        }
    }
    assert(s@ =~= summary_line(dir_only, dirs as nat, files as nat));
    s
}

/// Renders one root.
fn render_root(cfg: &Config, root: &Result<Node, String>) -> (r: Render)
    ensures
        r.shows(root_rendering(*cfg, *root)),
{
    match root {
        Err(e) => {
            let mut errors: Vec<String> = Vec::new();
            errors.push(e.clone());
            let r = Render { lines: Vec::new(), errors, dirs: 0, files: 0 };
            assert(strings(r.lines@) =~= Seq::empty());
            assert(strings(r.errors@) =~= seq![e@]);
            r
        },
        Ok(n) => {
            let mut line = cfg.entry_details(&n.kind, &n.meta);
            line.append(n.name.as_str());
            let mut lines: Vec<String> = Vec::new();
            lines.push(line);
            let mut out = Render { lines, errors: Vec::new(), dirs: 1, files: 0 };
            let ghost head = Rendering {
                lines: seq![root_line(*cfg, *n)],
                errors: Seq::empty(),
                dirs: 1,
                files: 0,
            };
            assert(strings(out.lines@) =~= head.lines);
            assert(strings(out.errors@) =~= head.errors);
            let budget = match cfg.depth {
                None => None,
                Some(d) => Some(if d >= 1 { d - 1 } else { 0 }),
            };
            let bar = String::new();
            let below = visit_dir(cfg, n, budget, &bar, Ghost(0));
            let ghost b = render_children(*cfg, *n, 1, Seq::empty());
            assert(bar@ =~= Seq::<char>::empty());
            out.absorb(below, Ghost(head), Ghost(b));
            assert(join(head, b).lines =~= root_rendering(*cfg, *root).lines);
            out
        },
    }
}

/// Renders every root in order, then an empty line and the summary.
pub fn render(cfg: &Config, roots: &Vec<Result<Node, String>>) -> (r: Render)
    ensures
        r.shows(tree_output(*cfg, roots@)),
{
    let mut acc = Render::empty();
    let mut i: usize = 0;
    assert(roots@.subrange(0, 0) =~= Seq::<Result<Node, String>>::empty());
    while i < roots.len()
        invariant
            i <= roots@.len(),
            acc.shows(roots_rendering(*cfg, roots@.subrange(0, i as int))),
        decreases roots@.len() - i,
    {
        let one = render_root(cfg, &roots[i]);
        let ghost pre = roots@.subrange(0, i as int);
        let ghost next = roots@.subrange(0, i + 1);
        assert(next.drop_last() =~= pre);
        acc.absorb(one, Ghost(roots_rendering(*cfg, pre)), Ghost(root_rendering(*cfg, roots@[i as int])));
        i = i + 1;
    }
    assert(roots@.subrange(0, roots@.len() as int) =~= roots@);
    let ghost all = roots_rendering(*cfg, roots@);
    let ghost before = acc.lines@;
    acc.lines.push(String::new());
    let last = summary(cfg.dir_only, acc.dirs, acc.files);
    acc.lines.push(last);
    assert(strings(acc.lines@) =~= strings(before) + seq![Seq::<char>::empty(), summary_line(cfg.dir_only, sat(all.dirs), sat(all.files))]);
    acc
}

} // verus!
