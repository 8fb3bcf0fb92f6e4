//! Scanning a folder for git repositories. The scan decides where to look;
//! its caller looks there and reports what it found.
use vstd::prelude::*;
use vstd::string::*;

use crate::paths;
use crate::paths::sort_paths;
use crate::text;
use crate::text::{same, starts_with};
use crate::workspace;
use crate::workspace::{repos_from_paths, Repo, MAX_SCAN_RESULTS};

verus! {

/// One entry of a directory.
#[derive(Debug, Clone, PartialEq)]
pub struct DirEntry {
    pub name: String,
    pub path: String,
    /// True of a directory itself, not of a link to one.
    pub is_dir: bool,
}

/// What is in a directory.
#[derive(Debug, Clone, PartialEq)]
pub enum Finding {
    /// It contains a `.git` entry.
    Repository,
    /// Its entries could not be read.
    Unreadable,
    /// It is no repository, and holds these entries.
    Entries(Vec<DirEntry>),
}

/// The content of an entry.
#[verifier::ext_equal]
pub ghost struct EntryModel {
    pub name: Seq<char>,
    pub path: Seq<char>,
    pub is_dir: bool,
}

/// The content of a finding.
#[verifier::ext_equal]
pub ghost enum FindingModel {
    Repository,
    Unreadable,
    Entries(Seq<EntryModel>),
}

impl View for DirEntry {
    type V = EntryModel;

    open spec fn view(&self) -> EntryModel {
        EntryModel { name: self.name@, path: self.path@, is_dir: self.is_dir }
    }
}

impl View for Finding {
    type V = FindingModel;

    open spec fn view(&self) -> FindingModel {
        match self {
            Finding::Repository => FindingModel::Repository,
            Finding::Unreadable => FindingModel::Unreadable,
            Finding::Entries(list) => FindingModel::Entries(text::views(list@)),
        }
    }
}

/// A scan in progress.
pub struct Scan {
    stack: Vec<(String, usize)>,
    current: Option<(String, usize)>,
    repos: Vec<String>,
    max_depth: usize,
}

/// The content of a scan: the directories to look into with their depth, the
/// one that is being looked into, and the repositories found.
#[verifier::ext_equal]
pub ghost struct ScanModel {
    pub stack: Seq<(Seq<char>, nat)>,
    pub current: Option<(Seq<char>, nat)>,
    pub repos: Seq<Seq<char>>,
    pub max_depth: nat,
}

/// The directories of a stack.
pub open spec fn stack_views(stack: Seq<(String, usize)>) -> Seq<(Seq<char>, nat)> {
    Seq::new(stack.len(), |i: int| (stack[i].0@, stack[i].1 as nat))
}

impl View for Scan {
    type V = ScanModel;

    closed spec fn view(&self) -> ScanModel {
        ScanModel {
            stack: stack_views(self.stack@),
            current: match self.current {
                Some(c) => Some((c.0@, c.1 as nat)),
                None => None,
            },
            repos: text::views(self.repos@),
            max_depth: self.max_depth as nat,
        }
    }
}

/// Hidden directories and heavy build directories are not looked into.
pub open spec fn skipped_name(name: Seq<char>) -> bool {
    ||| text::has_prefix(name, "."@)
    ||| name == "node_modules"@
    ||| name == "target"@
    ||| name == "dist"@
    ||| name == "build"@
}

/// The entry is a directory to look into.
pub open spec fn descends(e: EntryModel) -> bool {
    e.is_dir && !skipped_name(e.name)
}

/// The directories to look into among the entries, one level down.
pub open spec fn children(entries: Seq<EntryModel>, depth: nat) -> Seq<(Seq<char>, nat)>
    decreases entries.len(),
{
    if entries.len() == 0 {
        Seq::empty()
    } else {
        let head = children(entries.drop_last(), depth);
        if descends(entries.last()) {
            head.push((entries.last().path, depth + 1))
        } else {
            head
        }
    }
}

impl ScanModel {
    /// No more repositories than the cap, and nothing too deep.
    pub open spec fn wf(self) -> bool {
        &&& self.repos.len() <= MAX_SCAN_RESULTS
        &&& self.current is Some ==> self.repos.len() < MAX_SCAN_RESULTS
        &&& self.current is Some ==> (self.current->0).1 <= self.max_depth
        &&& forall|i: int| 0 <= i < self.stack.len() ==> (#[trigger] self.stack[i]).1
            <= self.max_depth
    }

    /// The scan has nowhere left to look, or has found enough.
    pub open spec fn over(self) -> bool {
        self.stack.len() == 0 || self.repos.len() >= MAX_SCAN_RESULTS
    }

    /// The scan looking into the next directory.
    pub open spec fn advanced(self) -> ScanModel {
        if self.over() {
            ScanModel { current: None, ..self }
        } else {
            ScanModel { stack: self.stack.drop_last(), current: Some(self.stack.last()), ..self }
        }
    }

    /// The scan with the directory it looked into reported.
    pub open spec fn reported(self, finding: FindingModel) -> ScanModel {
        match self.current {
            None => self,
            Some(c) => match finding {
                FindingModel::Repository => ScanModel {
                    current: None,
                    repos: self.repos.push(c.0),
                    ..self
                },
                FindingModel::Unreadable => ScanModel { current: None, ..self },
                FindingModel::Entries(entries) => ScanModel {
                    current: None,
                    stack: if c.1 < self.max_depth {
                        self.stack + children(entries, c.1)
                    } else {
                        self.stack
                    },
                    ..self
                },
            },
        }
    }
}

fn is_skipped(name: &str) -> (r: bool)
    ensures
        r == skipped_name(name@),
{
    starts_with(name, ".") || same(name, "node_modules") || same(name, "target") || same(
        name,
        "dist",
    ) || same(name, "build")
}

impl Scan {
    /// No more repositories than the cap, and nothing too deep.
    pub closed spec fn wf(self) -> bool {
        self@.wf()
    }

    /// A scan of `root` that descends at most `max_depth` levels.
    pub fn new(root: &str, max_depth: usize) -> (r: Scan)
        ensures
            r.wf(),
            r@ == (ScanModel {
                stack: seq![(root@, 0nat)],
                current: None,
                repos: Seq::empty(),
                max_depth: max_depth as nat,
            }),
    {
        let mut stack: Vec<(String, usize)> = Vec::new();
        stack.push((root.to_string(), 0));
        let r = Scan { stack, current: None, repos: Vec::new(), max_depth };
        assert(r@.stack =~= seq![(root@, 0nat)]);
        assert(r@.repos =~= Seq::<Seq<char>>::empty());
        r
    }

    /// The next directory to look into, and whether its entries matter where
    /// it is no repository; none when the scan is over.
    pub fn advance(&mut self) -> (r: Option<(String, bool)>)
        requires
            old(self).wf(),
        ensures
            final(self).wf(),
            final(self)@ == old(self)@.advanced(),
            match r {
                Some((dir, descend)) => final(self)@.current is Some && dir@
                    == (final(self)@.current->0).0 && descend == ((final(self)@.current->0).1
                    < final(self)@.max_depth),
                None => old(self)@.over(),
            },
    {
        let ghost before = *self;
        if self.repos.len() >= MAX_SCAN_RESULTS {
            self.current = None;
            return None;
        }
        match self.stack.pop() {
            None => {
                self.current = None;
                assert(self@ =~= before@.advanced());
                None
            },
            Some(top) => {
                let dir = top.0.clone();
                let descend = top.1 < self.max_depth;
                self.current = Some(top);
                proof {
                    assert(self@.stack =~= before@.stack.drop_last());
                    assert(before@.stack.last() == (top.0@, top.1 as nat));
                    assert(self@ =~= before@.advanced());
                }
                Some((dir, descend))
            },
        }
    }

    /// Report what is in the directory that was looked into.
    pub fn report(&mut self, finding: &Finding)
        requires
            old(self).wf(),
        ensures
            final(self).wf(),
            final(self)@ == old(self)@.reported(finding@),
    {
        let ghost before = *self;
        let current: Option<(String, usize)> = self.current.take();
        match current {
            None => {},
            Some(c) => match finding {
                Finding::Repository => {
                    self.repos.push(c.0);
                    assert(self@.repos =~= before@.repos.push(c.0@));
                    assert(self@ =~= before@.reported(finding@));
                },
                Finding::Unreadable => {},
                Finding::Entries(list) => {
                    if c.1 < self.max_depth {
                        let ghost all = text::views(list@);
                        let ghost start = self@.stack;
                        let mut i: usize = 0;
                        assert(start + children(all.take(0), c.1 as nat) =~= start);
                        while i < list.len()
                            invariant
                                i <= list@.len(),
                                all == text::views(list@),
                                c.1 < self.max_depth,
                                self.max_depth == before.max_depth,
                                self.current is None,
                                self.repos == before.repos,
                                self@.stack == start + children(all.take(i as int), c.1 as nat),
                                self@.wf(),
                            decreases list@.len() - i,
                        {
                            let e = &list[i];
                            let ghost sofar = self.stack@;
                            proof {
                                assert(all.take(i + 1).drop_last() =~= all.take(i as int));
                                assert(all.take(i + 1).last() == e@);
                            }
                            if e.is_dir && !is_skipped(e.name.as_str()) {
                                self.stack.push((e.path.clone(), c.1 + 1));
                                assert(self@.stack =~= stack_views(sofar).push(
                                    (e.path@, (c.1 + 1) as nat),
                                ));
                            }
                            i = i + 1;
                            assert(self@.stack =~= start + children(all.take(i as int), c.1 as nat));
                        }
                        assert(all.take(i as int) =~= all);
                    }
                    assert(self@ =~= before@.reported(finding@));
                },
            },
        }
    }

    /// The repositories found, sorted by path and named by their directory,
    /// disambiguated by parent directory on a name collision.
    pub fn finish(&self) -> (r: Vec<Repo>)
        requires
            self.wf(),
        ensures
            r@.len() == self@.repos.len(),
            r@.len() <= MAX_SCAN_RESULTS,
            exists|sorted: Seq<Seq<char>>|
                {
                    &&& #[trigger] paths::listed(sorted)
                    &&& sorted.to_multiset() == self@.repos.to_multiset()
                    &&& sorted.len() == r@.len()
                    &&& forall|i: int|
                        0 <= i < r@.len() ==> (#[trigger] r@[i]).path@ == sorted[i] && r@[i].name@
                            == workspace::display_name(sorted, i) && r@[i].base is None
                            && r@[i].integration is None
                },
    {
        let sorted = sort_paths(&self.repos);
        let ghost list = text::views(sorted@);
        proof {
            lemma_views_multiset(sorted@, self.repos@);
            assert(paths::listed(list));
        }
        repos_from_paths(sorted)
    }
}

/// Equal multisets of texts have equal multisets of views.
proof fn lemma_views_multiset(a: Seq<String>, b: Seq<String>)
    requires
        a.to_multiset() == b.to_multiset(),
    ensures
        text::views(a).to_multiset() == text::views(b).to_multiset(),
    decreases a.len(),
{
    a.to_multiset_ensures();
    b.to_multiset_ensures();
    if a.len() == 0 {
        assert(b.len() == 0);
        assert(text::views(a) =~= text::views(b));
    } else {
        let x = a.last();
        let a0 = a.drop_last();
        assert(a =~= a0.push(x));
        a0.to_multiset_ensures();
        assert(a.to_multiset().count(x) > 0);
        assert(b.contains(x));
        let k = choose|k: int| 0 <= k < b.len() && b[k] == x;
        let b0 = b.remove(k);
        assert(b0.to_multiset() == b.to_multiset().remove(x));
        assert(a0.to_multiset() =~= b0.to_multiset());
        lemma_views_multiset(a0, b0);
        text::lemma_views_push(a0, x);
        text::views(a0).to_multiset_ensures();
        text::views(b).to_multiset_ensures();
        assert(text::views(b).remove(k) =~= text::views(b0));
        assert(text::views(b).to_multiset().remove(x@) == text::views(b0).to_multiset());
        assert(text::views(b)[k] == x@);
        assert(text::views(b).contains(x@));
        assert(text::views(b).to_multiset().count(x@) > 0);
        assert(text::views(b).to_multiset() =~= text::views(b0).to_multiset().insert(x@));
    }
}

/// A file system, as far as a scan sees it: what is in each directory.
pub type Tree = spec_fn(Seq<char>) -> FindingModel;

/// The scan after `n` directories were looked into and reported as they are.
pub open spec fn scanned(tree: Tree, start: ScanModel, n: nat) -> ScanModel
    decreases n,
{
    if n == 0 {
        start
    } else {
        let m = scanned(tree, start, (n - 1) as nat).advanced();
        match m.current {
            Some(c) => m.reported(tree(c.0)),
            None => m,
        }
    }
}

/// The start of a scan.
pub open spec fn scan_start(root: Seq<char>, max_depth: nat) -> ScanModel {
    ScanModel { stack: seq![(root, 0nat)], current: None, repos: Seq::empty(), max_depth }
}

/// A directory that a scan may look into: the root, and every directory that
/// it descends into from such a one.
pub open spec fn reachable(
    tree: Tree,
    root: Seq<char>,
    max_depth: nat,
    dir: Seq<char>,
    depth: nat,
) -> bool
    decreases depth,
{
    if depth == 0 {
        dir == root
    } else {
        depth <= max_depth && exists|up: Seq<char>|
            reachable(tree, root, max_depth, up, (depth - 1) as nat) && #[trigger] below(
                tree,
                up,
                dir,
            )
    }
}

/// `dir` is a directory to look into in `up`, which is no repository.
pub open spec fn below(tree: Tree, up: Seq<char>, dir: Seq<char>) -> bool {
    tree(up) matches FindingModel::Entries(entries) && exists|i: int|
        0 <= i < entries.len() && descends(#[trigger] entries[i]) && entries[i].path == dir
}

/// The directories that were looked into during the first `n` steps.
spec fn visited(tree: Tree, start: ScanModel, n: nat) -> Set<(Seq<char>, nat)>
    decreases n,
{
    if n == 0 {
        Set::empty()
    } else {
        let m = scanned(tree, start, (n - 1) as nat).advanced();
        match m.current {
            Some(c) => visited(tree, start, (n - 1) as nat).insert(c),
            None => visited(tree, start, (n - 1) as nat),
        }
    }
}

proof fn lemma_children(entries: Seq<EntryModel>, depth: nat)
    ensures
        forall|i: int|
            0 <= i < entries.len() && descends(#[trigger] entries[i]) ==> children(
                entries,
                depth,
            ).contains((entries[i].path, depth + 1)),
        forall|k: int|
            0 <= k < children(entries, depth).len() ==> (#[trigger] children(entries, depth)[k]).1
                == depth + 1 && exists|i: int|
                0 <= i < entries.len() && descends(#[trigger] entries[i]) && entries[i].path
                    == children(entries, depth)[k].0,
    decreases entries.len(),
{
    if entries.len() > 0 {
        let head = entries.drop_last();
        let all = children(entries, depth);
        lemma_children(head, depth);
        assert forall|i: int| 0 <= i < entries.len() && descends(#[trigger] entries[i]) implies all.contains(
            (entries[i].path, depth + 1),
        ) by {
            if i < head.len() {
                assert(head[i] == entries[i]);
                let k = choose|k: int|
                    0 <= k < children(head, depth).len() && children(head, depth)[k] == (
                        entries[i].path,
                        depth + 1,
                    );
                assert(all[k] == children(head, depth)[k]);
            } else {
                assert(all[all.len() - 1] == (entries[i].path, depth + 1));
            }
        }
        assert forall|k: int| 0 <= k < all.len() implies (#[trigger] all[k]).1 == depth + 1
            && exists|i: int|
            0 <= i < entries.len() && descends(#[trigger] entries[i]) && entries[i].path
                == all[k].0 by {
            if k < children(head, depth).len() {
                assert(all[k] == children(head, depth)[k]);
                let i = choose|i: int|
                    0 <= i < head.len() && descends(#[trigger] head[i]) && head[i].path
                        == children(head, depth)[k].0;
                assert(entries[i] == head[i]);
            } else {
                assert(descends(entries[entries.len() - 1]));
            }
        }
    }
}

/// What holds of a scan of a tree after every step.
spec fn scan_inv(
    tree: Tree,
    root: Seq<char>,
    max_depth: nat,
    m: ScanModel,
    seen: Set<(Seq<char>, nat)>,
) -> bool {
    &&& m.max_depth == max_depth
    &&& m.current is None
    &&& forall|i: int| 0 <= i < m.stack.len() ==> #[trigger] stack_ok(tree, root, max_depth, m.stack[i])
    &&& forall|i: int| 0 <= i < m.repos.len() ==> #[trigger] found_ok(tree, root, max_depth, m.repos[i])
    &&& m.stack.contains((root, 0nat)) || seen.contains((root, 0nat))
    &&& forall|d: Seq<char>, k: nat| #[trigger]
        seen.contains((d, k)) && tree(d) is Repository ==> m.repos.contains(d)
    &&& forall|d: Seq<char>, k: nat, e: Seq<char>|
        #![trigger seen.contains((d, k)), below(tree, d, e)]
        seen.contains((d, k)) && k < max_depth && below(tree, d, e) ==> m.stack.contains(
            (e, k + 1),
        ) || seen.contains((e, k + 1))
}

spec fn stack_ok(tree: Tree, root: Seq<char>, max_depth: nat, c: (Seq<char>, nat)) -> bool {
    c.1 <= max_depth && reachable(tree, root, max_depth, c.0, c.1)
}

spec fn found_ok(tree: Tree, root: Seq<char>, max_depth: nat, d: Seq<char>) -> bool {
    tree(d) is Repository && exists|k: nat| #[trigger] reachable(tree, root, max_depth, d, k)
}

#[verifier::rlimit(40)]
proof fn lemma_scan_step(
    tree: Tree,
    root: Seq<char>,
    max_depth: nat,
    m: ScanModel,
    seen: Set<(Seq<char>, nat)>,
)
    requires
        scan_inv(tree, root, max_depth, m, seen),
        !m.over(),
    ensures
        scan_inv(
            tree,
            root,
            max_depth,
            m.advanced().reported(tree(m.stack.last().0)),
            seen.insert(m.stack.last()),
        ),
{
    let c = m.stack.last();
    let w = m.advanced().reported(tree(c.0));
    let now = seen.insert(c);
    assert(stack_ok(tree, root, max_depth, m.stack[m.stack.len() - 1]));
    let rest = m.stack.drop_last();
    assert forall|x: (Seq<char>, nat)| m.stack.contains(x) implies rest.contains(x) || x == c by {
        let i = choose|i: int| 0 <= i < m.stack.len() && m.stack[i] == x;
        if i < rest.len() {
            assert(rest[i] == x);
        }
    }
    assert forall|x: (Seq<char>, nat)| rest.contains(x) implies w.stack.contains(x) by {
        let i = choose|i: int| 0 <= i < rest.len() && rest[i] == x;
        assert(w.stack[i] == x);
    }
    match tree(c.0) {
        FindingModel::Entries(entries) => {
            lemma_children(entries, c.1);
            let kids = children(entries, c.1);
            if c.1 < max_depth {
                assert forall|i: int| 0 <= i < w.stack.len() implies #[trigger] stack_ok(
                    tree,
                    root,
                    max_depth,
                    w.stack[i],
                ) by {
                    if i < rest.len() {
                        assert(w.stack[i] == m.stack[i]);
                        assert(stack_ok(tree, root, max_depth, m.stack[i]));
                    } else {
                        let k = i - rest.len();
                        assert(w.stack[i] == kids[k]);
                        let e = choose|e: int|
                            0 <= e < entries.len() && descends(#[trigger] entries[e])
                                && entries[e].path == kids[k].0;
                        assert(below(tree, c.0, kids[k].0)) by {
                            assert(descends(entries[e]));
                        }
                        assert(reachable(tree, root, max_depth, c.0, (c.1 + 1 - 1) as nat));
                        assert(reachable(tree, root, max_depth, kids[k].0, c.1 + 1));
                    }
                }
                assert forall|e: Seq<char>| below(tree, c.0, e) implies w.stack.contains(
                    (e, c.1 + 1),
                ) by {
                    let i = choose|i: int|
                        0 <= i < entries.len() && descends(#[trigger] entries[i])
                            && entries[i].path == e;
                    assert(kids.contains((e, c.1 + 1)));
                    let k = choose|k: int| 0 <= k < kids.len() && kids[k] == (e, c.1 + 1);
                    assert(w.stack[rest.len() + k] == kids[k]);
                }
            } else {
                assert forall|i: int| 0 <= i < w.stack.len() implies #[trigger] stack_ok(
                    tree,
                    root,
                    max_depth,
                    w.stack[i],
                ) by {
                    assert(stack_ok(tree, root, max_depth, m.stack[i]));
                }
            }
        },
        _ => {
            assert forall|i: int| 0 <= i < w.stack.len() implies #[trigger] stack_ok(
                tree,
                root,
                max_depth,
                w.stack[i],
            ) by {
                assert(stack_ok(tree, root, max_depth, m.stack[i]));
            }
        },
    }
    assert forall|i: int| 0 <= i < w.repos.len() implies #[trigger] found_ok(
        tree,
        root,
        max_depth,
        w.repos[i],
    ) by {
        if i < m.repos.len() {
            assert(found_ok(tree, root, max_depth, m.repos[i]));
            assert(w.repos[i] == m.repos[i]);
        } else {
            assert(reachable(tree, root, max_depth, c.0, c.1));
        }
    }
    assert forall|d: Seq<char>| m.repos.contains(d) implies w.repos.contains(d) by {
        let i = choose|i: int| 0 <= i < m.repos.len() && m.repos[i] == d;
        assert(w.repos[i] == d);
    }
    assert forall|d: Seq<char>, k: nat| #[trigger]
        now.contains((d, k)) && tree(d) is Repository implies w.repos.contains(d) by {
        if (d, k) == c {
            assert(w.repos[m.repos.len() as int] == d);
        } else {
            assert(seen.contains((d, k)));
        }
    }
    assert forall|d: Seq<char>, k: nat, e: Seq<char>|
        #![trigger now.contains((d, k)), below(tree, d, e)]
        now.contains((d, k)) && k < max_depth && below(tree, d, e) implies w.stack.contains(
        (e, k + 1),
    ) || now.contains((e, k + 1)) by {
        if (d, k) != c {
            assert(seen.contains((d, k)));
            if m.stack.contains((e, k + 1)) {
                assert(rest.contains((e, k + 1)) || (e, k + 1) == c);
            }
        }
    }
    if m.stack.contains((root, 0nat)) {
        assert(rest.contains((root, 0nat)) || (root, 0nat) == c);
    }
}

proof fn lemma_scan_inv(tree: Tree, root: Seq<char>, max_depth: nat, n: nat)
    ensures
        scan_inv(
            tree,
            root,
            max_depth,
            scanned(tree, scan_start(root, max_depth), n),
            visited(tree, scan_start(root, max_depth), n),
        ),
    decreases n,
{
    let start = scan_start(root, max_depth);
    if n == 0 {
        assert(start.stack[0] == (root, 0nat));
        assert(stack_ok(tree, root, max_depth, start.stack[0]));
    } else {
        lemma_scan_inv(tree, root, max_depth, (n - 1) as nat);
        let m = scanned(tree, start, (n - 1) as nat);
        if !m.over() {
            lemma_scan_step(tree, root, max_depth, m, visited(tree, start, (n - 1) as nat));
        } else {
            assert(m.advanced() =~= m);
        }
    }
}

proof fn lemma_all_seen(
    tree: Tree,
    root: Seq<char>,
    max_depth: nat,
    m: ScanModel,
    seen: Set<(Seq<char>, nat)>,
    dir: Seq<char>,
    depth: nat,
)
    requires
        scan_inv(tree, root, max_depth, m, seen),
        m.stack.len() == 0,
        reachable(tree, root, max_depth, dir, depth),
    ensures
        seen.contains((dir, depth)),
    decreases depth,
{
    if depth > 0 {
        let up = choose|up: Seq<char>|
            reachable(tree, root, max_depth, up, (depth - 1) as nat) && #[trigger] below(
                tree,
                up,
                dir,
            );
        lemma_all_seen(tree, root, max_depth, m, seen, up, (depth - 1) as nat);
        assert(seen.contains((up, (depth - 1) as nat)) && below(tree, up, dir));
        assert(((depth - 1) as nat) + 1 == depth);
    }
}

/// A scan finds only repositories that can be reached from its root without
/// entering another repository, a hidden or a build directory, and without
/// going deeper than asked.
pub proof fn law_scan_finds_only_reachable(
    tree: Tree,
    root: Seq<char>,
    max_depth: nat,
    n: nat,
    dir: Seq<char>,
)
    requires
        scanned(tree, scan_start(root, max_depth), n).repos.contains(dir),
    ensures
        tree(dir) is Repository,
        exists|k: nat| #[trigger] reachable(tree, root, max_depth, dir, k),
{
    lemma_scan_inv(tree, root, max_depth, n);
    let m = scanned(tree, scan_start(root, max_depth), n);
    let i = choose|i: int| 0 <= i < m.repos.len() && m.repos[i] == dir;
    assert(found_ok(tree, root, max_depth, m.repos[i]));
}

/// A scan that has nowhere left to look has found every repository that can
/// be reached that way. (A scan that found as many as the cap stops before.)
pub proof fn law_scan_finds_all_reachable(
    tree: Tree,
    root: Seq<char>,
    max_depth: nat,
    n: nat,
    dir: Seq<char>,
    depth: nat,
)
    requires
        scanned(tree, scan_start(root, max_depth), n).stack.len() == 0,
        reachable(tree, root, max_depth, dir, depth),
        tree(dir) is Repository,
    ensures
        scanned(tree, scan_start(root, max_depth), n).repos.contains(dir),
{
    lemma_scan_inv(tree, root, max_depth, n);
    let m = scanned(tree, scan_start(root, max_depth), n);
    let seen = visited(tree, scan_start(root, max_depth), n);
    lemma_all_seen(tree, root, max_depth, m, seen, dir, depth);
    assert(seen.contains((dir, depth)) && tree(dir) is Repository);
}

/// A directory that a scan may look into, however deep it is.
pub open spec fn in_reach(tree: Tree, root: Seq<char>, max_depth: nat, dir: Seq<char>) -> bool {
    exists|k: nat| #[trigger] reachable(tree, root, max_depth, dir, k)
}

/// What a scan reaches is a tree: the root is in no directory that it reaches,
/// no directory is in two of them or twice in one, and no two of them are the
/// same path.
pub open spec fn tidy(tree: Tree, root: Seq<char>, max_depth: nat) -> bool {
    &&& forall|a: Seq<char>| #[trigger] in_reach(tree, root, max_depth, a) ==> !below(tree, a, root)
    &&& forall|a: Seq<char>, b: Seq<char>, e: Seq<char>|
        #![trigger below(tree, a, e), below(tree, b, e)]
        in_reach(tree, root, max_depth, a) && in_reach(tree, root, max_depth, b) && below(
            tree,
            a,
            e,
        ) && below(tree, b, e) ==> a == b
    &&& forall|a: Seq<char>| #[trigger]
        in_reach(tree, root, max_depth, a) ==> (tree(a) matches FindingModel::Entries(entries)
            ==> listed_once(entries))
    &&& forall|a: Seq<char>, b: Seq<char>| #[trigger]
        in_reach(tree, root, max_depth, a) && #[trigger] in_reach(tree, root, max_depth, b)
            && paths::path_key(a) == paths::path_key(b) ==> a == b
}

/// No directory is twice among the entries.
pub open spec fn listed_once(entries: Seq<EntryModel>) -> bool {
    forall|i: int, j: int|
        0 <= i < j < entries.len() && descends(#[trigger] entries[i]) && descends(
            #[trigger] entries[j],
        ) ==> entries[i].path != entries[j].path
}

/// The paths that were looked into during the first `n` steps.
spec fn looked_into(tree: Tree, start: ScanModel, n: nat) -> Set<Seq<char>>
    decreases n,
{
    if n == 0 {
        Set::empty()
    } else {
        let m = scanned(tree, start, (n - 1) as nat).advanced();
        match m.current {
            Some(c) => looked_into(tree, start, (n - 1) as nat).insert(c.0),
            None => looked_into(tree, start, (n - 1) as nat),
        }
    }
}

/// The directory is the root, or is in a directory that was looked into.
spec fn has_parent(tree: Tree, root: Seq<char>, seen: Set<Seq<char>>, dir: Seq<char>) -> bool {
    dir == root || exists|p: Seq<char>| #[trigger] below(tree, p, dir) && seen.contains(p)
}

/// What holds of a scan of a tidy tree after every step: no directory is
/// looked into twice.
spec fn once_inv(
    tree: Tree,
    root: Seq<char>,
    max_depth: nat,
    m: ScanModel,
    seen: Set<Seq<char>>,
) -> bool {
    &&& waiting_ok(tree, root, m.stack, seen)
    &&& seen_ok(tree, root, max_depth, seen)
    &&& found_once(m.repos, seen)
}

proof fn lemma_children_differ(entries: Seq<EntryModel>, depth: nat)
    requires
        listed_once(entries),
    ensures
        forall|i: int, j: int|
            0 <= i < j < children(entries, depth).len() ==> (#[trigger] children(
                entries,
                depth,
            )[i]).0 != (#[trigger] children(entries, depth)[j]).0,
    decreases entries.len(),
{
    if entries.len() > 0 {
        let init = entries.drop_last();
        assert(listed_once(init)) by {
            assert forall|i: int, j: int|
                0 <= i < j < init.len() && descends(#[trigger] init[i]) && descends(
                    #[trigger] init[j],
                ) implies init[i].path != init[j].path by {
                assert(entries[i] == init[i] && entries[j] == init[j]);
            }
        }
        lemma_children_differ(init, depth);
        lemma_children(init, depth);
        let all = children(entries, depth);
        let head = children(init, depth);
        assert forall|i: int, j: int| 0 <= i < j < all.len() implies (#[trigger] all[i]).0 != (
        #[trigger] all[j]).0 by {
            assert(all[i] == head[i]);
            if j < head.len() {
                assert(all[j] == head[j]);
            } else {
                let k = choose|k: int|
                    0 <= k < init.len() && descends(#[trigger] init[k]) && init[k].path == head[i].0;
                assert(entries[k] == init[k]);
                assert(descends(entries[k]) && descends(entries[entries.len() - 1]));
            }
        }
    }
}

/// The part of the invariant that speaks of the directories still to be
/// looked into.
spec fn waiting_ok(
    tree: Tree,
    root: Seq<char>,
    stack: Seq<(Seq<char>, nat)>,
    seen: Set<Seq<char>>,
) -> bool {
    &&& forall|i: int, j: int|
        0 <= i < j < stack.len() ==> (#[trigger] stack[i]).0 != (#[trigger] stack[j]).0
    &&& forall|i: int|
        0 <= i < stack.len() ==> !seen.contains((#[trigger] stack[i]).0) && has_parent(
            tree,
            root,
            seen,
            stack[i].0,
        )
}

/// The part of the invariant that speaks of the directories looked into.
spec fn seen_ok(tree: Tree, root: Seq<char>, max_depth: nat, seen: Set<Seq<char>>) -> bool {
    forall|d: Seq<char>| #[trigger]
        seen.contains(d) ==> has_parent(tree, root, seen, d) && in_reach(tree, root, max_depth, d)
}

/// The part of the invariant that speaks of the repositories found.
spec fn found_once(repos: Seq<Seq<char>>, seen: Set<Seq<char>>) -> bool {
    &&& forall|i: int| 0 <= i < repos.len() ==> seen.contains(#[trigger] repos[i])
    &&& repos.no_duplicates()
}

proof fn lemma_has_parent_grows(
    tree: Tree,
    root: Seq<char>,
    seen: Set<Seq<char>>,
    dir: Seq<char>,
    d: Seq<char>,
)
    requires
        has_parent(tree, root, seen, d),
    ensures
        has_parent(tree, root, seen.insert(dir), d),
{
    if d != root {
        let p = choose|p: Seq<char>| #[trigger] below(tree, p, d) && seen.contains(p);
        assert(below(tree, p, d) && seen.insert(dir).contains(p));
    }
}

/// The directories that still wait once the next one is taken.
#[verifier::spinoff_prover]
proof fn lemma_rest_waits(
    tree: Tree,
    root: Seq<char>,
    stack: Seq<(Seq<char>, nat)>,
    seen: Set<Seq<char>>,
)
    requires
        waiting_ok(tree, root, stack, seen),
        stack.len() > 0,
    ensures
        waiting_ok(tree, root, stack.drop_last(), seen.insert(stack.last().0)),
{
    let dir = stack.last().0;
    let now = seen.insert(dir);
    let rest = stack.drop_last();
    let last = stack.len() - 1;
    assert(stack[last].0 == dir);
    assert forall|i: int| 0 <= i < rest.len() implies !now.contains((#[trigger] rest[i]).0)
        && has_parent(tree, root, now, rest[i].0) by {
        assert(rest[i] == stack[i]);
        assert(stack[i].0 != stack[last].0);
        lemma_has_parent_grows(tree, root, seen, dir, stack[i].0);
    }
    assert forall|i: int, j: int| 0 <= i < j < rest.len() implies (#[trigger] rest[i]).0 != (
    #[trigger] rest[j]).0 by {
        assert(rest[i] == stack[i] && rest[j] == stack[j]);
    }
}

/// The directories looked into once one more is.
#[verifier::spinoff_prover]
proof fn lemma_seen_grows(
    tree: Tree,
    root: Seq<char>,
    max_depth: nat,
    seen: Set<Seq<char>>,
    dir: Seq<char>,
)
    requires
        seen_ok(tree, root, max_depth, seen),
        has_parent(tree, root, seen, dir),
        in_reach(tree, root, max_depth, dir),
    ensures
        seen_ok(tree, root, max_depth, seen.insert(dir)),
{
    let now = seen.insert(dir);
    assert forall|d: Seq<char>| #[trigger] now.contains(d) implies has_parent(tree, root, now, d)
        && in_reach(tree, root, max_depth, d) by {
        if d != dir {
            assert(seen.contains(d));
        }
        lemma_has_parent_grows(tree, root, seen, dir, d);
    }
}

/// Looking into the next directory.
#[verifier::spinoff_prover]
proof fn lemma_take_next(
    tree: Tree,
    root: Seq<char>,
    max_depth: nat,
    stack: Seq<(Seq<char>, nat)>,
    seen: Set<Seq<char>>,
)
    requires
        waiting_ok(tree, root, stack, seen),
        seen_ok(tree, root, max_depth, seen),
        stack.len() > 0,
        in_reach(tree, root, max_depth, stack.last().0),
    ensures
        waiting_ok(tree, root, stack.drop_last(), seen.insert(stack.last().0)),
        seen_ok(tree, root, max_depth, seen.insert(stack.last().0)),
{
    assert(has_parent(tree, root, seen, stack[stack.len() - 1].0));
    lemma_rest_waits(tree, root, stack, seen);
    lemma_seen_grows(tree, root, max_depth, seen, stack.last().0);
}

/// A directory in the one that is looked into was neither seen nor waiting.
proof fn lemma_child_is_new(
    tree: Tree,
    root: Seq<char>,
    max_depth: nat,
    seen: Set<Seq<char>>,
    dir: Seq<char>,
    e: Seq<char>,
)
    requires
        tidy(tree, root, max_depth),
        seen_ok(tree, root, max_depth, seen),
        in_reach(tree, root, max_depth, dir),
        !seen.contains(dir),
        has_parent(tree, root, seen, dir),
        below(tree, dir, e),
    ensures
        !has_parent(tree, root, seen, e),
        !seen.contains(e),
        e != dir,
{
    assert(e != root);
    if has_parent(tree, root, seen, e) {
        let p = choose|p: Seq<char>| #[trigger] below(tree, p, e) && seen.contains(p);
        assert(in_reach(tree, root, max_depth, p));
        assert(p == dir);
    }
}

/// Adding what is in the directory that is looked into.
proof fn lemma_add_children(
    tree: Tree,
    root: Seq<char>,
    max_depth: nat,
    stack: Seq<(Seq<char>, nat)>,
    seen: Set<Seq<char>>,
    entries: Seq<EntryModel>,
)
    requires
        tidy(tree, root, max_depth),
        waiting_ok(tree, root, stack, seen),
        seen_ok(tree, root, max_depth, seen),
        stack.len() > 0,
        in_reach(tree, root, max_depth, stack.last().0),
        tree(stack.last().0) == FindingModel::Entries(entries),
    ensures
        waiting_ok(
            tree,
            root,
            stack.drop_last() + children(entries, stack.last().1),
            seen.insert(stack.last().0),
        ),
{
    let dir = stack.last().0;
    let now = seen.insert(dir);
    let rest = stack.drop_last();
    let kids = children(entries, stack.last().1);
    let all = rest + kids;
    let last = stack.len() - 1;
    assert(stack[last].0 == dir);
    lemma_take_next(tree, root, max_depth, stack, seen);
    lemma_children(entries, stack.last().1);
    lemma_children_differ(entries, stack.last().1);
    assert forall|k: int| 0 <= k < kids.len() implies below(tree, dir, (#[trigger] kids[k]).0)
        && !has_parent(tree, root, seen, kids[k].0) && !seen.contains(kids[k].0) && kids[k].0
        != dir by {
        let i = choose|i: int|
            0 <= i < entries.len() && descends(#[trigger] entries[i]) && entries[i].path
                == kids[k].0;
        assert(descends(entries[i]));
        assert(has_parent(tree, root, seen, stack[last].0));
        lemma_child_is_new(tree, root, max_depth, seen, dir, kids[k].0);
    }
    assert forall|i: int| 0 <= i < all.len() implies !now.contains((#[trigger] all[i]).0)
        && has_parent(tree, root, now, all[i].0) by {
        if i < rest.len() {
            assert(all[i] == rest[i]);
        } else {
            assert(all[i] == kids[i - rest.len()]);
            assert(below(tree, dir, all[i].0) && now.contains(dir));
        }
    }
    assert forall|i: int, j: int| 0 <= i < j < all.len() implies (#[trigger] all[i]).0 != (
    #[trigger] all[j]).0 by {
        if j < rest.len() {
            assert(all[i] == rest[i] && all[j] == rest[j]);
        } else if i < rest.len() {
            assert(all[i] == stack[i] && all[j] == kids[j - rest.len()]);
            assert(has_parent(tree, root, seen, stack[i].0));
        } else {
            assert(all[i] == kids[i - rest.len()] && all[j] == kids[j - rest.len()]);
        }
    }
}

proof fn lemma_once_step(
    tree: Tree,
    root: Seq<char>,
    max_depth: nat,
    m: ScanModel,
    seen: Set<Seq<char>>,
)
    requires
        tidy(tree, root, max_depth),
        once_inv(tree, root, max_depth, m, seen),
        !m.over(),
        in_reach(tree, root, max_depth, m.stack.last().0),
    ensures
        once_inv(
            tree,
            root,
            max_depth,
            m.advanced().reported(tree(m.stack.last().0)),
            seen.insert(m.stack.last().0),
        ),
{
    let c = m.stack.last();
    let dir = c.0;
    let now = seen.insert(dir);
    let n = m.advanced().reported(tree(dir));
    assert(m.stack[m.stack.len() - 1] == c);
    lemma_take_next(tree, root, max_depth, m.stack, seen);
    assert forall|i: int| 0 <= i < m.repos.len() implies now.contains(#[trigger] m.repos[i]) by {
        assert(seen.contains(m.repos[i]));
    }
    match tree(dir) {
        FindingModel::Repository => {
            assert(n.repos == m.repos.push(dir));
            assert forall|i: int, j: int|
                0 <= i < n.repos.len() && 0 <= j < n.repos.len() && i != j implies n.repos[i]
                != n.repos[j] by {
                if i < m.repos.len() {
                    assert(seen.contains(m.repos[i]));
                }
                if j < m.repos.len() {
                    assert(seen.contains(m.repos[j]));
                }
            }
        },
        FindingModel::Unreadable => {},
        FindingModel::Entries(entries) => {
            lemma_add_children(tree, root, max_depth, m.stack, seen, entries);
        },
    }
}

proof fn lemma_once_inv(tree: Tree, root: Seq<char>, max_depth: nat, n: nat)
    requires
        tidy(tree, root, max_depth),
    ensures
        once_inv(
            tree,
            root,
            max_depth,
            scanned(tree, scan_start(root, max_depth), n),
            looked_into(tree, scan_start(root, max_depth), n),
        ),
    decreases n,
{
    let start = scan_start(root, max_depth);
    if n > 0 {
        let before = scanned(tree, start, (n - 1) as nat);
        lemma_once_inv(tree, root, max_depth, (n - 1) as nat);
        lemma_scan_inv(tree, root, max_depth, (n - 1) as nat);
        if !before.over() {
            let last = before.stack.len() - 1;
            assert(stack_ok(tree, root, max_depth, before.stack[last]));
            lemma_once_step(
                tree,
                root,
                max_depth,
                before,
                looked_into(tree, start, (n - 1) as nat),
            );
        }
    }
}

/// A scan of a tidy tree lists each repository once: its paths, in the order
/// that `Scan::finish` gives them, are strictly ascending.
pub proof fn law_scan_lists_each_repository_once(
    tree: Tree,
    root: Seq<char>,
    max_depth: nat,
    n: nat,
    sorted: Seq<Seq<char>>,
    i: int,
    j: int,
)
    requires
        tidy(tree, root, max_depth),
        paths::listed(sorted),
        sorted.to_multiset() == scanned(tree, scan_start(root, max_depth), n).repos.to_multiset(),
        0 <= i < j < sorted.len(),
    ensures
        paths::path_less(sorted[i], sorted[j]),
{
    let repos = scanned(tree, scan_start(root, max_depth), n).repos;
    lemma_once_inv(tree, root, max_depth, n);
    repos.lemma_multiset_has_no_duplicates();
    sorted.lemma_multiset_has_no_duplicates_conv();
    assert(sorted[i] != sorted[j]);
    sorted.to_multiset_ensures();
    repos.to_multiset_ensures();
    assert(sorted.contains(sorted[i]) && sorted.contains(sorted[j]));
    assert(repos.to_multiset().count(sorted[i]) > 0 && repos.to_multiset().count(sorted[j]) > 0);
    assert(repos.contains(sorted[i]) && repos.contains(sorted[j]));
    law_scan_finds_only_reachable(tree, root, max_depth, n, sorted[i]);
    law_scan_finds_only_reachable(tree, root, max_depth, n, sorted[j]);
    assert(in_reach(tree, root, max_depth, sorted[i]));
    assert(in_reach(tree, root, max_depth, sorted[j]));
    if paths::path_le(sorted[j], sorted[i]) {
        paths::law_path_order(sorted[i], sorted[j], sorted[i]);
    }
}

} // verus!
