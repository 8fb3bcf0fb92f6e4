//! Unix paths as text: their components, their parent and file name, joining,
//! and the order in which paths are listed.
use vstd::prelude::*;
use vstd::string::*;

use crate::text;
use crate::text::{join, same, split, starts_with, to_chars};

verus! {

/// The path starts at the root.
pub open spec fn absolute(path: Seq<char>) -> bool {
    path.len() > 0 && path[0] == '/'
}

/// A piece between slashes that counts as a component: not empty, and not the
/// current directory, unless a relative path starts with it.
pub open spec fn counts(path: Seq<char>, i: int) -> bool {
    let piece = text::parts_of(path, '/')[i];
    piece.len() > 0 && (piece != "."@ || (i == 0 && !absolute(path)))
}

/// The components among the first `n` pieces.
pub open spec fn components_upto(path: Seq<char>, n: nat) -> Seq<Seq<char>>
    decreases n,
{
    if n == 0 {
        Seq::empty()
    } else {
        let head = components_upto(path, (n - 1) as nat);
        if counts(path, n - 1) {
            head.push(text::parts_of(path, '/')[n - 1])
        } else {
            head
        }
    }
}

/// The components of a path, below the root if it is absolute.
pub open spec fn components(path: Seq<char>) -> Seq<Seq<char>> {
    components_upto(path, text::parts_of(path, '/').len())
}

/// The path that has these components.
pub open spec fn rendered(root: bool, parts: Seq<Seq<char>>) -> Seq<char> {
    if root {
        "/"@ + text::joined(parts, "/"@)
    } else {
        text::joined(parts, "/"@)
    }
}

/// Components as those of a path: not empty, without a slash, and the current
/// directory only at the start of a relative path.
pub open spec fn proper(root: bool, parts: Seq<Seq<char>>) -> bool {
    forall|i: int|
        0 <= i < parts.len() ==> (#[trigger] parts[i]).len() > 0 && !parts[i].contains('/') && (
        parts[i] == "."@ ==> i == 0 && !root)
}

proof fn lemma_components_upto(path: Seq<char>, n: nat)
    requires
        n <= text::parts_of(path, '/').len(),
    ensures
        components_upto(path, n).len() <= n,
        proper(absolute(path), components_upto(path, n)),
    decreases n,
{
    text::lemma_parts_hold_no_separator(path, '/');
    if n > 0 {
        lemma_components_upto(path, (n - 1) as nat);
        let head = components_upto(path, (n - 1) as nat);
        let all = components_upto(path, n);
        assert forall|i: int| 0 <= i < all.len() implies (#[trigger] all[i]).len() > 0
            && !all[i].contains('/') && (all[i] == "."@ ==> i == 0 && !absolute(path)) by {
            if i < head.len() {
                assert(all[i] == head[i]);
            }
        }
    }
}

/// The components of a path are proper ones.
pub proof fn lemma_components_proper(path: Seq<char>)
    ensures
        proper(absolute(path), components(path)),
{
    lemma_components_upto(path, text::parts_of(path, '/').len());
}

proof fn lemma_upto_relative(path: Seq<char>, parts: Seq<Seq<char>>, n: nat)
    requires
        !absolute(path),
        text::parts_of(path, '/') == parts,
        proper(false, parts),
        n <= parts.len(),
    ensures
        components_upto(path, n) == parts.take(n as int),
    decreases n,
{
    if n > 0 {
        lemma_upto_relative(path, parts, (n - 1) as nat);
        assert(parts[n - 1].len() > 0);
        assert(parts.take(n as int) =~= parts.take(n - 1).push(parts[n - 1]));
    }
}

proof fn lemma_upto_absolute(path: Seq<char>, parts: Seq<Seq<char>>, n: nat)
    requires
        absolute(path),
        text::parts_of(path, '/') == seq![Seq::<char>::empty()] + parts,
        proper(true, parts),
        1 <= n <= parts.len() + 1,
    ensures
        components_upto(path, n) == parts.take(n - 1),
    decreases n,
{
    let pieces = text::parts_of(path, '/');
    if n == 1 {
        assert(pieces[0].len() == 0);
        assert(components_upto(path, 0) =~= Seq::<Seq<char>>::empty());
        assert(components_upto(path, 1) =~= parts.take(0));
    } else {
        lemma_upto_absolute(path, parts, (n - 1) as nat);
        assert(pieces[n - 1] == parts[n - 2]);
        assert(parts.take(n - 1) =~= parts.take(n - 2).push(parts[n - 2]));
    }
}

/// A path that is written from proper components has those components, and
/// starts at the root just where it was meant to.
pub proof fn law_rendered_components(root: bool, parts: Seq<Seq<char>>)
    requires
        proper(root, parts),
    ensures
        components(rendered(root, parts)) == parts,
        absolute(rendered(root, parts)) == root,
{
    reveal_strlit("/");
    assert("/"@ =~= seq!['/']);
    let body = text::joined(parts, "/"@);
    let path = rendered(root, parts);
    if parts.len() > 0 {
        text::law_joined_parts_split(parts, '/');
        lemma_joined_start(parts);
    }
    if root {
        assert(path[0] == '/');
        assert(path.subrange(1, path.len() as int) =~= body);
        assert(text::first_pos(path, '/') == 0);
        assert(path.subrange(0, 0) =~= Seq::<char>::empty());
        if parts.len() > 0 {
            assert(text::parts_of(path, '/') =~= seq![Seq::<char>::empty()] + parts);
            lemma_upto_absolute(path, parts, parts.len() + 1);
            assert(parts.take(parts.len() as int) =~= parts);
        } else {
            assert(body =~= Seq::<char>::empty());
            assert(text::parts_of(body, '/') =~= seq![Seq::<char>::empty()]);
            let pieces = text::parts_of(path, '/');
            assert(pieces =~= seq![Seq::<char>::empty(), Seq::<char>::empty()]);
            assert(!counts(path, 0) && !counts(path, 1));
            assert(components_upto(path, 0) =~= parts);
            assert(components_upto(path, 1) =~= parts);
            assert(components_upto(path, 2) =~= parts);
        }
    } else {
        if parts.len() > 0 {
            assert(parts[0].len() > 0);
            assert(path[0] == parts[0][0]);
            assert(parts[0].contains(parts[0][0]));
            lemma_upto_relative(path, parts, parts.len());
            assert(parts.take(parts.len() as int) =~= parts);
        } else {
            assert(path =~= Seq::<char>::empty());
            assert(text::parts_of(path, '/') =~= seq![Seq::<char>::empty()]);
            assert(!counts(path, 0));
            assert(components_upto(path, 0) =~= parts);
            assert(components_upto(path, 1) =~= parts);
        }
    }
}

proof fn lemma_joined_start(parts: Seq<Seq<char>>)
    requires
        parts.len() > 0,
        parts[0].len() > 0,
    ensures
        text::joined(parts, "/"@).len() > 0,
        text::joined(parts, "/"@)[0] == parts[0][0],
    decreases parts.len(),
{
    if parts.len() > 1 {
        lemma_joined_start(parts.drop_last());
    }
}

/// True when the path starts at the root.
pub fn is_absolute(path: &str) -> (r: bool)
    ensures
        r == absolute(path@),
{
    proof {
        reveal_strlit("/");
    }
    let r = starts_with(path, "/");
    proof {
        if absolute(path@) {
            assert(path@.subrange(0, 1) =~= "/"@);
        }
        if r {
            assert(path@.subrange(0, 1)[0] == "/"@[0]);
        }
    }
    r
}

/// The components of a path, below the root if it is absolute.
pub fn path_components(path: &str) -> (r: Vec<String>)
    ensures
        text::views(r@) == components(path@),
{
    let pieces = split(path, '/');
    let root = is_absolute(path);
    let ghost all = text::parts_of(path@, '/');
    let mut out: Vec<String> = Vec::new();
    let mut i: usize = 0;
    assert(text::views(out@) =~= Seq::<Seq<char>>::empty());
    while i < pieces.len()
        invariant
            i <= pieces@.len(),
            text::views(pieces@) == all,
            all == text::parts_of(path@, '/'),
            root == absolute(path@),
            text::views(out@) == components_upto(path@, i as nat),
        decreases pieces@.len() - i,
    {
        let ghost before = out@;
        assert(all[i as int] == pieces@[i as int]@);
        let piece: &str = pieces[i].as_str();
        if !piece.is_empty() && (!same(piece, ".") || (i == 0 && !root)) {
            out.push(pieces[i].clone());
            proof {
                text::lemma_views_push(before, out@.last());
                assert(out@ =~= before.push(out@.last()));
            }
        }
        i = i + 1;
    }
    assert(pieces@.len() == all.len()) by {
        assert(text::views(pieces@).len() == all.len());
    }
    out
}

/// The path that has these components.
pub fn render(root: bool, parts: &Vec<String>) -> (r: String)
    ensures
        r@ == rendered(root, text::views(parts@)),
{
    let tail = join(parts, "/");
    if root {
        "/".to_string().concat(tail.as_str())
    } else {
        tail
    }
}

/// The last component, unless it is the current or the parent directory or
/// the path has none.
pub open spec fn file_name_of(path: Seq<char>) -> Option<Seq<char>> {
    let parts = components(path);
    if parts.len() == 0 || parts.last() == "."@ || parts.last() == ".."@ {
        None
    } else {
        Some(parts.last())
    }
}

/// The last component, unless it is the current or the parent directory or
/// the path has none.
pub fn file_name(path: &str) -> (r: Option<String>)
    ensures
        text::opt_view(r) == file_name_of(path@),
{
    let parts = path_components(path);
    let n: usize = parts.len();
    if n == 0 {
        return None;
    }
    assert(components(path@).last() == parts@[n - 1]@);
    if same(parts[n - 1].as_str(), ".") || same(parts[n - 1].as_str(), "..") {
        return None;
    }
    Some(parts[n - 1].clone())
}

/// The path without its last component; none for the root and the empty path.
pub open spec fn parent_of(path: Seq<char>) -> Option<Seq<char>> {
    let parts = components(path);
    if parts.len() == 0 {
        None
    } else {
        Some(rendered(absolute(path), parts.drop_last()))
    }
}

/// The path without its last component; none for the root and the empty path.
pub fn parent(path: &str) -> (r: Option<String>)
    ensures
        text::opt_view(r) == parent_of(path@),
{
    let mut parts = path_components(path);
    let ghost all = parts@;
    if parts.len() == 0 {
        return None;
    }
    let _ = parts.pop();
    assert(text::views(parts@) =~= text::views(all).drop_last());
    Some(render(is_absolute(path), &parts))
}

/// `rest` below `base`; `rest` itself if it is absolute.
pub open spec fn joined_path(base: Seq<char>, rest: Seq<char>) -> Seq<char> {
    if absolute(rest) {
        rest
    } else if base.len() == 0 || base.last() == '/' {
        base + rest
    } else {
        base + "/"@ + rest
    }
}

/// `rest` below `base`; `rest` itself if it is absolute.
pub fn join_path(base: &str, rest: &str) -> (r: String)
    ensures
        r@ == joined_path(base@, rest@),
{
    if is_absolute(rest) {
        return rest.to_string();
    }
    let cs = to_chars(base);
    if cs.len() == 0 || cs[cs.len() - 1] == '/' {
        base.to_string().concat(rest)
    } else {
        base.to_string().concat("/").concat(rest)
    }
}

/// How components are ordered: the root, the current directory, the parent
/// directory, then names by their characters.
pub open spec fn component_key(part: Seq<char>) -> Seq<int> {
    if part == "."@ {
        seq![2int, 0]
    } else if part == ".."@ {
        seq![3int, 0]
    } else {
        seq![4int] + Seq::new(part.len(), |i: int| (part[i] as int) + 1) + seq![0int]
    }
}

/// The keys of the components, one after the other.
pub open spec fn components_key(parts: Seq<Seq<char>>) -> Seq<int>
    decreases parts.len(),
{
    if parts.len() == 0 {
        Seq::empty()
    } else {
        components_key(parts.drop_last()) + component_key(parts.last())
    }
}

/// What paths are compared by. Each component ends in 0, which is below
/// everything else, so keys compare as the paths do component by component.
pub open spec fn path_key(path: Seq<char>) -> Seq<int> {
    if absolute(path) {
        seq![1int, 0] + components_key(components(path))
    } else {
        components_key(components(path))
    }
}

/// `a` comes before `b` or equals it, compared number by number.
pub open spec fn key_le(a: Seq<int>, b: Seq<int>) -> bool
    decreases a.len(),
{
    if a.len() == 0 {
        true
    } else if b.len() == 0 {
        false
    } else if a[0] == b[0] {
        key_le(a.drop_first(), b.drop_first())
    } else {
        a[0] < b[0]
    }
}

proof fn lemma_key_total(a: Seq<int>, b: Seq<int>)
    ensures
        key_le(a, b) || key_le(b, a),
    decreases a.len(),
{
    if a.len() > 0 && b.len() > 0 {
        lemma_key_total(a.drop_first(), b.drop_first());
    }
}

proof fn lemma_key_transitive(a: Seq<int>, b: Seq<int>, c: Seq<int>)
    requires
        key_le(a, b),
        key_le(b, c),
    ensures
        key_le(a, c),
    decreases a.len(),
{
    if a.len() > 0 && b.len() > 0 && c.len() > 0 {
        if a[0] == b[0] && b[0] == c[0] {
            lemma_key_transitive(a.drop_first(), b.drop_first(), c.drop_first());
        }
    }
}

proof fn lemma_key_antisymmetric(a: Seq<int>, b: Seq<int>)
    requires
        key_le(a, b),
        key_le(b, a),
    ensures
        a == b,
    decreases a.len(),
{
    if a.len() > 0 {
        lemma_key_antisymmetric(a.drop_first(), b.drop_first());
        assert(a =~= seq![a[0]] + a.drop_first());
        assert(b =~= seq![b[0]] + b.drop_first());
    }
}

/// The key as numbers.
pub open spec fn key_ints(key: Seq<u32>) -> Seq<int> {
    Seq::new(key.len(), |i: int| key[i] as int)
}

fn code_of(c: char) -> (r: u32)
    ensures
        r == c as int,
        r <= 0x10ffff,
{
    c as u32
}

fn push_component(key: &mut Vec<u32>, part: &str)
    ensures
        key_ints(final(key)@) == key_ints(old(key)@) + component_key(part@),
{
    let ghost before = key@;
    if same(part, ".") {
        key.push(2);
        key.push(0);
        assert(key_ints(key@) =~= key_ints(before) + component_key(part@));
        return;
    }
    if same(part, "..") {
        key.push(3);
        key.push(0);
        assert(key_ints(key@) =~= key_ints(before) + component_key(part@));
        return;
    }
    key.push(4);
    let cs = to_chars(part);
    let mut i: usize = 0;
    while i < cs.len()
        invariant
            i <= cs@.len(),
            cs@ == part@,
            key_ints(key@) == key_ints(before) + (seq![4int] + Seq::new(
                i as nat,
                |j: int| (part@[j] as int) + 1,
            )),
        decreases cs@.len() - i,
    {
        let ghost sofar = key@;
        key.push(code_of(cs[i]) + 1);
        i = i + 1;
        assert(key_ints(key@) =~= key_ints(sofar).push((part@[i - 1] as int) + 1));
        assert(key_ints(key@) =~= key_ints(before) + (seq![4int] + Seq::new(
            i as nat,
            |j: int| (part@[j] as int) + 1,
        )));
    }
    let ghost codes = Seq::new(part@.len(), |j: int| (part@[j] as int) + 1);
    assert(Seq::new(i as nat, |j: int| (part@[j] as int) + 1) =~= codes);
    let ghost named = key@;
    key.push(0);
    proof {
        assert(key_ints(key@) =~= key_ints(named).push(0));
        assert(key_ints(before) + (seq![4int] + codes) + seq![0int] =~= key_ints(before) + (
        seq![4int] + codes + seq![0int]));
        assert(key_ints(named).push(0) =~= key_ints(named) + seq![0int]);
        assert(component_key(part@) =~= seq![4int] + codes + seq![0int]);
    }
}

fn key_of(path: &str) -> (r: Vec<u32>)
    ensures
        key_ints(r@) == path_key(path@),
{
    let mut key: Vec<u32> = Vec::new();
    let root = is_absolute(path);
    if root {
        key.push(1);
        key.push(0);
    }
    let ghost start = if root { seq![1int, 0] } else { Seq::<int>::empty() };
    assert(key_ints(key@) =~= start);
    let parts = path_components(path);
    let ghost all = components(path@);
    let mut i: usize = 0;
    assert(start + components_key(all.take(0)) =~= start);
    while i < parts.len()
        invariant
            i <= parts@.len(),
            text::views(parts@) == all,
            key_ints(key@) == start + components_key(all.take(i as int)),
        decreases parts@.len() - i,
    {
        assert(all[i as int] == parts@[i as int]@);
        push_component(&mut key, parts[i].as_str());
        proof {
            assert(all.take(i + 1).drop_last() =~= all.take(i as int));
            assert(start + components_key(all.take(i as int)) + component_key(all[i as int])
                =~= start + components_key(all.take(i + 1)));
        }
        i = i + 1;
    }
    assert(all.take(i as int) =~= all);
    assert(start + components_key(all) =~= path_key(path@));
    key
}

fn key_not_after(a: &Vec<u32>, b: &Vec<u32>) -> (r: bool)
    ensures
        r == key_le(key_ints(a@), key_ints(b@)),
{
    let ghost x = key_ints(a@);
    let ghost y = key_ints(b@);
    let mut i: usize = 0;
    assert(x.skip(0) =~= x);
    assert(y.skip(0) =~= y);
    loop
        invariant
            x == key_ints(a@),
            y == key_ints(b@),
            i <= a@.len(),
            i <= b@.len(),
            key_le(x, y) == key_le(x.skip(i as int), y.skip(i as int)),
        decreases a@.len() - i,
    {
        if i == a.len() {
            return true;
        }
        if i == b.len() {
            return false;
        }
        proof {
            assert(x.skip(i as int).drop_first() =~= x.skip(i + 1));
            assert(y.skip(i as int).drop_first() =~= y.skip(i + 1));
            assert(x.skip(i as int)[0] == a@[i as int]);
            assert(y.skip(i as int)[0] == b@[i as int]);
        }
        if a[i] != b[i] {
            return a[i] < b[i];
        }
        i = i + 1;
    }
}

/// `a` is listed before `b`, or they are the same path.
pub open spec fn path_le(a: Seq<char>, b: Seq<char>) -> bool {
    key_le(path_key(a), path_key(b))
}

/// True when `a` is listed before `b`, or they are the same path.
pub fn not_after(a: &str, b: &str) -> (r: bool)
    ensures
        r == path_le(a@, b@),
{
    let x = key_of(a);
    let y = key_of(b);
    key_not_after(&x, &y)
}

/// `a` is listed before `b`, and they are not the same path.
pub open spec fn path_less(a: Seq<char>, b: Seq<char>) -> bool {
    path_le(a, b) && !path_le(b, a)
}

/// Each path is listed before those that follow it.
pub open spec fn listed(paths: Seq<Seq<char>>) -> bool {
    forall|i: int, j: int|
        0 <= i < j < paths.len() ==> path_le(#[trigger] paths[i], #[trigger] paths[j])
}

fn insert_path(out: &mut Vec<String>, path: String)
    requires
        listed(text::views(old(out)@)),
    ensures
        listed(text::views(final(out)@)),
        final(out)@.len() == old(out)@.len() + 1,
        final(out)@.to_multiset() == old(out)@.to_multiset().insert(path),
{
    let ghost before = out@;
    let ghost v = text::views(out@);
    let mut p: usize = 0;
    while p < out.len() && not_after(out[p].as_str(), path.as_str())
        invariant
            p <= out@.len(),
            out@ == before,
            v == text::views(before),
            forall|j: int| 0 <= j < p ==> path_le(#[trigger] v[j], path@),
        decreases out@.len() - p,
    {
        assert(v[p as int] == out@[p as int]@);
        p = p + 1;
    }
    proof {
        if p < before.len() {
            assert(v[p as int] == before[p as int]@);
            lemma_key_total(path_key(path@), path_key(v[p as int]));
            assert(path_le(path@, v[p as int]));
            assert forall|j: int| p < j < v.len() implies path_le(path@, #[trigger] v[j]) by {
                assert(path_le(v[p as int], v[j]));
                lemma_key_transitive(path_key(path@), path_key(v[p as int]), path_key(v[j]));
            }
        }
    }
    out.insert(p, path);
    proof {
        assert(out@ =~= before.insert(p as int, path));
        lemma_insert_multiset(before, p as int, path);
        lemma_insert_listed(v, p as int, path@);
        assert(text::views(out@) =~= v.insert(p as int, path@));
    }
}

proof fn lemma_insert_listed(v: Seq<Seq<char>>, p: int, x: Seq<char>)
    requires
        listed(v),
        0 <= p <= v.len(),
        forall|j: int| 0 <= j < p ==> path_le(#[trigger] v[j], x),
        forall|j: int| p <= j < v.len() ==> path_le(x, #[trigger] v[j]),
    ensures
        listed(v.insert(p, x)),
{
    let w = v.insert(p, x);
    assert forall|a: int, b: int| 0 <= a < b < w.len() implies path_le(
        #[trigger] w[a],
        #[trigger] w[b],
    ) by {
        let a0 = if a < p { a } else { a - 1 };
        let b0 = if b < p { b } else { b - 1 };
        if a != p {
            assert(w[a] == v[a0]);
        }
        if b != p {
            assert(w[b] == v[b0]);
        }
    }
}

/// Puts the paths in the order in which they are listed.
pub fn sort_paths(paths: &Vec<String>) -> (r: Vec<String>)
    ensures
        listed(text::views(r@)),
        r@.to_multiset() == paths@.to_multiset(),
        r@.len() == paths@.len(),
{
    let mut out: Vec<String> = Vec::new();
    let mut i: usize = 0;
    assert(paths@.take(0) =~= out@);
    while i < paths.len()
        invariant
            i <= paths@.len(),
            listed(text::views(out@)),
            out@.len() == i,
            out@.to_multiset() == paths@.take(i as int).to_multiset(),
        decreases paths@.len() - i,
    {
        insert_path(&mut out, paths[i].clone());
        proof {
            paths@.take(i as int).to_multiset_ensures();
            assert(paths@.take(i + 1) =~= paths@.take(i as int).push(paths@[i as int]));
        }
        i = i + 1;
    }
    assert(paths@.take(i as int) =~= paths@);
    out
}

/// Inserting an element adds it to the multiset.
pub proof fn lemma_insert_multiset<A>(s: Seq<A>, p: int, x: A)
    requires
        0 <= p <= s.len(),
    ensures
        s.insert(p, x).to_multiset() == s.to_multiset().insert(x),
{
    let a = s.take(p);
    let b = s.skip(p);
    assert(s =~= a + b);
    assert(s.insert(p, x) =~= a.push(x) + b);
    a.to_multiset_ensures();
    vstd::seq_lib::lemma_multiset_commutative(a, b);
    vstd::seq_lib::lemma_multiset_commutative(a.push(x), b);
    assert(s.insert(p, x).to_multiset() =~= s.to_multiset().insert(x));
}

/// The order of paths is total and transitive, and only paths with the same
/// components come both before and after each other.
pub proof fn law_path_order(a: Seq<char>, b: Seq<char>, c: Seq<char>)
    ensures
        path_le(a, b) || path_le(b, a),
        path_le(a, b) && path_le(b, c) ==> path_le(a, c),
        path_le(a, b) && path_le(b, a) ==> path_key(a) == path_key(b),
{
    lemma_key_total(path_key(a), path_key(b));
    if path_le(a, b) && path_le(b, c) {
        lemma_key_transitive(path_key(a), path_key(b), path_key(c));
    }
    if path_le(a, b) && path_le(b, a) {
        lemma_key_antisymmetric(path_key(a), path_key(b));
    }
}

} // verus!
