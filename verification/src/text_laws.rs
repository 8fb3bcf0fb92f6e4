//! What splitting, joining, counting and comparing mean for texts and paths.
use vstd::prelude::*;

use crate::paths;
use crate::paths::{file_name, not_after, parent, path_components};
use crate::text;
use crate::text::{
    contains, decimal, is_white_space, join, parse_number, split, starts_with, take_chars,
    text_not_after, until_char,
};

verus! {

proof fn lemma_joined_first(head: Seq<char>, rest: Seq<Seq<char>>, sep: Seq<char>)
    requires
        rest.len() > 0,
    ensures
        text::joined(seq![head] + rest, sep) == head + sep + text::joined(rest, sep),
    decreases rest.len(),
{
    let all = seq![head] + rest;
    assert(all.last() == rest.last());
    if rest.len() == 1 {
        assert(all.drop_last() =~= seq![head]);
        assert(text::joined(all.drop_last(), sep) == head);
    } else {
        assert(all.drop_last() =~= seq![head] + rest.drop_last());
        lemma_joined_first(head, rest.drop_last(), sep);
        assert(text::joined(all, sep) =~= head + sep + text::joined(rest, sep));
    }
}

proof fn lemma_parts_join(s: Seq<char>, c: char)
    ensures
        text::joined(text::parts_of(s, c), seq![c]) == s,
    decreases s.len(),
{
    let n = text::first_pos(s, c) as int;
    text::lemma_first_pos(s, c);
    if n < s.len() {
        let head = s.subrange(0, n);
        let rest = s.subrange(n + 1, s.len() as int);
        lemma_parts_join(rest, c);
        text::lemma_parts_hold_no_separator(rest, c);
        lemma_joined_first(head, text::parts_of(rest, c), seq![c]);
        assert(s =~= head + seq![c] + rest);
    }
}

/// A split loses nothing: no part holds the separator, and joining the parts by
/// it gives the text back.
pub proof fn law_split_parts_join_again(
    s: &str,
    c: char,
    parts: Vec<String>,
    sep: &str,
    back: String,
)
    requires
        call_ensures(split, (s, c), parts),
        sep@ == seq![c],
        call_ensures(join, (&parts, sep), back),
    ensures
        parts@.len() > 0,
        forall|i: int| 0 <= i < parts@.len() ==> !(#[trigger] parts@[i])@.contains(c),
        back@ == s@,
{
    lemma_parts_join(s@, c);
    text::lemma_parts_hold_no_separator(s@, c);
    assert(text::views(parts@).len() == parts@.len());
    assert forall|i: int| 0 <= i < parts@.len() implies !(#[trigger] parts@[i])@.contains(c) by {
        assert(text::views(parts@)[i] == parts@[i]@);
    }
}

/// A join adds the separator before every part but the first.
pub proof fn law_joins_put_the_separator_between(
    parts: &Vec<String>,
    more: &Vec<String>,
    last: String,
    sep: &str,
    a: String,
    b: String,
)
    requires
        more@ == parts@.push(last),
        call_ensures(join, (parts, sep), a),
        call_ensures(join, (more, sep), b),
    ensures
        parts@.len() == 0 ==> a@.len() == 0 && b@ == last@,
        parts@.len() > 0 ==> b@ == a@ + sep@ + last@,
{
    text::lemma_views_push(parts@, last);
    let v = text::views(parts@);
    assert(v.push(last@).drop_last() =~= v);
    if parts@.len() == 0 {
        assert(v =~= Seq::<Seq<char>>::empty());
    }
}

/// A number is written by its decimal digits: one for a number below ten, and
/// else those of its tenth and then its last.
pub proof fn law_numbers_are_written_in_tens(n: u64, r: String, tenth: u64, head: String)
    requires
        call_ensures(decimal, (n,), r),
        tenth == n / 10,
        call_ensures(decimal, (tenth,), head),
    ensures
        r@.len() > 0,
        r@.last() as int == '0' as int + n % 10,
        n < 10 ==> r@.len() == 1,
        n >= 10 ==> r@.drop_last() == head@,
{
    if n >= 10 {
        assert(r@ =~= head@.push(r@.last()));
        assert(r@.drop_last() =~= head@);
    }
}

proof fn lemma_digits_push(s: Seq<char>, c: char)
    ensures
        text::all_digits(s.push(c)) == (text::all_digits(s) && '0' <= c <= '9'),
        text::digits_value(s.push(c)) == text::digits_value(s) * 10 + (c as nat
            - '0' as nat) as nat,
{
    assert(s.push(c).drop_last() =~= s);
    if text::all_digits(s.push(c)) {
        assert forall|i: int| 0 <= i < s.len() implies text::is_digit(#[trigger] s[i]) by {
            assert(s.push(c)[i] == s[i]);
        }
        assert(text::is_digit(s.push(c)[s.len() as int]));
    }
}

/// A number is read digit by digit: each one counts what stands before it ten
/// times. What holds anything else, or does not fit, is no number.
pub proof fn law_numbers_are_read_in_tens(
    s: &str,
    a: Option<u64>,
    longer: &str,
    b: Option<u64>,
    c: char,
)
    requires
        longer@ == s@.push(c),
        call_ensures(parse_number, (s,), a),
        call_ensures(parse_number, (longer,), b),
    ensures
        s@.len() == 0 ==> a is None,
        s@.len() > 0 && !('0' <= c <= '9') ==> b is None,
        s@.len() == 0 || s@ == seq!['+'] ==> b == if '0' <= c <= '9' {
            Some((c as int - '0' as int) as u64)
        } else {
            None::<u64>
        },
        a is Some && '0' <= c <= '9' ==> b == {
            let v = a->0 * 10 + (c as int - '0' as int);
            if v <= u64::MAX {
                Some(v as u64)
            } else {
                None
            }
        },
        a is None && s@.len() > 0 && s@ != seq!['+'] ==> b is None,
{
    let d = text::digits_part(s@);
    let e = text::digits_part(longer@);
    if s@.len() == 0 {
        assert(longer@ =~= seq![c]);
        if c == '+' {
            assert(e.len() == 0);
        } else {
            assert(e =~= s@.push(c));
            lemma_digits_push(s@, c);
            assert(text::digits_value(s@) == 0);
        }
    } else {
        assert(longer@[0] == s@[0]);
        assert(e =~= d.push(c));
        lemma_digits_push(d, c);
        if d.len() == 0 {
            assert(s@ =~= seq!['+']);
            assert(text::digits_value(d) == 0);
        }
    }
}

/// A plus sign before a number changes nothing.
pub proof fn law_a_plus_sign_changes_nothing(
    s: &str,
    a: Option<u64>,
    signed: &str,
    b: Option<u64>,
)
    requires
        s@.len() == 0 || s@[0] != '+',
        signed@ == seq!['+'] + s@,
        call_ensures(parse_number, (s,), a),
        call_ensures(parse_number, (signed,), b),
    ensures
        a == b,
{
    assert(signed@.drop_first() =~= s@);
}

proof fn lemma_text_le(a: Seq<char>, b: Seq<char>, n: nat)
    requires
        n <= a.len(),
        n <= b.len(),
        a.take(n as int) == b.take(n as int),
    ensures
        text::text_le(a, b) == text::text_le(a.skip(n as int), b.skip(n as int)),
    decreases n,
{
    if n == 0 {
        assert(a.skip(0) =~= a);
        assert(b.skip(0) =~= b);
    } else {
        assert(a[0] == a.take(n as int)[0]);
        assert(b[0] == b.take(n as int)[0]);
        let x = a.drop_first();
        let y = b.drop_first();
        assert(x.take(n - 1) =~= a.take(n as int).drop_first());
        assert(y.take(n - 1) =~= b.take(n as int).drop_first());
        lemma_text_le(x, y, (n - 1) as nat);
        assert(x.skip(n - 1) =~= a.skip(n as int));
        assert(y.skip(n - 1) =~= b.skip(n as int));
    }
}

/// Texts are ordered by the first character in which they differ, and a text
/// comes before those that it starts.
pub proof fn law_the_first_difference_orders_texts(a: &str, b: &str, r: bool, n: nat)
    requires
        call_ensures(text_not_after, (a, b), r),
        n <= a@.len(),
        n <= b@.len(),
        a@.take(n as int) == b@.take(n as int),
    ensures
        n == a@.len() ==> r,
        n == b@.len() < a@.len() ==> !r,
        n < a@.len() && n < b@.len() && a@[n as int] != b@[n as int] ==> (r <==> (
        a@[n as int] as int) < (b@[n as int] as int)),
{
    lemma_text_le(a@, b@, n);
    if n < a@.len() {
        assert(a@.skip(n as int)[0] == a@[n as int]);
    }
    if n < b@.len() {
        assert(b@.skip(n as int)[0] == b@[n as int]);
    }
}

/// A cut takes what stands before the first separator, or the first characters.
pub proof fn law_cuts_keep_the_start(s: &str, c: char, a: String, n: usize, b: String)
    requires
        call_ensures(until_char, (s, c), a),
        call_ensures(take_chars, (s, n), b),
    ensures
        a@.len() <= s@.len(),
        a@ == s@.take(a@.len() as int),
        !a@.contains(c),
        a@.len() < s@.len() ==> s@[a@.len() as int] == c,
        b@.len() <= s@.len(),
        b@ == s@.take(b@.len() as int),
        b@.len() == if s@.len() <= n {
            s@.len()
        } else {
            n as nat
        },
{
    text::lemma_first_pos(s@, c);
    let at = text::first_pos(s@, c) as int;
    assert(a@ =~= s@.take(at));
    assert forall|i: int| 0 <= i < a@.len() implies a@[i] != c by {
        assert(a@[i] == s@[i]);
    }
    assert(s@.take(s@.len() as int) =~= s@);
}

/// A text starts with another where something follows it, and holds it where
/// something stands around it.
pub proof fn law_parts_stand_in_their_text(
    s: &str,
    p: &str,
    at_start: bool,
    anywhere: bool,
    before: Seq<char>,
    behind: Seq<char>,
)
    requires
        call_ensures(starts_with, (s, p), at_start),
        call_ensures(contains, (s, p), anywhere),
    ensures
        s@ == p@ + behind ==> at_start,
        at_start ==> s@ == p@ + s@.skip(p@.len() as int),
        s@ == before + p@ + behind ==> anywhere,
        anywhere ==> exists|i: int|
            0 <= i <= s@.len() && s@ == #[trigger] s@.take(i) + p@ + s@.skip(i + p@.len()),
{
    if s@ == p@ + behind {
        assert(s@.subrange(0, p@.len() as int) =~= p@);
    }
    if at_start {
        assert(s@ =~= p@ + s@.skip(p@.len() as int));
    }
    if s@ == before + p@ + behind {
        assert(s@.subrange(before.len() as int, (before.len() + p@.len()) as int) =~= p@);
        assert(text::occurs_at(s@, p@, before.len() as int));
    }
    if anywhere {
        let i = choose|i: int| text::occurs_at(s@, p@, i);
        assert(s@ =~= s@.take(i) + p@ + s@.skip(i + p@.len()));
    }
}

/// White space is the blanks, the tabs and the line ends of Unicode, and nothing
/// else: no letter, no digit and no other printed character.
pub proof fn law_white_space_is_blank(c: char, r: bool)
    requires
        call_ensures(is_white_space, (c,), r),
    ensures
        r <==> seq![
            '\t',
            '\n',
            '\u{b}',
            '\u{c}',
            '\r',
            ' ',
            '\u{85}',
            '\u{a0}',
            '\u{1680}',
            '\u{2000}',
            '\u{2001}',
            '\u{2002}',
            '\u{2003}',
            '\u{2004}',
            '\u{2005}',
            '\u{2006}',
            '\u{2007}',
            '\u{2008}',
            '\u{2009}',
            '\u{200a}',
            '\u{2028}',
            '\u{2029}',
            '\u{202f}',
            '\u{205f}',
            '\u{3000}',
        ].contains(c),
        0x21 <= c as int <= 0x7e ==> !r,
{
    let all = seq![
        '\t',
        '\n',
        '\u{b}',
        '\u{c}',
        '\r',
        ' ',
        '\u{85}',
        '\u{a0}',
        '\u{1680}',
        '\u{2000}',
        '\u{2001}',
        '\u{2002}',
        '\u{2003}',
        '\u{2004}',
        '\u{2005}',
        '\u{2006}',
        '\u{2007}',
        '\u{2008}',
        '\u{2009}',
        '\u{200a}',
        '\u{2028}',
        '\u{2029}',
        '\u{202f}',
        '\u{205f}',
        '\u{3000}',
    ];
    if text::white_space(c) {
        let n = c as u32;
        let i: int = if n <= 0xd {
            n - 9
        } else if n == 0x20 {
            5
        } else if n == 0x85 {
            6
        } else if n == 0xa0 {
            7
        } else if n == 0x1680 {
            8
        } else if n <= 0x200a {
            n - 0x2000 + 9
        } else if n == 0x2028 {
            20
        } else if n == 0x2029 {
            21
        } else if n == 0x202f {
            22
        } else if n == 0x205f {
            23
        } else {
            24
        };
        assert(all[i] == c);
    }
}

proof fn lemma_first_seen_order(s: Seq<Seq<char>>, i: int, j: int, q: int) -> (p: int)
    requires
        0 <= i < j < text::first_seen(s).len(),
        0 <= q < s.len(),
        s[q] == text::first_seen(s)[j],
    ensures
        0 <= p < q,
        s[p] == text::first_seen(s)[i],
    decreases s.len(),
{
    let init = s.drop_last();
    text::law_first_seen(s);
    text::law_first_seen(init);
    let f = text::first_seen(s);
    let g = text::first_seen(init);
    if j < g.len() {
        assert(f[i] == g[i] && f[j] == g[j]);
        if q < init.len() {
            assert(init[q] == s[q]);
            lemma_first_seen_order(init, i, j, q)
        } else {
            assert(g.contains(g[i]));
            assert(init.contains(g[i]));
            let p = choose|p: int| 0 <= p < init.len() && init[p] == g[i];
            assert(s[p] == f[i]);
            p
        }
    } else {
        assert(f == g.push(s.last()));
        assert(f[i] == g[i]);
        assert(q == init.len()) by {
            if q < init.len() {
                assert(init[q] == s.last());
                assert(init.contains(s.last()));
            }
        }
        assert(g.contains(g[i]));
        assert(init.contains(g[i]));
        let p = choose|p: int| 0 <= p < init.len() && init[p] == g[i];
        assert(s[p] == f[i]);
        p
    }
}

/// Texts without repeats keep the order in which they were first seen.
pub proof fn law_first_seen_keeps_the_order(s: Seq<Seq<char>>, i: int, j: int, q: int)
    requires
        0 <= i < j < text::first_seen(s).len(),
        0 <= q < s.len(),
        s[q] == text::first_seen(s)[j],
    ensures
        exists|p: int| 0 <= p < q && #[trigger] s[p] == text::first_seen(s)[i],
{
    let p = lemma_first_seen_order(s, i, j, q);
    assert(s[p] == text::first_seen(s)[i]);
}

proof fn lemma_components_filter(path: Seq<char>, n: nat)
    requires
        1 <= n <= text::parts_of(path, '/').len(),
    ensures
        ({
            let pieces = text::parts_of(path, '/');
            let named = |p: Seq<char>| p.len() > 0 && p != "."@;
            &&& paths::absolute(path) || pieces[0] != "."@ ==> paths::components_upto(path, n)
                == pieces.take(n as int).filter(named)
            &&& !paths::absolute(path) && pieces[0] == "."@ ==> paths::components_upto(path, n)
                == seq!["."@] + pieces.take(n as int).filter(named)
        }),
    decreases n,
{
    let pieces = text::parts_of(path, '/');
    let named = |p: Seq<char>| p.len() > 0 && p != "."@;
    let head = pieces.take(n - 1);
    assert(pieces.take(n as int) =~= head.push(pieces[n - 1]));
    head.lemma_filter_push(pieces[n - 1], named);
    reveal_strlit(".");
    if n == 1 {
        reveal(Seq::filter);
        assert(head.filter(named) =~= Seq::<Seq<char>>::empty());
        assert(paths::components_upto(path, 0) =~= Seq::<Seq<char>>::empty());
        assert(paths::components_upto(path, 1) == if paths::counts(path, 0) {
            Seq::<Seq<char>>::empty().push(pieces[0])
        } else {
            Seq::<Seq<char>>::empty()
        });
        assert(Seq::<Seq<char>>::empty().push(pieces[0]) =~= seq![pieces[0]]);
        if !paths::absolute(path) && pieces[0] == "."@ {
            assert(seq!["."@] + Seq::<Seq<char>>::empty() =~= seq!["."@]);
        }
    } else {
        lemma_components_filter(path, (n - 1) as nat);
        if !paths::absolute(path) && pieces[0] == "."@ {
            assert(seq!["."@] + head.filter(named).push(pieces[n - 1]) =~= (seq!["."@]
                + head.filter(named)).push(pieces[n - 1]));
        }
    }
}

/// The components of a path are its pieces between slashes, without the empty
/// ones and without the current directory, but for one that a relative path
/// starts with.
pub proof fn law_components_are_the_named_pieces(path: &str, pieces: Vec<String>, r: Vec<String>)
    requires
        call_ensures(split, (path, '/'), pieces),
        call_ensures(path_components, (path,), r),
    ensures
        ({
            let named = |p: Seq<char>| p.len() > 0 && p != "."@;
            let kept = text::views(pieces@).filter(named);
            let rooted = path@.len() > 0 && path@[0] == '/';
            text::views(r@) == if !rooted && pieces@[0]@ == "."@ {
                seq!["."@] + kept
            } else {
                kept
            }
        }),
{
    let all = text::parts_of(path@, '/');
    text::lemma_parts_hold_no_separator(path@, '/');
    assert(text::views(pieces@)[0] == pieces@[0]@);
    lemma_components_filter(path@, all.len());
    assert(all.take(all.len() as int) =~= all);
}

/// The parent of a path has all its components but the last, and starts at the
/// root where the path does. The file name is that last one, unless it names the
/// current or the parent directory.
pub proof fn law_parent_and_file_name_make_the_path(
    path: &str,
    parts: Vec<String>,
    up: Option<String>,
    name: Option<String>,
    up_path: &str,
    up_parts: Vec<String>,
)
    requires
        call_ensures(path_components, (path,), parts),
        call_ensures(parent, (path,), up),
        call_ensures(file_name, (path,), name),
        up is Some ==> up->0@ == up_path@,
        call_ensures(path_components, (up_path,), up_parts),
    ensures
        up is None <==> parts@.len() == 0,
        up is Some ==> text::views(up_parts@) == text::views(parts@).drop_last(),
        up is Some ==> (path@[0] == '/' <==> up_path@.len() > 0 && up_path@[0] == '/'),
        name is Some <==> parts@.len() > 0 && parts@.last()@ != "."@ && parts@.last()@ != ".."@,
        name is Some ==> name->0@ == parts@.last()@,
{
    let v = text::views(parts@);
    assert(v.len() == parts@.len());
    if parts@.len() > 0 {
        assert(v.last() == parts@.last()@);
        paths::lemma_components_proper(path@);
        let init = v.drop_last();
        let root = paths::absolute(path@);
        assert(paths::proper(root, init)) by {
            assert forall|i: int| 0 <= i < init.len() implies (#[trigger] init[i]).len() > 0
                && !init[i].contains('/') && (init[i] == "."@ ==> i == 0 && !root) by {
                assert(init[i] == v[i]);
            }
        }
        paths::law_rendered_components(root, init);
        assert(path@.len() > 0) by {
            if path@.len() == 0 {
                assert(path@ =~= Seq::<char>::empty());
                assert(text::parts_of(path@, '/') =~= seq![path@]);
                assert(paths::components_upto(path@, 0).len() == 0);
                assert(!paths::counts(path@, 0));
                assert(paths::components(path@) == paths::components_upto(path@, 0));
            }
        }
    }
}

proof fn lemma_components_key(a: Seq<Seq<char>>, b: Seq<Seq<char>>)
    ensures
        paths::components_key(a + b) == paths::components_key(a) + paths::components_key(b),
    decreases b.len(),
{
    if b.len() == 0 {
        assert(a + b =~= a);
        assert(paths::components_key(a) + paths::components_key(b) =~= paths::components_key(a));
    } else {
        lemma_components_key(a, b.drop_last());
        assert((a + b).drop_last() =~= a + b.drop_last());
        assert((a + b).last() == b.last());
        assert(paths::components_key(a + b) =~= paths::components_key(a) + paths::components_key(
            b,
        ));
    }
}

proof fn lemma_key_prefix(p: Seq<int>, a: Seq<int>, b: Seq<int>)
    ensures
        paths::key_le(p + a, p + b) == paths::key_le(a, b),
    decreases p.len(),
{
    if p.len() == 0 {
        assert(p + a =~= a);
        assert(p + b =~= b);
    } else {
        lemma_key_prefix(p.drop_first(), a, b);
        assert((p + a).drop_first() =~= p.drop_first() + a);
        assert((p + b).drop_first() =~= p.drop_first() + b);
    }
}

spec fn name_key(x: Seq<char>, rest: Seq<int>) -> Seq<int> {
    Seq::new(x.len(), |i: int| (x[i] as int) + 1) + seq![0int] + rest
}

proof fn lemma_code(c: char)
    ensures
        0 <= c as int,
{
}

proof fn lemma_name_order(x: Seq<char>, y: Seq<char>, a: Seq<int>, b: Seq<int>)
    requires
        x != y,
    ensures
        paths::key_le(name_key(x, a), name_key(y, b)) == text::text_le(x, y),
    decreases x.len(),
{
    let p = name_key(x, a);
    let q = name_key(y, b);
    assert(p.len() == x.len() + 1 + a.len());
    assert(q.len() == y.len() + 1 + b.len());
    if x.len() == 0 {
        assert(y.len() > 0) by {
            if y.len() == 0 {
                assert(x =~= y);
            }
        }
        assert(p[0] == 0 && q[0] == (y[0] as int) + 1);
        lemma_code(y[0]);
    } else if y.len() == 0 {
        assert(q[0] == 0 && p[0] == (x[0] as int) + 1);
        lemma_code(x[0]);
    } else {
        assert(p[0] == (x[0] as int) + 1 && q[0] == (y[0] as int) + 1);
        if x[0] == y[0] {
            assert(x.drop_first() != y.drop_first()) by {
                if x.drop_first() == y.drop_first() {
                    assert(x =~= seq![x[0]] + x.drop_first());
                    assert(y =~= seq![y[0]] + y.drop_first());
                }
            }
            lemma_name_order(x.drop_first(), y.drop_first(), a, b);
            assert(p.drop_first() =~= name_key(x.drop_first(), a));
            assert(q.drop_first() =~= name_key(y.drop_first(), b));
        }
    }
}

proof fn lemma_component_order(x: Seq<char>, y: Seq<char>, a: Seq<int>, b: Seq<int>)
    requires
        x != y,
        x != "."@ && y != "."@,
    ensures
        paths::key_le(paths::component_key(x) + a, paths::component_key(y) + b) == if y == ".."@ {
            false
        } else if x == ".."@ {
            true
        } else {
            text::text_le(x, y)
        },
{
    let p = paths::component_key(x) + a;
    let q = paths::component_key(y) + b;
    if x == ".."@ || y == ".."@ {
        assert(p[0] == if x == ".."@ { 3int } else { 4int });
        assert(q[0] == if y == ".."@ { 3int } else { 4int });
    } else {
        assert(p =~= seq![4int] + name_key(x, a));
        assert(q =~= seq![4int] + name_key(y, b));
        lemma_key_prefix(seq![4int], name_key(x, a), name_key(y, b));
        lemma_name_order(x, y, a, b);
    }
}

/// Two paths that both start at the root are listed by the first component in
/// which they differ: the parent directory before any name, and names as texts.
/// A folder is listed before what is in it.
pub proof fn law_the_first_different_component_orders_paths(
    a: &str,
    b: &str,
    r: bool,
    pa: Vec<String>,
    pb: Vec<String>,
    n: int,
)
    requires
        a@.len() > 0 && a@[0] == '/',
        b@.len() > 0 && b@[0] == '/',
        call_ensures(not_after, (a, b), r),
        call_ensures(path_components, (a,), pa),
        call_ensures(path_components, (b,), pb),
        0 <= n <= pa@.len(),
        n <= pb@.len(),
        text::views(pa@).take(n) == text::views(pb@).take(n),
    ensures
        n == pa@.len() ==> r,
        n == pb@.len() < pa@.len() ==> !r,
        n < pa@.len() && n < pb@.len() && pa@[n]@ != pb@[n]@ ==> r == if pb@[n]@ == ".."@ {
            false
        } else if pa@[n]@ == ".."@ {
            true
        } else {
            text::text_le(pa@[n]@, pb@[n]@)
        },
{
    let x = text::views(pa@);
    let y = text::views(pb@);
    let shared = x.take(n);
    let front = seq![1int, 0] + paths::components_key(shared);
    let p = paths::components_key(x.skip(n));
    let q = paths::components_key(y.skip(n));
    assert(x =~= shared + x.skip(n));
    assert(y =~= shared + y.skip(n));
    lemma_components_key(shared, x.skip(n));
    lemma_components_key(shared, y.skip(n));
    assert(paths::path_key(a@) =~= front + p);
    assert(paths::path_key(b@) =~= front + q);
    lemma_key_prefix(front, p, q);
    paths::lemma_components_proper(a@);
    paths::lemma_components_proper(b@);
    if n < pa@.len() {
        lemma_first_component(x, n);
    }
    if n < pb@.len() {
        lemma_first_component(y, n);
    }
    if n < pa@.len() && n < pb@.len() && x[n] != y[n] {
        assert(x[n] != "."@ && y[n] != "."@);
        lemma_component_order(
            x[n],
            y[n],
            paths::components_key(x.skip(n + 1)),
            paths::components_key(y.skip(n + 1)),
        );
    }
}

proof fn lemma_first_component(x: Seq<Seq<char>>, n: int)
    requires
        0 <= n < x.len(),
    ensures
        paths::components_key(x.skip(n)) == paths::component_key(x[n]) + paths::components_key(
            x.skip(n + 1),
        ),
        paths::components_key(x.skip(n)).len() > 0,
{
    let one = seq![x[n]];
    let rest = paths::components_key(x.skip(n + 1));
    assert(x.skip(n) =~= one + x.skip(n + 1));
    lemma_components_key(one, x.skip(n + 1));
    lemma_one_component(x[n]);
    assert(paths::components_key(x.skip(n)) == paths::component_key(x[n]) + rest);
    assert((paths::component_key(x[n]) + rest).len() > 0);
}

proof fn lemma_one_component(x: Seq<char>)
    ensures
        paths::components_key(seq![x]) == paths::component_key(x),
        paths::component_key(x).len() > 0,
{
    let one = seq![x];
    assert(one.drop_last() =~= Seq::<Seq<char>>::empty());
    assert(paths::components_key(one.drop_last()) =~= Seq::<int>::empty());
    assert(Seq::<int>::empty() + paths::component_key(x) =~= paths::component_key(x));
}

} // verus!
