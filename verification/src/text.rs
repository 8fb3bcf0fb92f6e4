//! Text helpers on characters: trimming, splitting, searching and decimal
//! numbers. Text is modelled as the sequence of its characters.
use vstd::prelude::*;
use vstd::string::*;

verus! {

/// The views of a sequence of values, element by element.
pub open spec fn views<T: View>(s: Seq<T>) -> Seq<T::V> {
    Seq::new(s.len(), |i: int| s[i]@)
}

/// The view of an optional value.
pub open spec fn opt_view<T: View>(o: Option<T>) -> Option<T::V> {
    match o {
        Some(v) => Some(v@),
        None => None,
    }
}

/// `String::push`: appends the character at the end of the text.
pub assume_specification[ String::push ](s: &mut String, ch: char)
    ensures
        final(s)@ == old(s)@.push(ch),
;

/// `String::pop`: removes the last character and returns it, or returns `None`
/// and leaves an empty text as it is.
pub assume_specification[ String::pop ](s: &mut String) -> (r: Option<char>)
    ensures
        match r {
            Some(ch) => old(s)@.len() > 0 && ch == old(s)@.last() && final(s)@
                == old(s)@.drop_last(),
            None => old(s)@.len() == 0 && final(s)@ == old(s)@,
        },
;

/// Equality of string slices: two slices are equal when they hold the same text.
pub assume_specification[ <str as PartialEq<str>>::eq ](a: &str, b: &str) -> (r: bool)
    ensures
        r == (a@ == b@),
;

/// True when the two texts are the same.
pub fn same(a: &str, b: &str) -> (r: bool)
    ensures
        r == (a@ == b@),
{
    a.eq(b)
}

/// True when one of the texts is `s`.
pub fn contains_text(texts: &Vec<String>, s: &str) -> (r: bool)
    ensures
        r == views(texts@).contains(s@),
{
    let mut i: usize = 0;
    while i < texts.len()
        invariant
            i <= texts@.len(),
            forall|j: int| 0 <= j < i ==> (#[trigger] texts@[j])@ != s@,
        decreases texts@.len() - i,
    {
        if same(texts[i].as_str(), s) {
            assert(views(texts@)[i as int] == s@);
            return true;
        }
        i = i + 1;
    }
    assert forall|j: int| 0 <= j < views(texts@).len() implies views(texts@)[j] != s@ by {
        assert(texts@[j]@ != s@);
    }
    false
}

/// A copy of a list of texts.
pub fn clone_texts(texts: &Vec<String>) -> (r: Vec<String>)
    ensures
        r@ == texts@,
{
    let mut out: Vec<String> = Vec::new();
    let mut i: usize = 0;
    while i < texts.len()
        invariant
            i <= texts@.len(),
            out@ == texts@.take(i as int),
        decreases texts@.len() - i,
    {
        out.push(texts[i].clone());
        i = i + 1;
        assert(out@ =~= texts@.take(i as int));
    }
    assert(texts@.take(i as int) =~= texts@);
    out
}

/// A copy of an optional text.
pub fn clone_opt(o: &Option<String>) -> (r: Option<String>)
    ensures
        r == *o,
{
    match o {
        Some(s) => Some(s.clone()),
        None => None,
    }
}

/// The characters of a text.
pub fn to_chars(s: &str) -> (r: Vec<char>)
    ensures
        r@ == s@,
{
    let mut out: Vec<char> = Vec::new();
    for c in it: s.chars()
        invariant
            it.seq() == s@,
            out@ == s@.take(it.index() as int),
    {
        out.push(c);
    }
    assert(s@.take(s@.len() as int) == s@);
    out
}

/// The text of the characters from `lo` up to `hi`.
pub fn from_chars(cs: &Vec<char>, lo: usize, hi: usize) -> (r: String)
    requires
        lo <= hi <= cs@.len(),
    ensures
        r@ == cs@.subrange(lo as int, hi as int),
{
    let mut out = String::new();
    let mut i: usize = lo;
    while i < hi
        invariant
            lo <= i <= hi <= cs@.len(),
            out@ == cs@.subrange(lo as int, i as int),
        decreases hi - i,
    {
        out.push(cs[i]);
        i = i + 1;
        assert(out@ =~= cs@.subrange(lo as int, i as int));
    }
    out
}

/// True of the code points with the Unicode White_Space property.
pub open spec fn white_space(c: char) -> bool {
    let n = c as u32;
    ||| 0x9 <= n <= 0xd
    ||| n == 0x20 || n == 0x85 || n == 0xa0 || n == 0x1680
    ||| 0x2000 <= n <= 0x200a
    ||| n == 0x2028 || n == 0x2029 || n == 0x202f || n == 0x205f || n == 0x3000
}

/// True when the character is white space.
pub fn is_white_space(c: char) -> (r: bool)
    ensures
        r == white_space(c),
{
    let n: u32 = c as u32;
    (0x9 <= n && n <= 0xd) || n == 0x20 || n == 0x85 || n == 0xa0 || n == 0x1680 || (0x2000 <= n
        && n <= 0x200a) || n == 0x2028 || n == 0x2029 || n == 0x202f || n == 0x205f || n == 0x3000
}

/// The text without its leading white space.
pub open spec fn trim_start_of(s: Seq<char>) -> Seq<char>
    decreases s.len(),
{
    if s.len() > 0 && white_space(s[0]) {
        trim_start_of(s.drop_first())
    } else {
        s
    }
}

/// The text without its trailing white space.
pub open spec fn trim_end_of(s: Seq<char>) -> Seq<char>
    decreases s.len(),
{
    if s.len() > 0 && white_space(s.last()) {
        trim_end_of(s.drop_last())
    } else {
        s
    }
}

/// The text without the white space around it.
pub open spec fn trimmed(s: Seq<char>) -> Seq<char> {
    trim_end_of(trim_start_of(s))
}

/// The text without the white space around it.
pub fn trim(s: &str) -> (r: String)
    ensures
        r@ == trimmed(s@),
{
    let cs = to_chars(s);
    let mut lo: usize = 0;
    assert(cs@.subrange(0, cs@.len() as int) =~= cs@);
    while lo < cs.len() && is_white_space(cs[lo])
        invariant
            lo <= cs@.len(),
            trim_start_of(cs@) == trim_start_of(cs@.subrange(lo as int, cs@.len() as int)),
        decreases cs@.len() - lo,
    {
        assert(cs@.subrange(lo as int, cs@.len() as int).drop_first() =~= cs@.subrange(
            lo + 1,
            cs@.len() as int,
        ));
        lo = lo + 1;
    }
    let mut hi: usize = cs.len();
    while lo < hi && is_white_space(cs[hi - 1])
        invariant
            lo <= hi <= cs@.len(),
            trimmed(cs@) == trim_end_of(cs@.subrange(lo as int, hi as int)),
        decreases hi - lo,
    {
        assert(cs@.subrange(lo as int, hi as int).drop_last() =~= cs@.subrange(
            lo as int,
            hi - 1,
        ));
        hi = hi - 1;
    }
    from_chars(&cs, lo, hi)
}

proof fn lemma_trim_start(s: Seq<char>)
    ensures
        trim_start_of(s).len() > 0 ==> !white_space(trim_start_of(s)[0]),
        trim_start_of(s).len() <= s.len(),
    decreases s.len(),
{
    if s.len() > 0 && white_space(s[0]) {
        lemma_trim_start(s.drop_first());
    }
}

proof fn lemma_trim_end(s: Seq<char>)
    ensures
        trim_end_of(s).len() > 0 ==> !white_space(trim_end_of(s).last()) && trim_end_of(s)[0]
            == s[0],
        trim_end_of(s).len() <= s.len(),
    decreases s.len(),
{
    if s.len() > 0 && white_space(s.last()) {
        lemma_trim_end(s.drop_last());
    }
}

proof fn lemma_trim_start_suffix(s: Seq<char>)
    ensures
        trim_start_of(s) == s.skip(s.len() - trim_start_of(s).len()),
        trim_start_of(s).len() <= s.len(),
    decreases s.len(),
{
    if s.len() > 0 && white_space(s[0]) {
        lemma_trim_start_suffix(s.drop_first());
        assert(s.drop_first().skip(s.len() - 1 - trim_start_of(s).len()) =~= s.skip(
            s.len() - trim_start_of(s).len(),
        ));
    } else {
        assert(s.skip(0) =~= s);
    }
}

proof fn lemma_trim_end_prefix(s: Seq<char>)
    ensures
        trim_end_of(s) == s.take(trim_end_of(s).len() as int),
        trim_end_of(s).len() <= s.len(),
    decreases s.len(),
{
    if s.len() > 0 && white_space(s.last()) {
        lemma_trim_end_prefix(s.drop_last());
        assert(s.drop_last().take(trim_end_of(s).len() as int) =~= s.take(
            trim_end_of(s).len() as int,
        ));
    } else {
        assert(s.take(s.len() as int) =~= s);
    }
}

/// Every character of a trimmed text is one of the text.
pub proof fn lemma_trimmed_part(s: Seq<char>)
    ensures
        forall|i: int| 0 <= i < trimmed(s).len() ==> s.contains(#[trigger] trimmed(s)[i]),
{
    let t = trim_start_of(s);
    lemma_trim_start_suffix(s);
    lemma_trim_end_prefix(t);
    assert forall|i: int| 0 <= i < trimmed(s).len() implies s.contains(
        #[trigger] trimmed(s)[i],
    ) by {
        assert(trimmed(s)[i] == t[i]);
        assert(t[i] == s[s.len() - t.len() + i]);
    }
}

/// A trimmed text neither starts nor ends with white space, and trimming it
/// again changes nothing.
pub proof fn law_trim(s: Seq<char>)
    ensures
        trimmed(s).len() > 0 ==> !white_space(trimmed(s)[0]) && !white_space(trimmed(s).last()),
        trimmed(trimmed(s)) == trimmed(s),
        trimmed(s).len() <= s.len(),
{
    lemma_trim_start(s);
    lemma_trim_end(trim_start_of(s));
}

/// Trimming cuts white space off both ends and nothing else: a trimmed text is
/// a part of the text, and all that is missing is white space before and after
/// it.
pub proof fn law_trim_keeps_the_middle(s: Seq<char>)
    ensures
        exists|a: int, b: int|
            0 <= a <= b <= s.len() && trimmed(s) == #[trigger] s.subrange(a, b) && (forall|i: int|
                0 <= i < a || b <= i < s.len() ==> white_space(#[trigger] s[i])),
{
    lemma_trim_start_suffix(s);
    lemma_trim_start_cuts(s);
    let t = trim_start_of(s);
    lemma_trim_end_prefix(t);
    lemma_trim_end_cuts(t);
    let a = s.len() - t.len();
    let b = a + trimmed(s).len();
    assert(trimmed(s) =~= s.subrange(a, b));
    assert forall|i: int| 0 <= i < a || b <= i < s.len() implies white_space(#[trigger] s[i]) by {
        if b <= i {
            assert(s[i] == t[i - a]);
        }
    }
}

proof fn lemma_trim_start_cuts(s: Seq<char>)
    ensures
        forall|i: int|
            0 <= i < s.len() - trim_start_of(s).len() ==> white_space(#[trigger] s[i]),
    decreases s.len(),
{
    if s.len() > 0 && white_space(s[0]) {
        let rest = s.drop_first();
        lemma_trim_start_cuts(rest);
        lemma_trim_start(rest);
        assert forall|i: int| 0 <= i < s.len() - trim_start_of(s).len() implies white_space(
            #[trigger] s[i],
        ) by {
            if i > 0 {
                assert(s[i] == rest[i - 1]);
            }
        }
    }
}

proof fn lemma_trim_end_cuts(s: Seq<char>)
    ensures
        forall|i: int| trim_end_of(s).len() <= i < s.len() ==> white_space(#[trigger] s[i]),
    decreases s.len(),
{
    if s.len() > 0 && white_space(s.last()) {
        let rest = s.drop_last();
        lemma_trim_end_cuts(rest);
        assert forall|i: int| trim_end_of(s).len() <= i < s.len() implies white_space(
            #[trigger] s[i],
        ) by {
            if i < rest.len() {
                assert(s[i] == rest[i]);
            }
        }
    }
}

/// `p` is a prefix of `s`.
pub open spec fn has_prefix(s: Seq<char>, p: Seq<char>) -> bool {
    p.len() <= s.len() && s.subrange(0, p.len() as int) == p
}

/// `p` occurs in `s` at position `i`.
pub open spec fn occurs_at(s: Seq<char>, p: Seq<char>, i: int) -> bool {
    0 <= i && i + p.len() <= s.len() && s.subrange(i, i + p.len()) == p
}

/// `p` occurs somewhere in `s`.
pub open spec fn has_part(s: Seq<char>, p: Seq<char>) -> bool {
    exists|i: int| occurs_at(s, p, i)
}

fn matches_at(cs: &Vec<char>, ps: &Vec<char>, at: usize) -> (r: bool)
    requires
        at <= cs@.len(),
    ensures
        r == occurs_at(cs@, ps@, at as int),
{
    if ps.len() > cs.len() - at {
        return false;
    }
    let mut j: usize = 0;
    while j < ps.len()
        invariant
            j <= ps@.len(),
            at + ps@.len() <= cs@.len(),
            cs.len() <= usize::MAX,
            forall|k: int| 0 <= k < j ==> cs@[at + k] == #[trigger] ps@[k],
        decreases ps@.len() - j,
    {
        assert(at + j < cs.len());
        if cs[at + j] != ps[j] {
            assert(cs@.subrange(at as int, at + ps@.len())[j as int] != ps@[j as int]);
            return false;
        }
        j = j + 1;
    }
    assert(cs@.subrange(at as int, at + ps@.len()) =~= ps@);
    true
}

/// True when `s` starts with `p`.
pub fn starts_with(s: &str, p: &str) -> (r: bool)
    ensures
        r == has_prefix(s@, p@),
{
    let cs = to_chars(s);
    let ps = to_chars(p);
    matches_at(&cs, &ps, 0)
}

/// True when `p` occurs in `s`.
pub fn contains(s: &str, p: &str) -> (r: bool)
    ensures
        r == has_part(s@, p@),
{
    let cs = to_chars(s);
    let ps = to_chars(p);
    let mut i: usize = 0;
    while i <= cs.len()
        invariant
            i <= cs@.len() + 1,
            cs@ == s@,
            ps@ == p@,
            forall|k: int| 0 <= k < i ==> !occurs_at(s@, p@, k),
        decreases cs@.len() + 1 - i,
    {
        if matches_at(&cs, &ps, i) {
            assert(occurs_at(s@, p@, i as int));
            return true;
        }
        if i == cs.len() {
            assert forall|k: int| !occurs_at(s@, p@, k) by {}
            return false;
        }
        i = i + 1;
    }
    false
}

/// The position of the first `c` in `s`, or the length of `s` if there is none.
pub open spec fn first_pos(s: Seq<char>, c: char) -> nat
    decreases s.len(),
{
    if s.len() == 0 || s[0] == c {
        0
    } else {
        1 + first_pos(s.drop_first(), c)
    }
}

/// What `first_pos` means: nothing before it is `c`, and it holds `c` or is the end.
pub proof fn lemma_first_pos(s: Seq<char>, c: char)
    ensures
        first_pos(s, c) <= s.len(),
        first_pos(s, c) < s.len() ==> s[first_pos(s, c) as int] == c,
        forall|i: int| 0 <= i < first_pos(s, c) ==> s[i] != c,
    decreases s.len(),
{
    if s.len() > 0 && s[0] != c {
        lemma_first_pos(s.drop_first(), c);
        assert forall|i: int| 0 <= i < first_pos(s, c) implies s[i] != c by {
            if i > 0 {
                assert(s[i] == s.drop_first()[i - 1]);
            }
        }
    }
}

proof fn lemma_first_pos_unique(s: Seq<char>, c: char, n: nat)
    requires
        n <= s.len(),
        n < s.len() ==> s[n as int] == c,
        forall|i: int| 0 <= i < n ==> s[i] != c,
    ensures
        first_pos(s, c) == n,
{
    lemma_first_pos(s, c);
    let m = first_pos(s, c);
    if m < n {
        assert(s[m as int] != c);
    } else if n < m {
        assert(s[n as int] != c);
    }
}

/// The position of the first `c` at or after `from`, or the length.
pub fn find_from(cs: &Vec<char>, c: char, from: usize) -> (r: usize)
    requires
        from <= cs@.len(),
    ensures
        from <= r <= cs@.len(),
        r - from == first_pos(cs@.subrange(from as int, cs@.len() as int), c),
{
    let mut i: usize = from;
    while i < cs.len() && cs[i] != c
        invariant
            from <= i <= cs@.len(),
            forall|k: int| from <= k < i ==> cs@[k] != c,
        decreases cs@.len() - i,
    {
        i = i + 1;
    }
    proof {
        lemma_first_pos_unique(
            cs@.subrange(from as int, cs@.len() as int),
            c,
            (i - from) as nat,
        );
    }
    i
}

/// The parts of `s` between the occurrences of `c`.
pub open spec fn parts_of(s: Seq<char>, c: char) -> Seq<Seq<char>>
    decreases s.len(),
{
    let n = first_pos(s, c) as int;
    if n >= s.len() {
        seq![s]
    } else {
        seq![s.subrange(0, n)] + parts_of(s.subrange(n + 1, s.len() as int), c)
    }
}

/// The parts of `s` between the occurrences of `c`.
pub fn split(s: &str, c: char) -> (r: Vec<String>)
    ensures
        views(r@) == parts_of(s@, c),
{
    let cs = to_chars(s);
    let mut out: Vec<String> = Vec::new();
    let mut from: usize = 0;
    assert(cs@.subrange(0, cs@.len() as int) =~= cs@);
    loop
        invariant
            from <= cs@.len(),
            parts_of(cs@, c) == views(out@) + parts_of(
                cs@.subrange(from as int, cs@.len() as int),
                c,
            ),
            cs@ == s@,
        decreases cs@.len() - from,
    {
        let at = find_from(&cs, c, from);
        let ghost rest = cs@.subrange(from as int, cs@.len() as int);
        let ghost before = out@;
        out.push(from_chars(&cs, from, at));
        assert(views(out@) =~= views(before).push(cs@.subrange(from as int, at as int)));
        if at == cs.len() {
            assert(rest =~= cs@.subrange(from as int, at as int));
            assert(views(out@) =~= views(before) + seq![rest]);
            return out;
        }
        proof {
            lemma_first_pos(rest, c);
            assert(rest.subrange(0, at - from) =~= cs@.subrange(from as int, at as int));
            assert(rest.subrange(at - from + 1, rest.len() as int) =~= cs@.subrange(
                at + 1,
                cs@.len() as int,
            ));
            assert(views(out@) + parts_of(cs@.subrange(at + 1, cs@.len() as int), c) =~= views(
                before,
            ) + (seq![rest.subrange(0, at - from)] + parts_of(
                rest.subrange(at - from + 1, rest.len() as int),
                c,
            )));
        }
        from = at + 1;
    }
}

/// The parts with `sep` between each two of them.
pub open spec fn joined(parts: Seq<Seq<char>>, sep: Seq<char>) -> Seq<char>
    decreases parts.len(),
{
    if parts.len() == 0 {
        Seq::empty()
    } else if parts.len() == 1 {
        parts[0]
    } else {
        joined(parts.drop_last(), sep) + sep + parts.last()
    }
}

/// The parts with `sep` between each two of them.
pub fn join(parts: &Vec<String>, sep: &str) -> (r: String)
    ensures
        r@ == joined(views(parts@), sep@),
{
    let mut out = String::new();
    let mut i: usize = 0;
    while i < parts.len()
        invariant
            i <= parts@.len(),
            out@ == joined(views(parts@).take(i as int), sep@),
        decreases parts@.len() - i,
    {
        if i > 0 {
            out.append(sep);
        }
        out.append(parts[i].as_str());
        i = i + 1;
        assert(views(parts@).take(i as int).drop_last() =~= views(parts@).take(i - 1));
    }
    assert(views(parts@).take(i as int) =~= views(parts@));
    out
}

proof fn lemma_parts_append(a: Seq<char>, b: Seq<char>, c: char)
    requires
        !b.contains(c),
    ensures
        parts_of(a + seq![c] + b, c) == parts_of(a, c).push(b),
    decreases a.len(),
{
    let s = a + seq![c] + b;
    let n = first_pos(a, c);
    lemma_first_pos(a, c);
    if n >= a.len() {
        assert(s[n as int] == c);
        assert forall|i: int| 0 <= i < n implies s[i] != c by {
            assert(s[i] == a[i]);
        }
        lemma_first_pos_unique(s, c, n);
        assert(s.subrange(0, n as int) =~= a);
        assert(s.subrange(n as int + 1, s.len() as int) =~= b);
        assert forall|i: int| 0 <= i < b.len() implies b[i] != c by {
            assert(b.contains(b[i]));
        }
        lemma_first_pos_unique(b, c, b.len());
        assert(parts_of(b, c) =~= seq![b]);
        assert(parts_of(s, c) =~= seq![a] + seq![b]);
        assert(parts_of(a, c) =~= seq![a]);
        assert(parts_of(s, c) =~= parts_of(a, c).push(b));
    } else {
        assert(s[n as int] == c);
        assert forall|i: int| 0 <= i < n implies s[i] != c by {
            assert(s[i] == a[i]);
        }
        lemma_first_pos_unique(s, c, n);
        let rest = a.subrange(n as int + 1, a.len() as int);
        lemma_parts_append(rest, b, c);
        assert(s.subrange(0, n as int) =~= a.subrange(0, n as int));
        assert(s.subrange(n as int + 1, s.len() as int) =~= rest + seq![c] + b);
        assert(parts_of(s, c) =~= parts_of(a, c).push(b));
    }
}

/// No part holds the character that the text was split at.
pub proof fn lemma_parts_hold_no_separator(s: Seq<char>, c: char)
    ensures
        parts_of(s, c).len() > 0,
        forall|i: int| 0 <= i < parts_of(s, c).len() ==> !(#[trigger] parts_of(s, c)[i]).contains(c),
    decreases s.len(),
{
    let n = first_pos(s, c) as int;
    lemma_first_pos(s, c);
    if n >= s.len() {
        assert(parts_of(s, c) =~= seq![s]);
    } else {
        let rest = s.subrange(n + 1, s.len() as int);
        let head = s.subrange(0, n);
        lemma_parts_hold_no_separator(rest, c);
        assert(parts_of(s, c) =~= seq![head] + parts_of(rest, c));
        assert forall|i: int| 0 <= i < parts_of(s, c).len() implies !(#[trigger] parts_of(
            s,
            c,
        )[i]).contains(c) by {
            if i > 0 {
                assert(parts_of(s, c)[i] == parts_of(rest, c)[i - 1]);
            } else {
                assert forall|j: int| 0 <= j < head.len() implies head[j] != c by {
                    assert(head[j] == s[j]);
                }
            }
        }
    }
}

/// Parts that do not hold the separator are read back from their join.
pub proof fn law_joined_parts_split(parts: Seq<Seq<char>>, c: char)
    requires
        parts.len() > 0,
        forall|i: int| 0 <= i < parts.len() ==> !(#[trigger] parts[i]).contains(c),
    ensures
        parts_of(joined(parts, seq![c]), c) == parts,
    decreases parts.len(),
{
    if parts.len() == 1 {
        let s = parts[0];
        assert forall|i: int| 0 <= i < s.len() implies s[i] != c by {
            assert(s.contains(s[i]));
        }
        lemma_first_pos_unique(s, c, s.len());
        assert(parts_of(s, c) =~= seq![s]);
        assert(parts =~= seq![s]);
    } else {
        let init = parts.drop_last();
        assert forall|i: int| 0 <= i < init.len() implies !(#[trigger] init[i]).contains(c) by {
            assert(init[i] == parts[i]);
        }
        law_joined_parts_split(init, c);
        assert(!parts[parts.len() - 1].contains(c));
        lemma_parts_append(joined(init, seq![c]), parts.last(), c);
        assert(parts =~= init.push(parts.last()));
    }
}

/// The decimal digit of a number below ten.
pub open spec fn digit_of(n: nat) -> char {
    if n == 0 { '0' } else if n == 1 { '1' } else if n == 2 { '2' } else if n == 3 { '3' } else if n
        == 4 { '4' } else if n == 5 { '5' } else if n == 6 { '6' } else if n == 7 { '7' } else if n
        == 8 { '8' } else { '9' }
}

/// The decimal notation of a number.
pub open spec fn decimal_of(n: nat) -> Seq<char>
    decreases n,
{
    if n < 10 {
        seq![digit_of(n)]
    } else {
        decimal_of(n / 10).push(digit_of(n % 10))
    }
}

/// The decimal notation of a number.
pub fn decimal(n: u64) -> (r: String)
    ensures
        r@ == decimal_of(n as nat),
    decreases n,
{
    let d: u64 = n % 10;
    let c: char = if d == 0 { '0' } else if d == 1 { '1' } else if d == 2 { '2' } else if d == 3 {
        '3' } else if d == 4 { '4' } else if d == 5 { '5' } else if d == 6 { '6' } else if d == 7 {
        '7' } else if d == 8 { '8' } else { '9' };
    let mut out = if n < 10 { String::new() } else { decimal(n / 10) };
    out.push(c);
    out
}

/// The first `n` characters, or all of them if there are fewer.
pub open spec fn first_chars(s: Seq<char>, n: nat) -> Seq<char> {
    if s.len() <= n {
        s
    } else {
        s.take(n as int)
    }
}

/// The first `n` characters, or all of them if there are fewer.
pub fn take_chars(s: &str, n: usize) -> (r: String)
    ensures
        r@ == first_chars(s@, n as nat),
{
    let cs = to_chars(s);
    let hi: usize = if cs.len() <= n {
        cs.len()
    } else {
        n
    };
    let r = from_chars(&cs, 0, hi);
    assert(r@ =~= first_chars(s@, n as nat));
    r
}

/// The text up to the first occurrence of `c`, or all of it.
pub open spec fn before_char(s: Seq<char>, c: char) -> Seq<char> {
    s.take(first_pos(s, c) as int)
}

/// The text up to the first occurrence of `c`, or all of it.
pub fn until_char(s: &str, c: char) -> (r: String)
    ensures
        r@ == before_char(s@, c),
{
    let cs = to_chars(s);
    assert(cs@.subrange(0, cs@.len() as int) =~= cs@);
    let at = find_from(&cs, c, 0);
    let r = from_chars(&cs, 0, at);
    assert(r@ =~= before_char(s@, c));
    r
}

/// Appends every element of one sequence of views.
pub proof fn lemma_views_push<T: View>(s: Seq<T>, x: T)
    ensures
        views(s.push(x)) == views(s).push(x@),
{
    assert(views(s.push(x)) =~= views(s).push(x@));
}

/// A decimal digit.
pub open spec fn is_digit(c: char) -> bool {
    '0' <= c <= '9'
}

/// Every character is a decimal digit.
pub open spec fn all_digits(s: Seq<char>) -> bool {
    forall|i: int| 0 <= i < s.len() ==> is_digit(#[trigger] s[i])
}

/// The number that decimal digits stand for.
pub open spec fn digits_value(s: Seq<char>) -> nat
    decreases s.len(),
{
    if s.len() == 0 {
        0
    } else {
        digits_value(s.drop_last()) * 10 + (s.last() as nat - '0' as nat) as nat
    }
}

/// The digits of a number, after a plus sign if there is one.
pub open spec fn digits_part(s: Seq<char>) -> Seq<char> {
    if s.len() > 0 && s[0] == '+' {
        s.drop_first()
    } else {
        s
    }
}

/// The number that the text stands for: decimal digits, with a plus sign
/// before them or not, of a number that fits 64 bits.
pub open spec fn number_of(s: Seq<char>) -> Option<u64> {
    let d = digits_part(s);
    if d.len() > 0 && all_digits(d) && digits_value(d) <= u64::MAX {
        Some(digits_value(d) as u64)
    } else {
        None
    }
}

proof fn lemma_digits_grow(s: Seq<char>, i: int)
    requires
        all_digits(s),
        0 <= i <= s.len(),
    ensures
        digits_value(s.take(i)) <= digits_value(s),
    decreases s.len() - i,
{
    if i < s.len() {
        lemma_digits_grow(s, i + 1);
        assert(s.take(i + 1).drop_last() =~= s.take(i));
        assert(s.take(i + 1).last() == s[i]);
        assert(is_digit(s[i]));
        let v = digits_value(s.take(i));
        assert(v * 10 >= v) by (nonlinear_arith)
            requires
                v >= 0,
        ;
    } else {
        assert(s.take(i) =~= s);
    }
}

fn digit_value(c: char) -> (r: Option<u64>)
    ensures
        match r {
            Some(d) => is_digit(c) && d == c as int - '0' as int && d <= 9,
            None => !is_digit(c),
        },
{
    let n: u32 = c as u32;
    if n >= 48 && n <= 57 {
        Some((n - 48) as u64)
    } else {
        None
    }
}

/// The number that the text stands for.
pub fn parse_number(s: &str) -> (r: Option<u64>)
    ensures
        r == number_of(s@),
{
    let cs = to_chars(s);
    let from: usize = if cs.len() > 0 && cs[0] == '+' {
        1
    } else {
        0
    };
    let ghost d = digits_part(s@);
    assert(cs@.subrange(from as int, cs@.len() as int) =~= d);
    if from == cs.len() {
        return None;
    }
    let mut value: u64 = 0;
    let mut i: usize = from;
    assert(d.take(0) =~= Seq::<char>::empty());
    while i < cs.len()
        invariant
            from <= i <= cs@.len(),
            d == cs@.subrange(from as int, cs@.len() as int),
            d == digits_part(s@),
            d.len() > 0,
            forall|k: int| 0 <= k < i - from ==> is_digit(#[trigger] d[k]),
            value == digits_value(d.take(i - from)),
        decreases cs@.len() - i,
    {
        let ghost k = i - from;
        assert(d[k] == cs@[i as int]);
        match digit_value(cs[i]) {
            None => {
                assert(!is_digit(d[k]));
                return None;
            },
            Some(digit) => {
                proof {
                    assert(d.take(k + 1).drop_last() =~= d.take(k));
                    assert(d.take(k + 1).last() == d[k]);
                    if all_digits(d) {
                        lemma_digits_grow(d, k + 1);
                    }
                }
                if value > (u64::MAX - digit) / 10 {
                    assert(digits_value(d.take(k + 1)) > u64::MAX);
                    return None;
                }
                value = value * 10 + digit;
            },
        }
        i = i + 1;
    }
    assert(d.take(i - from) =~= d);
    Some(value)
}

/// The decimal notation of a number is digits that stand for it.
pub proof fn lemma_decimal_digits(n: nat)
    ensures
        decimal_of(n).len() > 0,
        all_digits(decimal_of(n)),
        digits_value(decimal_of(n)) == n,
    decreases n,
{
    let d = digit_of(n % 10);
    assert(is_digit(d) && d as nat - '0' as nat == n % 10);
    if n < 10 {
        assert(decimal_of(n).drop_last() =~= Seq::<char>::empty());
        assert(digits_value(decimal_of(n).drop_last()) == 0);
    } else {
        lemma_decimal_digits(n / 10);
        assert(decimal_of(n).drop_last() =~= decimal_of(n / 10));
        assert forall|i: int| 0 <= i < decimal_of(n).len() implies is_digit(
            #[trigger] decimal_of(n)[i],
        ) by {
            if i < decimal_of(n / 10).len() {
                assert(decimal_of(n)[i] == decimal_of(n / 10)[i]);
            }
        }
    }
}

/// The decimal notation of a number stands for that number.
pub proof fn law_decimal_reads_back(n: u64)
    ensures
        number_of(decimal_of(n as nat)) == Some(n),
{
    lemma_decimal_digits(n as nat);
    assert(is_digit(decimal_of(n as nat)[0]));
}

/// `a` comes before `b` or equals it, compared character by character.
pub open spec fn text_le(a: Seq<char>, b: Seq<char>) -> bool
    decreases a.len(),
{
    if a.len() == 0 {
        true
    } else if b.len() == 0 {
        false
    } else if a[0] == b[0] {
        text_le(a.drop_first(), b.drop_first())
    } else {
        (a[0] as int) < (b[0] as int)
    }
}

/// The order of texts is total, transitive and antisymmetric.
pub proof fn law_text_order(a: Seq<char>, b: Seq<char>, c: Seq<char>)
    ensures
        text_le(a, b) || text_le(b, a),
        text_le(a, b) && text_le(b, c) ==> text_le(a, c),
        text_le(a, b) && text_le(b, a) ==> a == b,
    decreases a.len(),
{
    if a.len() > 0 && b.len() > 0 {
        let ct = if c.len() > 0 {
            c.drop_first()
        } else {
            c
        };
        law_text_order(a.drop_first(), b.drop_first(), ct);
        if text_le(a, b) && text_le(b, a) {
            assert(a =~= seq![a[0]] + a.drop_first());
            assert(b =~= seq![b[0]] + b.drop_first());
        }
    } else if text_le(a, b) && text_le(b, a) {
        assert(a =~= b);
    }
}

fn char_less(a: char, b: char) -> (r: bool)
    ensures
        r == ((a as int) < (b as int)),
{
    (a as u32) < (b as u32)
}

/// True when `a` comes before `b` or equals it.
pub fn text_not_after(a: &str, b: &str) -> (r: bool)
    ensures
        r == text_le(a@, b@),
{
    let x = to_chars(a);
    let y = to_chars(b);
    let mut i: usize = 0;
    assert(a@.skip(0) =~= a@);
    assert(b@.skip(0) =~= b@);
    loop
        invariant
            x@ == a@,
            y@ == b@,
            i <= x@.len(),
            i <= y@.len(),
            text_le(a@, b@) == text_le(a@.skip(i as int), b@.skip(i as int)),
        decreases x@.len() - i,
    {
        if i == x.len() {
            return true;
        }
        if i == y.len() {
            return false;
        }
        proof {
            assert(a@.skip(i as int).drop_first() =~= a@.skip(i + 1));
            assert(b@.skip(i as int).drop_first() =~= b@.skip(i + 1));
            assert(a@.skip(i as int)[0] == x@[i as int]);
            assert(b@.skip(i as int)[0] == y@[i as int]);
        }
        if x[i] != y[i] {
            return char_less(x[i], y[i]);
        }
        i = i + 1;
    }
}

/// The texts without repeats, each where it was first seen.
pub open spec fn first_seen(s: Seq<Seq<char>>) -> Seq<Seq<char>>
    decreases s.len(),
{
    if s.len() == 0 {
        Seq::empty()
    } else if s.drop_last().contains(s.last()) {
        first_seen(s.drop_last())
    } else {
        first_seen(s.drop_last()).push(s.last())
    }
}

/// What was first seen is what there is, each text once.
pub proof fn law_first_seen(s: Seq<Seq<char>>)
    ensures
        first_seen(s).no_duplicates(),
        forall|x: Seq<char>| #[trigger] first_seen(s).contains(x) <==> s.contains(x),
    decreases s.len(),
{
    if s.len() > 0 {
        let init = s.drop_last();
        law_first_seen(init);
        assert forall|x: Seq<char>| #[trigger] first_seen(s).contains(x) <==> s.contains(x) by {
            if s.contains(x) {
                let i = choose|i: int| 0 <= i < s.len() && s[i] == x;
                if i < init.len() {
                    assert(init[i] == x);
                }
                if init.contains(x) {
                    assert(first_seen(init).contains(x));
                    let k = choose|k: int|
                        0 <= k < first_seen(init).len() && first_seen(init)[k] == x;
                    assert(first_seen(s)[k] == x);
                } else {
                    assert(first_seen(s)[first_seen(init).len() as int] == x);
                }
            }
            if first_seen(s).contains(x) {
                let k = choose|k: int| 0 <= k < first_seen(s).len() && first_seen(s)[k] == x;
                if k < first_seen(init).len() {
                    assert(first_seen(init)[k] == x);
                    assert(first_seen(init).contains(x));
                    let i = choose|i: int| 0 <= i < init.len() && init[i] == x;
                    assert(s[i] == x);
                } else {
                    assert(s[s.len() - 1] == x);
                }
            }
        }
        if !init.contains(s.last()) {
            assert(!first_seen(init).contains(s.last()));
        }
    }
}

} // verus!
