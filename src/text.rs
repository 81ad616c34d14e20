//! Character-sequence models shared by the path modules, and the few std
//! string conversions they rely on.
use vstd::prelude::*;

verus! {

/// The pieces of `s` between occurrences of `sep`, as `str::split` yields
/// them: always at least one piece, empty pieces included.
pub open spec fn split_on(s: Seq<char>, sep: char) -> Seq<Seq<char>>
    decreases s.len(),
{
    if s.len() == 0 {
        seq![Seq::<char>::empty()]
    } else {
        let pre = split_on(s.drop_last(), sep);
        if s.last() == sep {
            pre.push(Seq::<char>::empty())
        } else {
            pre.update(pre.len() - 1, pre.last().push(s.last()))
        }
    }
}

/// The pieces joined back together with `sep` between each two of them.
pub open spec fn join_with(parts: Seq<Seq<char>>, sep: char) -> Seq<char>
    decreases parts.len(),
{
    if parts.len() == 0 {
        Seq::empty()
    } else if parts.len() == 1 {
        parts[0]
    } else {
        join_with(parts.drop_last(), sep).push(sep) + parts.last()
    }
}

/// Whether `c` occurs in `s`.
pub open spec fn has_char(s: Seq<char>, c: char) -> bool {
    exists|i: int| 0 <= i < s.len() && s[i] == c
}

/// `s` with every `from` replaced by `to`.
pub open spec fn replace_char(s: Seq<char>, from: char, to: char) -> Seq<char> {
    s.map_values(|c: char| if c == from { to } else { c })
}

/// Whether `s` begins with `p`.
pub open spec fn has_prefix(s: Seq<char>, p: Seq<char>) -> bool {
    p.len() <= s.len() && s.subrange(0, p.len() as int) == p
}

/// Whether `s` ends with `p`.
pub open spec fn has_suffix(s: Seq<char>, p: Seq<char>) -> bool {
    p.len() <= s.len() && s.subrange(s.len() - p.len(), s.len() as int) == p
}

/// The position of the last `c` in `s`, if any.
pub open spec fn last_index_of(s: Seq<char>, c: char) -> Option<int>
    decreases s.len(),
{
    if s.len() == 0 {
        None
    } else if s.last() == c {
        Some(s.len() - 1)
    } else {
        last_index_of(s.drop_last(), c)
    }
}

pub proof fn lemma_split_nonempty(s: Seq<char>, sep: char)
    ensures
        split_on(s, sep).len() >= 1,
    decreases s.len(),
{
    if s.len() > 0 {
        lemma_split_nonempty(s.drop_last(), sep);
    }
}

/// Splitting and joining with the same separator gives the text back.
pub proof fn lemma_join_split(s: Seq<char>, sep: char)
    ensures
        join_with(split_on(s, sep), sep) == s,
    decreases s.len(),
{
    if s.len() > 0 {
        let t = s.drop_last();
        let p = split_on(t, sep);
        lemma_join_split(t, sep);
        lemma_split_nonempty(t, sep);
        if s.last() == sep {
            let q = p.push(Seq::<char>::empty());
            assert(q.drop_last() =~= p);
            assert(s =~= t.push(sep) + Seq::<char>::empty());
        } else {
            let q = p.update(p.len() - 1, p.last().push(s.last()));
            if p.len() == 1 {
                assert(s =~= t.push(s.last()));
            } else {
                assert(q.drop_last() =~= p.drop_last());
                let a = join_with(p.drop_last(), sep).push(sep);
                assert(t == a + p.last());
                assert(s =~= t.push(s.last()));
                assert(t.push(s.last()) =~= a + p.last().push(s.last()));
                assert(join_with(q, sep) == a + q.last());
            }
        }
    }
}

/// No piece of a split holds the separator.
pub proof fn lemma_split_pieces(s: Seq<char>, sep: char)
    ensures
        forall|i: int| 0 <= i < split_on(s, sep).len() ==> !has_char(#[trigger] split_on(s, sep)[i], sep),
    decreases s.len(),
{
    lemma_split_nonempty(s, sep);
    if s.len() > 0 {
        lemma_split_pieces(s.drop_last(), sep);
        lemma_split_nonempty(s.drop_last(), sep);
        let p = split_on(s.drop_last(), sep);
        if s.last() != sep {
            let q = p.update(p.len() - 1, p.last().push(s.last()));
            assert forall|i: int| 0 <= i < q.len() implies !has_char(#[trigger] q[i], sep) by {
                if i == q.len() - 1 {
                    assert(!has_char(p[i], sep));
                    if has_char(q[i], sep) {
                        let j = choose|j: int| 0 <= j < q[i].len() && q[i][j] == sep;
                        if j < p[i].len() {
                            assert(p[i][j] == sep);
                        }
                    }
                }
            }
        } else {
            let q = p.push(Seq::<char>::empty());
            assert forall|i: int| 0 <= i < q.len() implies !has_char(#[trigger] q[i], sep) by {
                if i < p.len() {
                    assert(q[i] == p[i]);
                }
            }
        }
    }
}


/// A text without the separator is a single piece.
pub proof fn lemma_split_single(l: Seq<char>, sep: char)
    requires
        !has_char(l, sep),
    ensures
        split_on(l, sep) == seq![l],
    decreases l.len(),
{
    if l.len() > 0 {
        let t = l.drop_last();
        assert(!has_char(t, sep)) by {
            if has_char(t, sep) {
                let j = choose|j: int| 0 <= j < t.len() && t[j] == sep;
                assert(l[j] == sep);
            }
        }
        lemma_split_single(t, sep);
        assert(l[l.len() - 1] != sep);
        assert(t.push(l.last()) =~= l);
        assert(split_on(l, sep) =~= seq![l]);
    } else {
        assert(l =~= Seq::<char>::empty());
    }
}

/// Appending a separator and a piece without it adds that piece.
pub proof fn lemma_split_append(x: Seq<char>, l: Seq<char>, sep: char)
    requires
        !has_char(l, sep),
    ensures
        split_on(x.push(sep) + l, sep) == split_on(x, sep).push(l),
    decreases l.len(),
{
    lemma_split_nonempty(x, sep);
    if l.len() == 0 {
        assert(x.push(sep) + l =~= x.push(sep));
        assert(x.push(sep).drop_last() =~= x);
        assert(l =~= Seq::<char>::empty());
    } else {
        let t = l.drop_last();
        assert(!has_char(t, sep)) by {
            if has_char(t, sep) {
                let j = choose|j: int| 0 <= j < t.len() && t[j] == sep;
                assert(l[j] == sep);
            }
        }
        lemma_split_append(x, t, sep);
        assert(l[l.len() - 1] != sep);
        assert((x.push(sep) + l).drop_last() =~= x.push(sep) + t);
        assert((x.push(sep) + l).last() == l.last());
        assert(t.push(l.last()) =~= l);
        assert(split_on(x.push(sep) + l, sep) =~= split_on(x, sep).push(l));
    }
}

/// Joining pieces without the separator and splitting again gives the pieces.
pub proof fn lemma_split_join(parts: Seq<Seq<char>>, sep: char)
    requires
        parts.len() >= 1,
        forall|i: int| 0 <= i < parts.len() ==> !has_char(#[trigger] parts[i], sep),
    ensures
        split_on(join_with(parts, sep), sep) == parts,
    decreases parts.len(),
{
    if parts.len() == 1 {
        lemma_split_single(parts[0], sep);
        assert(parts =~= seq![parts[0]]);
    } else {
        let d = parts.drop_last();
        assert forall|i: int| 0 <= i < d.len() implies !has_char(#[trigger] d[i], sep) by {
            assert(d[i] == parts[i]);
        }
        lemma_split_join(d, sep);
        lemma_split_append(join_with(d, sep), parts.last(), sep);
        assert(d.push(parts.last()) =~= parts);
    }
}

/// The pieces before the last one of a prefix stay as they are in the
/// whole text.
pub proof fn lemma_split_prefix_stable(s: Seq<char>, i: int, j: int, m: int, sep: char)
    requires
        0 <= i <= j <= s.len(),
        0 <= m < split_on(s.take(i), sep).len() - 1,
    ensures
        m < split_on(s.take(j), sep).len() - 1,
        split_on(s.take(j), sep)[m] == split_on(s.take(i), sep)[m],
    decreases j - i,
{
    if j > i {
        lemma_split_prefix_stable(s, i, j - 1, m, sep);
        lemma_split_nonempty(s.take(j - 1), sep);
        assert(s.take(j).drop_last() =~= s.take(j - 1));
    }
}

/// The first piece of a text whose second character is the separator.
pub proof fn lemma_split_first_piece(s: Seq<char>, sep: char)
    requires
        s.len() >= 1,
    ensures
        s[0] == sep ==> split_on(s, sep)[0] == Seq::<char>::empty(),
        s.len() >= 2 && s[0] != sep && s[1] == sep ==> split_on(s, sep)[0] == seq![s[0]],
{
    lemma_split_nonempty(s, sep);
    assert(s.take(0) =~= Seq::<char>::empty());
    assert(s.take(1).drop_last() =~= s.take(0));
    assert(s.take(1).last() == s[0]);
    assert(split_on(s.take(0), sep) =~= seq![Seq::<char>::empty()]);
    if s[0] == sep {
        assert(split_on(s.take(1), sep) =~= seq![Seq::<char>::empty(), Seq::<char>::empty()]);
        lemma_split_prefix_stable(s, 1, s.len() as int, 0, sep);
        assert(s.take(s.len() as int) =~= s);
    }
    if s.len() >= 2 && s[0] != sep && s[1] == sep {
        assert(split_on(s.take(1), sep) =~= seq![seq![s[0]]]);
        assert(s.take(2).drop_last() =~= s.take(1));
        assert(s.take(2).last() == s[1]);
        assert(seq![s[0]] =~= Seq::<char>::empty().push(s[0]));
        assert(split_on(s.take(2), sep) =~= seq![seq![s[0]], Seq::<char>::empty()]);
        lemma_split_prefix_stable(s, 2, s.len() as int, 0, sep);
        assert(s.take(s.len() as int) =~= s);
    }
}

/// Splitting a text made of two parts around a separator.
pub proof fn lemma_split_concat(x: Seq<char>, y: Seq<char>, sep: char)
    ensures
        split_on(x.push(sep) + y, sep) == split_on(x, sep) + split_on(y, sep),
    decreases y.len(),
{
    lemma_split_nonempty(x, sep);
    if y.len() == 0 {
        assert(x.push(sep) + y =~= x.push(sep));
        assert(x.push(sep).drop_last() =~= x);
        assert(split_on(x, sep) + split_on(y, sep) =~= split_on(x, sep).push(Seq::<char>::empty()));
    } else {
        let t = y.drop_last();
        lemma_split_concat(x, t, sep);
        lemma_split_nonempty(t, sep);
        assert((x.push(sep) + y).drop_last() =~= x.push(sep) + t);
        assert((x.push(sep) + y).last() == y.last());
        let a = split_on(x, sep);
        let b = split_on(t, sep);
        if y.last() == sep {
            assert((a + b).push(Seq::<char>::empty()) =~= a + b.push(Seq::<char>::empty()));
        } else {
            assert((a + b).update((a + b).len() - 1, (a + b).last().push(y.last())) =~= a + b.update(
                b.len() - 1,
                b.last().push(y.last()),
            ));
        }
    }
}

/// Whether two character vectors hold the same text.
pub fn same_chars(a: &Vec<char>, b: &Vec<char>) -> (r: bool)
    ensures
        r == (a@ == b@),
{
    if a.len() != b.len() {
        return false;
    }
    let mut i: usize = 0;
    while i < a.len()
        invariant
            i <= a.len() == b.len(),
            a@.take(i as int) == b@.take(i as int),
        decreases a.len() - i,
    {
        if a[i] != b[i] {
            return false;
        }
        i += 1;
        assert(a@.take(i as int) =~= b@.take(i as int)) by {
            assert(a@.take(i as int) =~= a@.take(i - 1).push(a@[i - 1]));
            assert(b@.take(i as int) =~= b@.take(i - 1).push(b@[i - 1]));
        }
    }
    assert(a@ =~= a@.take(a.len() as int));
    assert(b@ =~= b@.take(b.len() as int));
    true
}

/// `a` followed by `b`.
pub fn concat(a: &str, b: &str) -> (r: String)
    ensures
        r@ == a@ + b@,
{
    let mut x = chars_of(a);
    let y = chars_of(b);
    let ghost start = x@;
    let mut i: usize = 0;
    while i < y.len()
        invariant
            i <= y.len(),
            x@ == start + y@.take(i as int),
        decreases y.len() - i,
    {
        x.push(y[i]);
        i += 1;
        assert(x@ =~= start + y@.take(i as int));
    }
    assert(y@.take(y.len() as int) =~= y@);
    string_from_chars(x.as_slice())
}

/// Whether `s` ends with `suffix`.
pub fn ends_with_str(s: &str, suffix: &str) -> (r: bool)
    ensures
        r == has_suffix(s@, suffix@),
{
    let a = chars_of(s);
    let b = chars_of(suffix);
    if b.len() > a.len() {
        return false;
    }
    let off = a.len() - b.len();
    let mut i: usize = 0;
    while i < b.len()
        invariant
            i <= b.len(),
            off + b.len() == a.len(),
            a@ == s@,
            b@ == suffix@,
            a@.subrange(off as int, off + i) == b@.take(i as int),
        decreases b.len() - i,
    {
        if a[off + i] != b[i] {
            assert(a@.subrange(off as int, a.len() as int)[i as int] != b@[i as int]);
            return false;
        }
        i += 1;
        assert(a@.subrange(off as int, off + i) =~= b@.take(i as int)) by {
            assert(a@.subrange(off as int, off + i) =~= a@.subrange(off as int, off + i - 1).push(a@[off + i - 1]));
            assert(b@.take(i as int) =~= b@.take(i - 1).push(b@[i - 1]));
        }
    }
    assert(b@.take(b.len() as int) =~= b@);
    true
}

/// Whether two texts are equal.
pub fn str_eq(a: &str, b: &str) -> (r: bool)
    ensures
        r == (a@ == b@),
{
    let x = chars_of(a);
    let y = chars_of(b);
    same_chars(&x, &y)
}

/// The pieces of a text without `c` hold no `c`.
pub proof fn lemma_split_avoids(s: Seq<char>, sep: char, c: char)
    requires
        !has_char(s, c),
    ensures
        forall|i: int| 0 <= i < split_on(s, sep).len() ==> !has_char(#[trigger] split_on(s, sep)[i], c),
    decreases s.len(),
{
    lemma_split_nonempty(s, sep);
    if s.len() > 0 {
        let t = s.drop_last();
        assert(!has_char(t, c)) by {
            if has_char(t, c) {
                let j = choose|j: int| 0 <= j < t.len() && t[j] == c;
                assert(s[j] == c);
            }
        }
        lemma_split_avoids(t, sep, c);
        lemma_split_nonempty(t, sep);
        let p = split_on(t, sep);
        assert(s.last() != c) by {
            assert(s[s.len() - 1] == s.last());
        }
        if s.last() != sep {
            let q = p.update(p.len() - 1, p.last().push(s.last()));
            assert forall|i: int| 0 <= i < q.len() implies !has_char(#[trigger] q[i], c) by {
                if i == q.len() - 1 {
                    assert(!has_char(p[i], c));
                    if has_char(q[i], c) {
                        let j = choose|j: int| 0 <= j < q[i].len() && q[i][j] == c;
                        if j < p[i].len() {
                            assert(p[i][j] == c);
                        }
                    }
                }
            }
        } else {
            let q = p.push(Seq::<char>::empty());
            assert forall|i: int| 0 <= i < q.len() implies !has_char(#[trigger] q[i], c) by {
                if i < p.len() {
                    assert(q[i] == p[i]);
                }
            }
        }
    }
}

/// Pieces without `c`, joined by a separator other than `c`, hold no `c`.
pub proof fn lemma_join_avoids(parts: Seq<Seq<char>>, sep: char, c: char)
    requires
        c != sep,
        forall|i: int| 0 <= i < parts.len() ==> !has_char(#[trigger] parts[i], c),
    ensures
        !has_char(join_with(parts, sep), c),
    decreases parts.len(),
{
    if parts.len() == 1 {
        assert(!has_char(parts[0], c));
    } else if parts.len() > 1 {
        let d = parts.drop_last();
        assert forall|i: int| 0 <= i < d.len() implies !has_char(#[trigger] d[i], c) by {
            assert(d[i] == parts[i]);
        }
        lemma_join_avoids(d, sep, c);
        let a = join_with(d, sep);
        let l = parts.last();
        assert(!has_char(parts[parts.len() - 1], c));
        let j = a.push(sep) + l;
        if has_char(j, c) {
            let k = choose|k: int| 0 <= k < j.len() && j[k] == c;
            if k < a.len() {
                assert(a[k] == c);
            } else if k > a.len() {
                assert(l[k - a.len() - 1] == c);
            }
        }
    }
}

/// Relies on `String::push`: the character is appended.
#[verifier::external_body]
fn push_char(s: &mut String, c: char)
    ensures
        final(s)@ == old(s)@.push(c),
{
    s.push(c)
}

/// A string holding the characters in order.
pub fn string_from_chars(cs: &[char]) -> (r: String)
    ensures
        r@ == cs@,
{
    let mut r = String::new();
    let mut i: usize = 0;
    while i < cs.len()
        invariant
            i <= cs.len(),
            r@ == cs@.take(i as int),
        decreases cs.len() - i,
    {
        push_char(&mut r, cs[i]);
        i += 1;
        assert(r@ =~= cs@.take(i as int));
    }
    assert(cs@.take(cs.len() as int) =~= cs@);
    r
}

/// The characters of the text in order.
pub fn chars_of(s: &str) -> (r: Vec<char>)
    ensures
        r@ == s@,
{
    let n = s.unicode_len();
    let mut r: Vec<char> = Vec::new();
    let mut i: usize = 0;
    while i < n
        invariant
            i <= n == s@.len(),
            r@ == s@.take(i as int),
        decreases n - i,
    {
        r.push(s.get_char(i));
        i += 1;
        assert(r@ =~= s@.take(i as int));
    }
    assert(s@.take(n as int) =~= s@);
    r
}

} // verus!
