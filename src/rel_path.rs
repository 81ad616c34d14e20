//! Relative, normalized paths with `/` separators, whatever the host.
use vstd::prelude::*;
use crate::paths::{PathStyle, is_absolute_path, is_absolute_chars};
use crate::text::{has_prefix, has_suffix, last_index_of, 
    split_on, join_with, has_char, replace_char, lemma_split_nonempty, lemma_join_split,
    lemma_split_pieces, lemma_split_join, lemma_split_first_piece, lemma_split_concat, same_chars, lemma_split_avoids, lemma_join_avoids, string_from_chars, chars_of,
};

verus! {

/// A component that a normalized path may hold.
pub open spec fn is_normal_component(c: Seq<char>) -> bool {
    c.len() > 0 && c != seq!['.'] && c != seq!['.', '.']
}

/// Whether `s` is a relative path in normal form: empty, or made of normal
/// components joined by `/`.
pub open spec fn is_rel_path(s: Seq<char>) -> bool {
    s.len() == 0 || forall|i: int|
        0 <= i < split_on(s, '/').len() ==> is_normal_component(#[trigger] split_on(s, '/')[i])
}

/// The components of `s` in order, as the component iterator yields them: a
/// final `/` adds no empty component.
pub open spec fn components_of(s: Seq<char>) -> Seq<Seq<char>> {
    if s.len() == 0 {
        Seq::empty()
    } else if s.last() == '/' {
        split_on(s.drop_last(), '/')
    } else {
        split_on(s, '/')
    }
}

/// One component applied to the components gathered so far: empty and `.`
/// are skipped, `..` removes the last one and fails where there is none.
pub open spec fn normalize_step(acc: Option<Seq<Seq<char>>>, c: Seq<char>) -> Option<
    Seq<Seq<char>>,
> {
    match acc {
        None => None,
        Some(a) => if c.len() == 0 || c == seq!['.'] {
            Some(a)
        } else if c == seq!['.', '.'] {
            if a.len() == 0 {
                None
            } else {
                Some(a.drop_last())
            }
        } else {
            Some(a.push(c))
        },
    }
}

pub open spec fn normalize_components(cs: Seq<Seq<char>>) -> Option<Seq<Seq<char>>>
    decreases cs.len(),
{
    if cs.len() == 0 {
        Some(Seq::empty())
    } else {
        normalize_step(normalize_components(cs.drop_last()), cs.last())
    }
}

pub open spec fn is_separator(c: char, style: PathStyle) -> bool {
    c == '/' || (style == PathStyle::Windows && c == '\\')
}

/// `s` without its leading `./` prefixes (also `.\` under Windows).
pub open spec fn strip_dot_prefixes(s: Seq<char>, style: PathStyle) -> Seq<char>
    decreases s.len(),
{
    if s.len() >= 2 && s[0] == '.' && is_separator(s[1], style) {
        strip_dot_prefixes(s.subrange(2, s.len() as int), style)
    } else {
        s
    }
}

/// `s` without trailing separators, keeping at least one character.
pub open spec fn strip_trailing_separators(s: Seq<char>, style: PathStyle) -> Seq<char>
    decreases s.len(),
{
    if s.len() >= 2 && is_separator(s.last(), style) {
        strip_trailing_separators(s.drop_last(), style)
    } else {
        s
    }
}

pub open spec fn trimmed(s: Seq<char>, style: PathStyle) -> Seq<char> {
    strip_trailing_separators(strip_dot_prefixes(s, style), style)
}

/// `s` with the separators of `style` written as `/`.
pub open spec fn posix_separators(s: Seq<char>, style: PathStyle) -> Seq<char> {
    if style == PathStyle::Windows {
        replace_char(s, '\\', '/')
    } else {
        s
    }
}

/// Why a text is not a relative path.
#[derive(Debug, Clone, Copy, PartialEq, Eq, Structural)]
pub enum RelPathError {
    /// The path is absolute.
    Absolute,
    /// A `..` component leaves the root.
    EscapesRoot,
    /// The path is relative but not already in normal form.
    NotNormalized,
}

/// What parsing `s` in `style` gives: the normalized text or the reason it
/// is refused. A text that reads as absolute is refused before and after
/// its components are resolved (`x/../c:/y` under Windows).
pub open spec fn parse_rel_path(s: Seq<char>, style: PathStyle) -> Result<Seq<char>, RelPathError> {
    let t = trimmed(s, style);
    if is_absolute_path(t, style) {
        Err(RelPathError::Absolute)
    } else {
        match normalize_components(components_of(posix_separators(t, style))) {
            Some(cs) => if is_absolute_path(join_with(cs, '/'), style) {
                Err(RelPathError::Absolute)
            } else {
                Ok(join_with(cs, '/'))
            },
            None => Err(RelPathError::EscapesRoot),
        }
    }
}

pub open spec fn views(v: Seq<Vec<char>>) -> Seq<Seq<char>> {
    v.map_values(|x: Vec<char>| x@)
}

pub(crate) fn copy_range(cs: &Vec<char>, from: usize, to: usize) -> (r: Vec<char>)
    requires
        from <= to <= cs.len(),
    ensures
        r@ == cs@.subrange(from as int, to as int),
{
    let mut r: Vec<char> = Vec::new();
    let mut i: usize = from;
    while i < to
        invariant
            from <= i <= to <= cs.len(),
            r@ == cs@.subrange(from as int, i as int),
        decreases to - i,
    {
        r.push(cs[i]);
        i += 1;
        assert(r@ =~= cs@.subrange(from as int, i as int));
    }
    r
}

pub(crate) fn append_chars(out: &mut Vec<char>, src: &Vec<char>)
    ensures
        final(out)@ == old(out)@ + src@,
{
    let ghost start = out@;
    let mut i: usize = 0;
    while i < src.len()
        invariant
            i <= src.len(),
            out@ == start + src@.take(i as int),
        decreases src.len() - i,
    {
        out.push(src[i]);
        i += 1;
        assert(out@ =~= start + src@.take(i as int));
    }
    assert(src@.take(src.len() as int) =~= src@);
}

fn is_separator_exec(c: char, style: PathStyle) -> (r: bool)
    ensures
        r == is_separator(c, style),
{
    c == '/' || (style == PathStyle::Windows && c == '\\')
}

fn trim_path(cs: &Vec<char>, style: PathStyle) -> (r: Vec<char>)
    ensures
        r@ == trimmed(cs@, style),
{
    let n = cs.len();
    let mut start: usize = 0;
    assert(cs@.subrange(0, n as int) =~= cs@);
    while n - start >= 2 && cs[start] == '.' && is_separator_exec(cs[start + 1], style)
        invariant
            start <= n == cs.len(),
            strip_dot_prefixes(cs@, style) == strip_dot_prefixes(
                cs@.subrange(start as int, n as int),
                style,
            ),
        decreases n - start,
    {
        let ghost sub = cs@.subrange(start as int, n as int);
        assert(sub.subrange(2, sub.len() as int) =~= cs@.subrange(start + 2, n as int));
        start += 2;
    }
    let mut end: usize = n;
    while end - start >= 2 && is_separator_exec(cs[end - 1], style)
        invariant
            start <= end <= n == cs.len(),
            strip_dot_prefixes(cs@, style) == cs@.subrange(start as int, n as int),
            trimmed(cs@, style) == strip_trailing_separators(
                cs@.subrange(start as int, end as int),
                style,
            ),
        decreases end,
    {
        let ghost sub = cs@.subrange(start as int, end as int);
        assert(sub.drop_last() =~= cs@.subrange(start as int, end - 1));
        end -= 1;
    }
    copy_range(cs, start, end)
}

fn posix_separators_exec(t: &Vec<char>, style: PathStyle) -> (r: Vec<char>)
    ensures
        r@ == posix_separators(t@, style),
{
    let mut r: Vec<char> = Vec::new();
    let mut i: usize = 0;
    while i < t.len()
        invariant
            i <= t.len(),
            r@ == posix_separators(t@, style).take(i as int),
        decreases t.len() - i,
    {
        let c = t[i];
        if style == PathStyle::Windows && c == '\\' {
            r.push('/');
        } else {
            r.push(c);
        }
        i += 1;
        assert(r@ =~= posix_separators(t@, style).take(i as int));
    }
    assert(posix_separators(t@, style).take(t.len() as int) =~= posix_separators(t@, style));
    r
}

fn is_single_dot(c: &Vec<char>) -> (r: bool)
    ensures
        r == (c@ == seq!['.']),
{
    if c.len() == 1 && c[0] == '.' {
        assert(c@ =~= seq!['.']);
        true
    } else {
        false
    }
}

pub(crate) fn is_double_dot(c: &Vec<char>) -> (r: bool)
    ensures
        r == (c@ == seq!['.', '.']),
{
    if c.len() == 2 && c[0] == '.' && c[1] == '.' {
        assert(c@ =~= seq!['.', '.']);
        true
    } else {
        false
    }
}

/// Whether `c` is a normal component.
fn is_normal_exec(c: &Vec<char>) -> (r: bool)
    ensures
        r == is_normal_component(c@),
{
    c.len() > 0 && !is_single_dot(c) && !is_double_dot(c)
}

fn apply_component(acc: &mut Vec<Vec<char>>, c: Vec<char>) -> (ok: bool)
    ensures
        ok ==> normalize_step(Some(views(old(acc)@)), c@) == Some(views(final(acc)@)),
        !ok ==> normalize_step(Some(views(old(acc)@)), c@) is None,
{
    if c.len() == 0 || is_single_dot(&c) {
        true
    } else if is_double_dot(&c) {
        if acc.len() == 0 {
            false
        } else {
            acc.pop();
            assert(views(acc@) =~= views(old(acc)@).drop_last());
            true
        }
    } else {
        let ghost cv = c@;
        acc.push(c);
        assert(views(acc@) =~= views(old(acc)@).push(cv));
        true
    }
}

/// The normalized components of `u`, or `None` where a `..` leaves the root.
pub(crate) fn normalized_components(u: &Vec<char>) -> (r: Option<Vec<Vec<char>>>)
    ensures
        match r {
            Some(v) => normalize_components(components_of(u@)) == Some(views(v@)),
            None => normalize_components(components_of(u@)) is None,
        },
{
    let mut acc: Vec<Vec<char>> = Vec::new();
    if u.len() == 0 {
        assert(views(acc@) =~= Seq::<Seq<char>>::empty());
        return Some(acc);
    }
    let n: usize = if u[u.len() - 1] == '/' {
        u.len() - 1
    } else {
        u.len()
    };
    assert(components_of(u@) == split_on(u@.take(n as int), '/')) by {
        if u@.last() == '/' {
            assert(u@.drop_last() =~= u@.take(n as int));
        } else {
            assert(u@ =~= u@.take(n as int));
        }
    }
    let mut cur: Vec<char> = Vec::new();
    let mut ok = true;
    let ghost done: Seq<Seq<char>> = Seq::empty();
    let mut i: usize = 0;
    assert(u@.take(0) =~= Seq::<char>::empty());
    assert(views(acc@) =~= Seq::<Seq<char>>::empty());
    while i < n
        invariant
            n <= u.len(),
            i <= n,
            split_on(u@.take(i as int), '/') == done.push(cur@),
            ok ==> normalize_components(done) == Some(views(acc@)),
            !ok ==> normalize_components(done) is None,
        decreases n - i,
    {
        let c = u[i];
        assert(u@.take(i + 1).drop_last() =~= u@.take(i as int));
        if c == '/' {
            let ghost cv = cur@;
            assert(done.push(cv).drop_last() =~= done);
            if ok {
                let piece = cur;
                ok = apply_component(&mut acc, piece);
            }
            cur = Vec::new();
            proof {
                done = done.push(cv);
            }
            assert(split_on(u@.take(i + 1), '/') =~= done.push(cur@));
        } else {
            cur.push(c);
            assert(split_on(u@.take(i + 1), '/') =~= done.push(cur@));
        }
        i += 1;
    }
    assert(done.push(cur@).drop_last() =~= done);
    if ok {
        ok = apply_component(&mut acc, cur);
    }
    if ok {
        Some(acc)
    } else {
        None
    }
}

fn join_components(parts: &Vec<Vec<char>>) -> (r: Vec<char>)
    ensures
        r@ == join_with(views(parts@), '/'),
{
    let mut out: Vec<char> = Vec::new();
    let mut k: usize = 0;
    assert(views(parts@).take(0) =~= Seq::<Seq<char>>::empty());
    while k < parts.len()
        invariant
            k <= parts.len(),
            out@ == join_with(views(parts@).take(k as int), '/'),
        decreases parts.len() - k,
    {
        let ghost vs = views(parts@);
        assert(vs.take(k + 1).drop_last() =~= vs.take(k as int));
        if k > 0 {
            out.push('/');
        }
        append_chars(&mut out, &parts[k]);
        k += 1;
        assert(vs.take(k as int).last() == parts@[k - 1]@);
        assert(vs.take(k as int).len() == 1 ==> vs.take(k as int)[0] == parts@[0]@);
        assert(out@ =~= join_with(vs.take(k as int), '/'));
    }
    assert(views(parts@).take(parts.len() as int) =~= views(parts@));
    out
}


/// What `RelPath::unix` gives: the parse, where the text is already in that
/// normal form.
pub open spec fn parse_unix_rel_path(s: Seq<char>) -> Result<Seq<char>, RelPathError> {
    match parse_rel_path(s, PathStyle::Posix) {
        Err(e) => Err(e),
        Ok(p) => if p == trimmed(s, PathStyle::Posix) {
            Ok(p)
        } else {
            Err(RelPathError::NotNormalized)
        },
    }
}

/// The text of a path as shown in `style`.
pub open spec fn display_text(s: Seq<char>, style: PathStyle) -> Seq<char> {
    if style == PathStyle::Windows {
        replace_char(s, '/', '\\')
    } else {
        s
    }
}

proof fn lemma_components_pieces(u: Seq<char>)
    ensures
        forall|i: int|
            0 <= i < components_of(u).len() ==> !has_char(#[trigger] components_of(u)[i], '/'),
{
    if u.len() > 0 {
        if u.last() == '/' {
            lemma_split_pieces(u.drop_last(), '/');
        } else {
            lemma_split_pieces(u, '/');
        }
    }
}

proof fn lemma_normalize_normal(cs: Seq<Seq<char>>)
    requires
        forall|i: int| 0 <= i < cs.len() ==> is_normal_component(#[trigger] cs[i]),
    ensures
        normalize_components(cs) == Some(cs),
    decreases cs.len(),
{
    if cs.len() > 0 {
        let d = cs.drop_last();
        assert forall|i: int| 0 <= i < d.len() implies is_normal_component(#[trigger] d[i]) by {
            assert(d[i] == cs[i]);
        }
        lemma_normalize_normal(d);
        assert(is_normal_component(cs[cs.len() - 1]));
        assert(d.push(cs.last()) =~= cs);
    }
}

proof fn lemma_normalize_result(cs: Seq<Seq<char>>)
    requires
        forall|i: int| 0 <= i < cs.len() ==> !has_char(#[trigger] cs[i], '/'),
    ensures
        normalize_components(cs) matches Some(out) ==> forall|i: int|
            0 <= i < out.len() ==> is_normal_component(#[trigger] out[i]) && !has_char(out[i], '/'),
    decreases cs.len(),
{
    if cs.len() > 0 {
        let d = cs.drop_last();
        assert forall|i: int| 0 <= i < d.len() implies !has_char(#[trigger] d[i], '/') by {
            assert(d[i] == cs[i]);
        }
        lemma_normalize_result(d);
        let c = cs.last();
        assert(!has_char(cs[cs.len() - 1], '/'));
        if let Some(a) = normalize_components(d) {
            if c.len() == 0 || c == seq!['.'] {
            } else if c == seq!['.', '.'] {
                if a.len() > 0 {
                    assert forall|i: int| 0 <= i < a.drop_last().len() implies is_normal_component(
                        #[trigger] a.drop_last()[i],
                    ) && !has_char(a.drop_last()[i], '/') by {
                        assert(a.drop_last()[i] == a[i]);
                    }
                }
            } else {
                assert forall|i: int| 0 <= i < a.push(c).len() implies is_normal_component(
                    #[trigger] a.push(c)[i],
                ) && !has_char(a.push(c)[i], '/') by {
                    if i < a.len() {
                        assert(a.push(c)[i] == a[i]);
                    }
                }
            }
        }
    }
}

proof fn lemma_join_is_rel_path(out: Seq<Seq<char>>)
    requires
        forall|i: int| 0 <= i < out.len() ==> is_normal_component(#[trigger] out[i]) && !has_char(
            out[i],
            '/',
        ),
    ensures
        is_rel_path(join_with(out, '/')),
{
    if out.len() > 0 {
        assert forall|i: int| 0 <= i < out.len() implies !has_char(#[trigger] out[i], '/') by {}
        lemma_split_join(out, '/');
    }
}

/// A parse that succeeds gives a path in normal form.
proof fn lemma_parse_is_rel_path(s: Seq<char>, style: PathStyle)
    ensures
        parse_rel_path(s, style) matches Ok(p) ==> is_rel_path(p),
{
    let u = posix_separators(trimmed(s, style), style);
    lemma_components_pieces(u);
    lemma_normalize_result(components_of(u));
    if let Some(out) = normalize_components(components_of(u)) {
        lemma_join_is_rel_path(out);
    }
}

/// Facts about the text of a path in normal form.
proof fn lemma_rel_path_shape(r: Seq<char>)
    requires
        is_rel_path(r),
    ensures
        r.len() > 0 ==> r[0] != '/' && r.last() != '/',
        r.len() >= 2 ==> !(r[0] == '.' && r[1] == '/'),
        components_of(r) == split_on(r, '/') || r.len() == 0,
        r.len() > 0 ==> normalize_components(split_on(r, '/')) == Some(split_on(r, '/')),
{
    if r.len() > 0 {
        lemma_split_nonempty(r, '/');
        lemma_split_first_piece(r, '/');
        assert(is_normal_component(split_on(r, '/')[0]));
        if r.last() == '/' {
            assert(split_on(r, '/').last() == Seq::<char>::empty());
            assert(is_normal_component(split_on(r, '/')[split_on(r, '/').len() - 1]));
        }
        if r.len() >= 2 && r[0] == '.' && r[1] == '/' {
            assert(split_on(r, '/')[0] == seq!['.']);
        }
        lemma_normalize_normal(split_on(r, '/'));
    }
}

/// Showing a path in normal form and parsing the text again in the same
/// style gives the same path. Under Windows this holds where the path has
/// no `\\` and does not begin like a drive (`c:/`).
pub proof fn lemma_display_parse_round_trip(r: Seq<char>)
    requires
        is_rel_path(r),
    ensures
        parse_rel_path(display_text(r, PathStyle::Posix), PathStyle::Posix) == Ok::<
            Seq<char>,
            RelPathError,
        >(r),
        !has_char(r, '\\') && !(r.len() > 2 && crate::paths::is_ascii_letter(r[0]) && r[1] == ':'
            && r[2] == '/') ==> parse_rel_path(display_text(r, PathStyle::Windows), PathStyle::Windows)
            == Ok::<Seq<char>, RelPathError>(r),
{
    lemma_rel_path_shape(r);
    lemma_join_split(r, '/');
    assert(strip_dot_prefixes(r, PathStyle::Posix) == r);
    assert(strip_trailing_separators(r, PathStyle::Posix) == r);
    if r.len() == 0 {
        assert(components_of(r) =~= Seq::<Seq<char>>::empty());
        assert(join_with(Seq::<Seq<char>>::empty(), '/') =~= r);
    }
    if !has_char(r, '\\') && !(r.len() > 2 && crate::paths::is_ascii_letter(r[0]) && r[1] == ':'
        && r[2] == '/') {
        let w = PathStyle::Windows;
        let d = display_text(r, w);
        assert(strip_dot_prefixes(d, w) == d) by {
            if d.len() >= 2 && d[0] == '.' && is_separator(d[1], w) {
                assert(r[1] != '\\');
            }
        }
        assert(strip_trailing_separators(d, w) == d) by {
            if d.len() >= 2 && is_separator(d.last(), w) {
                assert(r[r.len() - 1] != '\\');
            }
        }
        if d.len() > 0 {
            assert(r[0] != '\\');
        }
        if d.len() > 2 {
            assert(r[2] != '\\');
        }
        assert(posix_separators(d, w) =~= r) by {
            assert forall|i: int| 0 <= i < r.len() implies r[i] != '\\' by {}
        }
    }
}

proof fn lemma_normalize_avoids(cs: Seq<Seq<char>>, c: char)
    requires
        forall|i: int| 0 <= i < cs.len() ==> !has_char(#[trigger] cs[i], c),
    ensures
        normalize_components(cs) matches Some(out) ==> forall|i: int|
            0 <= i < out.len() ==> !has_char(#[trigger] out[i], c),
    decreases cs.len(),
{
    if cs.len() > 0 {
        let d = cs.drop_last();
        assert forall|i: int| 0 <= i < d.len() implies !has_char(#[trigger] d[i], c) by {
            assert(d[i] == cs[i]);
        }
        lemma_normalize_avoids(d, c);
        let l = cs.last();
        assert(!has_char(cs[cs.len() - 1], c));
        if let Some(a) = normalize_components(d) {
            if l.len() == 0 || l == seq!['.'] {
            } else if l == seq!['.', '.'] {
                if a.len() > 0 {
                    assert forall|i: int| 0 <= i < a.drop_last().len() implies !has_char(
                        #[trigger] a.drop_last()[i],
                        c,
                    ) by {
                        assert(a.drop_last()[i] == a[i]);
                    }
                }
            } else {
                assert forall|i: int| 0 <= i < a.push(l).len() implies !has_char(
                    #[trigger] a.push(l)[i],
                    c,
                ) by {
                    if i < a.len() {
                        assert(a.push(l)[i] == a[i]);
                    }
                }
            }
        }
    }
}

/// Every path that a Windows parse gives is shown under Windows as a text
/// that parses back to it.
pub proof fn lemma_windows_parse_round_trip(s: Seq<char>)
    requires
        parse_rel_path(s, PathStyle::Windows) is Ok,
    ensures
        parse_rel_path(
            display_text(parse_rel_path(s, PathStyle::Windows)->Ok_0, PathStyle::Windows),
            PathStyle::Windows,
        ) == parse_rel_path(s, PathStyle::Windows),
{
    let w = PathStyle::Windows;
    let r = parse_rel_path(s, w)->Ok_0;
    lemma_parse_is_rel_path(s, w);
    let t = trimmed(s, w);
    let u = posix_separators(t, w);
    assert(!has_char(u, '\\')) by {
        if has_char(u, '\\') {
            let j = choose|j: int| 0 <= j < u.len() && u[j] == '\\';
        }
    }
    let comps = components_of(u);
    assert forall|i: int| 0 <= i < comps.len() implies !has_char(#[trigger] comps[i], '\\') by {
        if u.len() > 0 {
            if u.last() == '/' {
                assert(!has_char(u.drop_last(), '\\')) by {
                    if has_char(u.drop_last(), '\\') {
                        let j = choose|j: int| 0 <= j < u.drop_last().len() && u.drop_last()[j] == '\\';
                        assert(u[j] == '\\');
                    }
                }
                lemma_split_avoids(u.drop_last(), '/', '\\');
            } else {
                lemma_split_avoids(u, '/', '\\');
            }
        }
    }
    lemma_normalize_avoids(comps, '\\');
    let out = normalize_components(comps)->Some_0;
    lemma_join_avoids(out, '/', '\\');
    assert(!is_absolute_path(r, w));
    lemma_display_parse_round_trip(r);
}

/// A relative path in normal form: components joined by `/`, none of them
/// empty, `.` or `..`, and no leading `/`.
pub struct RelPath {
    inner: String,
}

impl View for RelPath {
    type V = Seq<char>;

    closed spec fn view(&self) -> Seq<char> {
        self.inner@
    }
}

/// Why `strip_prefix` refused.
#[derive(Debug, Clone, Copy, PartialEq, Eq, Structural)]
pub struct StripPrefixError;

impl RelPath {
    #[verifier::type_invariant]
    spec fn wf(self) -> bool {
        is_rel_path(self.inner@)
    }

    fn from_valid_chars(cs: &Vec<char>) -> (r: RelPath)
        requires
            is_rel_path(cs@),
        ensures
            r@ == cs@,
    {
        RelPath { inner: string_from_chars(cs.as_slice()) }
    }

    fn chars(&self) -> (r: Vec<char>)
        ensures
            r@ == self@,
            is_rel_path(r@),
    {
        proof {
            use_type_invariant(self);
        }
        chars_of(self.inner.as_str())
    }

    /// The empty path.
    pub fn empty() -> (r: RelPath)
        ensures
            r@ == Seq::<char>::empty(),
            is_rel_path(r@),
    {
        RelPath { inner: String::new() }
    }

    /// Reads a path written in `path_style`: leading `./` and trailing
    /// separators are dropped, `.` components removed and `..` components
    /// applied. Fails on an absolute path and on one that leaves the root.
    pub fn new(path: &str, path_style: PathStyle) -> (r: Result<RelPath, RelPathError>)
        ensures
            match r {
                Ok(p) => parse_rel_path(path@, path_style) == Ok::<Seq<char>, RelPathError>(p@),
                Err(e) => parse_rel_path(path@, path_style) == Err::<Seq<char>, RelPathError>(e),
            },
            r matches Ok(p) ==> is_rel_path(p@),
    {
        let cs = chars_of(path);
        let t = trim_path(&cs, path_style);
        if is_absolute_chars(&t, path_style) {
            return Err(RelPathError::Absolute);
        }
        let u = posix_separators_exec(&t, path_style);
        match normalized_components(&u) {
            Some(parts) => {
                let joined = join_components(&parts);
                if is_absolute_chars(&joined, path_style) {
                    return Err(RelPathError::Absolute);
                }
                proof {
                    lemma_parse_is_rel_path(path@, path_style);
                }
                Ok(RelPath::from_valid_chars(&joined))
            },
            None => Err(RelPathError::EscapesRoot),
        }
    }

    /// Reads a path that already uses `/` and is in normal form (leading
    /// `./` and trailing `/` aside); any other text is refused.
    pub fn unix(path: &str) -> (r: Result<RelPath, RelPathError>)
        ensures
            match r {
                Ok(p) => parse_unix_rel_path(path@) == Ok::<Seq<char>, RelPathError>(p@),
                Err(e) => parse_unix_rel_path(path@) == Err::<Seq<char>, RelPathError>(e),
            },
    {
        let parsed = RelPath::new(path, PathStyle::Posix);
        match parsed {
            Err(e) => Err(e),
            Ok(p) => {
                let cs = chars_of(path);
                let t = trim_path(&cs, PathStyle::Posix);
                let pc = p.chars();
                if same_chars(&pc, &t) {
                    Ok(p)
                } else {
                    Err(RelPathError::NotNormalized)
                }
            },
        }
    }

    pub fn is_empty(&self) -> (r: bool)
        ensures
            r == (self@.len() == 0),
    {
        let cs = self.chars();
        cs.len() == 0
    }

    /// The text of the path in `style`: under Windows each `/` becomes `\\`.
    pub fn display(&self, style: PathStyle) -> (r: String)
        ensures
            r@ == display_text(self@, style),
    {
        let cs = self.chars();
        let mut out: Vec<char> = Vec::new();
        let mut i: usize = 0;
        while i < cs.len()
            invariant
                i <= cs.len(),
                out@ == display_text(cs@, style).take(i as int),
            decreases cs.len() - i,
        {
            if style == PathStyle::Windows && cs[i] == '/' {
                out.push('\\');
            } else {
                out.push(cs[i]);
            }
            i += 1;
            assert(out@ =~= display_text(cs@, style).take(i as int));
        }
        assert(display_text(cs@, style).take(cs.len() as int) =~= display_text(cs@, style));
        string_from_chars(out.as_slice())
    }

    /// The internal text, with `/` separators.
    pub fn as_unix_str(&self) -> (r: &str)
        ensures
            r@ == self@,
    {
        self.inner.as_str()
    }

    /// The text sent over the wire: always with `/` separators.
    pub fn to_proto(&self) -> (r: String)
        ensures
            r@ == self@,
    {
        self.inner.clone()
    }

    /// Reads a path in its wire form.
    pub fn from_proto(path: &str) -> (r: Result<RelPath, RelPathError>)
        ensures
            match r {
                Ok(p) => parse_unix_rel_path(path@) == Ok::<Seq<char>, RelPathError>(p@),
                Err(e) => parse_unix_rel_path(path@) == Err::<Seq<char>, RelPathError>(e),
            },
    {
        RelPath::unix(path)
    }
}


/// Every component of a path in normal form is normal and holds no `/`.
pub open spec fn all_normal(cs: Seq<Seq<char>>) -> bool {
    forall|i: int| 0 <= i < cs.len() ==> is_normal_component(#[trigger] cs[i]) && !has_char(cs[i], '/')
}

proof fn lemma_rel_path_components(r: Seq<char>)
    requires
        is_rel_path(r),
    ensures
        all_normal(components_of(r)),
        join_with(components_of(r), '/') == r,
        r.len() > 0 ==> components_of(r) == split_on(r, '/'),
        r.len() == 0 ==> components_of(r).len() == 0,
{
    lemma_rel_path_shape(r);
    lemma_join_split(r, '/');
    lemma_components_pieces(r);
    if r.len() == 0 {
        assert(join_with(Seq::<Seq<char>>::empty(), '/') =~= r);
    }
}

proof fn lemma_sub_all_normal(cs: Seq<Seq<char>>, a: int, b: int)
    requires
        all_normal(cs),
        0 <= a <= b <= cs.len(),
    ensures
        all_normal(cs.subrange(a, b)),
        is_rel_path(join_with(cs.subrange(a, b), '/')),
{
    assert forall|i: int| 0 <= i < cs.subrange(a, b).len() implies is_normal_component(
        #[trigger] cs.subrange(a, b)[i],
    ) && !has_char(cs.subrange(a, b)[i], '/') by {
        assert(cs.subrange(a, b)[i] == cs[a + i]);
    }
    lemma_join_is_rel_path(cs.subrange(a, b));
}

/// The components of `u` as separate texts.
pub(crate) fn split_components(u: &Vec<char>) -> (r: Vec<Vec<char>>)
    ensures
        views(r@) == components_of(u@),
{
    let mut acc: Vec<Vec<char>> = Vec::new();
    if u.len() == 0 {
        assert(views(acc@) =~= Seq::<Seq<char>>::empty());
        return acc;
    }
    let n: usize = if u[u.len() - 1] == '/' {
        u.len() - 1
    } else {
        u.len()
    };
    assert(components_of(u@) == split_on(u@.take(n as int), '/')) by {
        if u@.last() == '/' {
            assert(u@.drop_last() =~= u@.take(n as int));
        } else {
            assert(u@ =~= u@.take(n as int));
        }
    }
    let mut cur: Vec<char> = Vec::new();
    let mut i: usize = 0;
    assert(u@.take(0) =~= Seq::<char>::empty());
    assert(views(acc@) =~= Seq::<Seq<char>>::empty());
    while i < n
        invariant
            n <= u.len(),
            i <= n,
            split_on(u@.take(i as int), '/') == views(acc@).push(cur@),
        decreases n - i,
    {
        let c = u[i];
        assert(u@.take(i + 1).drop_last() =~= u@.take(i as int));
        if c == '/' {
            let ghost cv = cur@;
            let ghost before = acc@;
            let piece = cur;
            acc.push(piece);
            cur = Vec::new();
            assert(views(acc@) =~= views(before).push(cv));
            assert(split_on(u@.take(i + 1), '/') =~= views(acc@).push(cur@));
        } else {
            cur.push(c);
            assert(split_on(u@.take(i + 1), '/') =~= views(acc@).push(cur@));
        }
        i += 1;
    }
    acc.push(cur);
    assert(views(acc@) =~= split_on(u@.take(n as int), '/'));
    acc
}

pub(crate) fn join_range(parts: &Vec<Vec<char>>, from: usize, to: usize) -> (r: Vec<char>)
    requires
        from <= to <= parts.len(),
    ensures
        r@ == join_with(views(parts@).subrange(from as int, to as int), '/'),
{
    let mut out: Vec<char> = Vec::new();
    let mut k: usize = from;
    let ghost vs = views(parts@);
    assert(vs.subrange(from as int, from as int) =~= Seq::<Seq<char>>::empty());
    while k < to
        invariant
            from <= k <= to <= parts.len(),
            vs == views(parts@),
            out@ == join_with(vs.subrange(from as int, k as int), '/'),
        decreases to - k,
    {
        assert(vs.subrange(from as int, k + 1).drop_last() =~= vs.subrange(from as int, k as int));
        if k > from {
            out.push('/');
        }
        append_chars(&mut out, &parts[k]);
        k += 1;
        assert(vs.subrange(from as int, k as int).last() == parts@[k - 1]@);
        assert(out@ =~= join_with(vs.subrange(from as int, k as int), '/'));
    }
    out
}

/// The components of a path, from either end.
pub struct RelPathComponents {
    parts: Vec<Vec<char>>,
    front: usize,
    back: usize,
}

impl View for RelPathComponents {
    type V = Seq<Seq<char>>;

    closed spec fn view(&self) -> Seq<Seq<char>> {
        views(self.parts@).subrange(self.front as int, self.back as int)
    }
}

impl RelPathComponents {
    #[verifier::type_invariant]
    spec fn wf(self) -> bool {
        &&& self.front <= self.back <= self.parts.len()
        &&& all_normal(views(self.parts@))
    }

    /// The next component from the front.
    pub fn next(&mut self) -> (r: Option<String>)
        ensures
            old(self)@.len() == 0 ==> r is None && final(self)@ == old(self)@,
            old(self)@.len() > 0 ==> (r matches Some(c) && c@ == old(self)@[0] && final(self)@
                == old(self)@.drop_first()),
    {
        proof {
            use_type_invariant(&*self);
        }
        if self.front == self.back {
            return None;
        }
        let c = string_from_chars(self.parts[self.front].as_slice());
        self.front = self.front + 1;
        assert(self@ =~= old(self)@.drop_first());
        Some(c)
    }

    /// The next component from the back.
    pub fn next_back(&mut self) -> (r: Option<String>)
        ensures
            old(self)@.len() == 0 ==> r is None && final(self)@ == old(self)@,
            old(self)@.len() > 0 ==> (r matches Some(c) && c@ == old(self)@.last() && final(self)@
                == old(self)@.drop_last()),
    {
        proof {
            use_type_invariant(&*self);
        }
        if self.front == self.back {
            return None;
        }
        let c = string_from_chars(self.parts[self.back - 1].as_slice());
        self.back = self.back - 1;
        assert(self@ =~= old(self)@.drop_last());
        Some(c)
    }

    /// The components not yet taken, as a path.
    pub fn rest(&self) -> (r: RelPath)
        ensures
            r@ == join_with(self@, '/'),
    {
        proof {
            use_type_invariant(self);
            lemma_sub_all_normal(views(self.parts@), self.front as int, self.back as int);
        }
        let cs = join_range(&self.parts, self.front, self.back);
        RelPath::from_valid_chars(&cs)
    }
}

/// A path and each of its ancestors in turn, down to the empty path.
pub struct RelPathAncestors {
    parts: Vec<Vec<char>>,
    next_len: usize,
    done: bool,
}

impl View for RelPathAncestors {
    /// How many components the paths still to come have, longest first.
    type V = Seq<Seq<char>>;

    closed spec fn view(&self) -> Seq<Seq<char>> {
        if self.done {
            Seq::empty()
        } else {
            Seq::new(
                (self.next_len + 1) as nat,
                |i: int| join_with(views(self.parts@).take(self.next_len - i), '/'),
            )
        }
    }
}

impl RelPathAncestors {
    #[verifier::type_invariant]
    spec fn wf(self) -> bool {
        &&& self.next_len <= self.parts.len()
        &&& all_normal(views(self.parts@))
    }

    /// The next ancestor, the path itself first.
    pub fn next(&mut self) -> (r: Option<RelPath>)
        ensures
            old(self)@.len() == 0 ==> r is None && final(self)@ == old(self)@,
            old(self)@.len() > 0 ==> (r matches Some(p) && p@ == old(self)@[0] && final(self)@
                == old(self)@.drop_first()),
    {
        proof {
            use_type_invariant(&*self);
        }
        if self.done {
            return None;
        }
        proof {
            lemma_sub_all_normal(views(self.parts@), 0, self.next_len as int);
            assert(views(self.parts@).subrange(0, self.next_len as int) =~= views(self.parts@).take(
                self.next_len as int,
            ));
        }
        let cs = join_range(&self.parts, 0, self.next_len);
        let p = RelPath::from_valid_chars(&cs);
        if self.next_len == 0 {
            self.done = true;
        } else {
            self.next_len = self.next_len - 1;
        }
        assert(self@ =~= old(self)@.drop_first());
        Some(p)
    }
}

/// The stem and extension of a file name, as `std::path::Path` splits
/// them: at the last `.`, unless that `.` begins the name.
pub open spec fn stem_and_extension(f: Seq<char>) -> (Seq<char>, Option<Seq<char>>) {
    if f == seq!['.', '.'] {
        (f, None)
    } else {
        match last_index_of(f, '.') {
            None => (f, None),
            Some(i) => if i == 0 {
                (f, None)
            } else {
                (f.take(i), Some(f.subrange(i + 1, f.len() as int)))
            },
        }
    }
}

pub(crate) fn last_dot(f: &Vec<char>) -> (r: Option<usize>)
    ensures
        match r {
            Some(i) => last_index_of(f@, '.') == Some(i as int) && i < f.len(),
            None => last_index_of(f@, '.') is None,
        },
{
    let mut k: usize = f.len();
    assert(f@.take(k as int) =~= f@);
    while k > 0
        invariant
            k <= f.len(),
            last_index_of(f@, '.') == last_index_of(f@.take(k as int), '.'),
        decreases k,
    {
        assert(f@.take(k as int).drop_last() =~= f@.take(k - 1));
        if f[k - 1] == '.' {
            return Some(k - 1);
        }
        k -= 1;
    }
    None
}

pub open spec fn strip_prefix_text(s: Seq<char>, p: Seq<char>) -> Option<Seq<char>> {
    if p.len() == 0 {
        Some(s)
    } else if has_prefix(s, p) {
        let rest = s.subrange(p.len() as int, s.len() as int);
        if rest.len() == 0 {
            Some(rest)
        } else if rest[0] == '/' {
            Some(rest.drop_first())
        } else {
            None
        }
    } else {
        None
    }
}

pub open spec fn join_text(a: Seq<char>, b: Seq<char>) -> Seq<char> {
    if a.len() == 0 {
        b
    } else if b.len() == 0 {
        a
    } else {
        a.push('/') + b
    }
}

pub open spec fn ends_with_text(s: Seq<char>, p: Seq<char>) -> bool {
    has_suffix(s, p) && (s.len() == p.len() || s[s.len() - p.len() - 1] == '/')
}

pub open spec fn last_n_text(s: Seq<char>, count: int) -> Option<Seq<char>> {
    let n = split_on(s, '/').len() as int;
    let cs = components_of(s);
    if n >= count && n - count <= cs.len() {
        Some(join_with(cs.subrange(n - count, cs.len() as int), '/'))
    } else {
        None
    }
}

proof fn lemma_join_text_valid(a: Seq<char>, b: Seq<char>)
    requires
        is_rel_path(a),
        is_rel_path(b),
    ensures
        is_rel_path(join_text(a, b)),
{
    if a.len() > 0 && b.len() > 0 {
        lemma_split_concat(a, b, '/');
        let sa = split_on(a, '/');
        let sb = split_on(b, '/');
        assert forall|i: int| 0 <= i < (sa + sb).len() implies is_normal_component(
            #[trigger] (sa + sb)[i],
        ) by {
            if i < sa.len() {
                assert((sa + sb)[i] == sa[i]);
            } else {
                assert((sa + sb)[i] == sb[i - sa.len()]);
            }
        }
    }
}

impl RelPath {
    /// The components in order.
    pub fn components(&self) -> (r: RelPathComponents)
        ensures
            r@ == components_of(self@),
    {
        let cs = self.chars();
        let parts = split_components(&cs);
        proof {
            lemma_rel_path_components(cs@);
        }
        let n = parts.len();
        let r = RelPathComponents { parts, front: 0, back: n };
        assert(r@ =~= components_of(self@));
        r
    }

    /// The path, then its parent, and so on down to the empty path.
    pub fn ancestors(&self) -> (r: RelPathAncestors)
        ensures
            r@.len() == components_of(self@).len() + 1,
            forall|i: int|
                0 <= i < r@.len() ==> #[trigger] r@[i] == join_with(
                    components_of(self@).take(components_of(self@).len() - i),
                    '/',
                ),
    {
        let cs = self.chars();
        let parts = split_components(&cs);
        proof {
            lemma_rel_path_components(cs@);
        }
        let n = parts.len();
        RelPathAncestors { parts, next_len: n, done: false }
    }

    /// The last component.
    pub fn file_name(&self) -> (r: Option<String>)
        ensures
            self@.len() == 0 ==> r is None,
            self@.len() > 0 ==> (r matches Some(f) && f@ == components_of(self@).last()),
    {
        let mut c = self.components();
        proof {
            use_type_invariant(self);
            lemma_rel_path_components(self@);
        }
        c.next_back()
    }

    /// The file name without its extension.
    pub fn file_stem(&self) -> (r: Option<String>)
        ensures
            self@.len() == 0 ==> r is None,
            self@.len() > 0 ==> (r matches Some(f) && f@ == stem_and_extension(
                components_of(self@).last(),
            ).0),
    {
        match self.file_name() {
            None => None,
            Some(name) => {
                let f = chars_of(name.as_str());
                match last_dot(&f) {
                    Some(i) => if i > 0 && !is_double_dot(&f) {
                        let stem = copy_range(&f, 0, i);
                        assert(stem@ =~= f@.take(i as int));
                        Some(string_from_chars(stem.as_slice()))
                    } else {
                        Some(name)
                    },
                    None => Some(name),
                }
            },
        }
    }

    /// The part of the file name after its last `.`, where there is one
    /// that does not begin the name.
    pub fn extension(&self) -> (r: Option<String>)
        ensures
            self@.len() == 0 ==> r is None,
            self@.len() > 0 ==> match r {
                Some(e) => stem_and_extension(components_of(self@).last()).1 == Some(e@),
                None => stem_and_extension(components_of(self@).last()).1 is None,
            },
    {
        match self.file_name() {
            None => None,
            Some(name) => {
                let f = chars_of(name.as_str());
                match last_dot(&f) {
                    Some(i) => if i > 0 && !is_double_dot(&f) {
                        let ext = copy_range(&f, i + 1, f.len());
                        Some(string_from_chars(ext.as_slice()))
                    } else {
                        None
                    },
                    None => None,
                }
            },
        }
    }

    /// The path without its last component; `None` for the empty path.
    pub fn parent(&self) -> (r: Option<RelPath>)
        ensures
            self@.len() == 0 ==> r is None,
            self@.len() > 0 ==> (r matches Some(p) && p@ == join_with(
                components_of(self@).drop_last(),
                '/',
            )),
    {
        let mut c = self.components();
        proof {
            use_type_invariant(self);
            lemma_rel_path_components(self@);
        }
        match c.next_back() {
            None => None,
            Some(_) => Some(c.rest()),
        }
    }

    /// Whether `other` is made of the first components of this path.
    pub fn starts_with(&self, other: &RelPath) -> (r: bool)
        ensures
            r == strip_prefix_text(self@, other@) is Some,
    {
        self.strip_prefix(other).is_ok()
    }

    /// Whether `other` is made of the last components of this path.
    pub fn ends_with(&self, other: &RelPath) -> (r: bool)
        ensures
            r == ends_with_text(self@, other@),
    {
        let s = self.chars();
        let o = other.chars();
        if o.len() > s.len() {
            return false;
        }
        let off = s.len() - o.len();
        let tail = copy_range(&s, off, s.len());
        if !same_chars(&tail, &o) {
            return false;
        }
        off == 0 || s[off - 1] == '/'
    }

    /// The rest of this path after the components of `base`.
    pub fn strip_prefix(&self, base: &RelPath) -> (r: Result<RelPath, StripPrefixError>)
        ensures
            match r {
                Ok(p) => strip_prefix_text(self@, base@) == Some(p@),
                Err(_) => strip_prefix_text(self@, base@) is None,
            },
    {
        let s = self.chars();
        let o = other_chars(base);
        if o.len() == 0 {
            return Ok(RelPath::from_valid_chars(&s));
        }
        if o.len() > s.len() {
            return Err(StripPrefixError);
        }
        let head = copy_range(&s, 0, o.len());
        if !same_chars(&head, &o) {
            return Err(StripPrefixError);
        }
        if o.len() == s.len() {
            return Ok(RelPath::empty());
        }
        if s[o.len()] != '/' {
            return Err(StripPrefixError);
        }
        let rest = copy_range(&s, o.len() + 1, s.len());
        proof {
            let a = s@.take(o.len() as int);
            assert(a =~= o@);
            assert(s@ =~= a.push('/') + rest@);
            lemma_split_concat(a, rest@, '/');
            let sa = split_on(a, '/');
            let sr = split_on(rest@, '/');
            assert forall|i: int| 0 <= i < sr.len() implies is_normal_component(#[trigger] sr[i]) by {
                assert((sa + sr)[sa.len() + i] == sr[i]);
            }
            assert(rest@ =~= s@.subrange(o.len() as int, s.len() as int).drop_first());
        }
        Ok(RelPath::from_valid_chars(&rest))
    }

    /// The number of components; the empty path counts as one.
    pub fn len(&self) -> (r: usize)
        ensures
            r == split_on(self@, '/').len(),
    {
        let s = self.chars();
        proof {
            lemma_rel_path_shape(s@);
        }
        let mut count: usize = 1;
        let mut i: usize = 0;
        assert(s@.take(0) =~= Seq::<char>::empty());
        while i < s.len()
            invariant
                i <= s.len(),
                s@.len() > 0 ==> s@[0] != '/',
                count == split_on(s@.take(i as int), '/').len(),
                1 <= count,
                i >= 1 ==> count <= i,
            decreases s.len() - i,
        {
            assert(s@.take(i + 1).drop_last() =~= s@.take(i as int));
            assert(s@.take(i + 1).last() == s@[i as int]);
            proof {
                lemma_split_nonempty(s@.take(i as int), '/');
            }
            if s[i] == '/' {
                count += 1;
            }
            i += 1;
        }
        assert(s@.take(s.len() as int) =~= s@);
        count
    }

    /// The last `count` components, where the path has that many.
    pub fn last_n_components(&self, count: usize) -> (r: Option<RelPath>)
        ensures
            match r {
                Some(p) => last_n_text(self@, count as int) == Some(p@),
                None => last_n_text(self@, count as int) is None,
            },
    {
        let n = self.len();
        if n < count {
            return None;
        }
        let mut c = self.components();
        proof {
            use_type_invariant(self);
            lemma_rel_path_components(self@);
            assert(components_of(self@).subrange(0, components_of(self@).len() as int) =~= components_of(self@));
        }
        let skip = n - count;
        let mut k: usize = 0;
        while k < skip
            invariant
                k <= skip,
                k <= components_of(self@).len(),
                n == split_on(self@, '/').len(),
                skip == n - count,
                c@ == components_of(self@).subrange(k as int, components_of(self@).len() as int),
            decreases skip - k,
        {
            match c.next() {
                None => {
                    return None;
                },
                Some(_) => {},
            }
            k += 1;
            assert(c@ =~= components_of(self@).subrange(k as int, components_of(self@).len() as int));
        }
        Some(c.rest())
    }

    /// This path followed by `other`.
    pub fn join(&self, other: &RelPath) -> (r: RelPath)
        ensures
            r@ == join_text(self@, other@),
    {
        let mut s = self.chars();
        let o = other.chars();
        if s.len() == 0 {
            return RelPath::from_valid_chars(&o);
        }
        if o.len() == 0 {
            return RelPath::from_valid_chars(&s);
        }
        s.push('/');
        append_chars(&mut s, &o);
        proof {
            lemma_join_text_valid(self@, other@);
        }
        RelPath::from_valid_chars(&s)
    }

    /// An owned copy that can grow.
    pub fn to_rel_path_buf(&self) -> (r: RelPathBuf)
        ensures
            r@ == self@,
    {
        let s = self.chars();
        RelPathBuf { inner: string_from_chars(s.as_slice()) }
    }

    /// A shared copy.
    pub fn into_arc(&self) -> (r: std::sync::Arc<RelPath>)
        ensures
            r@ == self@,
    {
        let s = self.chars();
        std::sync::Arc::new(RelPath::from_valid_chars(&s))
    }
}

fn other_chars(p: &RelPath) -> (r: Vec<char>)
    ensures
        r@ == p@,
        is_rel_path(r@),
{
    p.chars()
}

/// An owned relative path in normal form that can grow and shrink.
pub struct RelPathBuf {
    inner: String,
}

impl View for RelPathBuf {
    type V = Seq<char>;

    closed spec fn view(&self) -> Seq<char> {
        self.inner@
    }
}

impl RelPathBuf {
    #[verifier::type_invariant]
    spec fn wf(self) -> bool {
        is_rel_path(self.inner@)
    }

    fn chars(&self) -> (r: Vec<char>)
        ensures
            r@ == self@,
            is_rel_path(r@),
    {
        proof {
            use_type_invariant(self);
        }
        chars_of(self.inner.as_str())
    }

    /// The empty path.
    pub fn new() -> (r: RelPathBuf)
        ensures
            r@ == Seq::<char>::empty(),
    {
        RelPathBuf { inner: String::new() }
    }

    /// Removes the last component; false where the path was empty.
    pub fn pop(&mut self) -> (r: bool)
        ensures
            r == (old(self)@.len() > 0),
            r ==> final(self)@ == join_with(components_of(old(self)@).drop_last(), '/'),
            !r ==> final(self)@ == old(self)@,
    {
        let s = self.chars();
        if s.len() == 0 {
            return false;
        }
        let parts = split_components(&s);
        proof {
            lemma_rel_path_components(s@);
            lemma_sub_all_normal(views(parts@), 0, parts.len() - 1);
            assert(views(parts@).subrange(0, parts.len() - 1) =~= views(parts@).drop_last());
        }
        let cs = join_range(&parts, 0, parts.len() - 1);
        self.inner = string_from_chars(cs.as_slice());
        true
    }

    /// Appends the components of `path`.
    pub fn push(&mut self, path: &RelPath)
        ensures
            final(self)@ == join_text(old(self)@, path@),
    {
        let mut s = self.chars();
        let o = other_chars(path);
        if o.len() == 0 {
            return;
        }
        if s.len() > 0 {
            s.push('/');
        }
        append_chars(&mut s, &o);
        proof {
            lemma_join_text_valid(old(self)@, path@);
            if old(self)@.len() == 0 {
                assert(s@ =~= o@);
            }
        }
        self.inner = string_from_chars(s.as_slice());
    }

    /// The path as a `RelPath`.
    pub fn as_rel_path(&self) -> (r: RelPath)
        ensures
            r@ == self@,
    {
        let s = self.chars();
        RelPath::from_valid_chars(&s)
    }
}


/// A file name with its extension replaced, as `PathBuf::set_extension`
/// does: the stem, then `.` and the extension unless that is empty.
pub open spec fn with_extension(name: Seq<char>, ext: Seq<char>) -> Seq<char> {
    let stem = stem_and_extension(name).0;
    if ext.len() == 0 {
        stem
    } else {
        stem.push('.') + ext
    }
}

impl RelPathBuf {
    /// Replaces the extension of the last component. False, and nothing
    /// changed, where the path is empty, where `extension` holds a `/`, or
    /// where the new name would not be a normal component.
    pub fn set_extension(&mut self, extension: &str) -> (r: bool)
        ensures
            ({
                let cs = components_of(old(self)@);
                let n = with_extension(cs.last(), extension@);
                if old(self)@.len() > 0 && !has_char(extension@, '/') && is_normal_component(n) {
                    r && final(self)@ == join_with(cs.drop_last().push(n), '/')
                } else {
                    !r && final(self)@ == old(self)@
                }
            }),
    {
        let s = self.chars();
        if s.len() == 0 {
            return false;
        }
        let ext = chars_of(extension);
        let mut k: usize = 0;
        while k < ext.len()
            invariant
                k <= ext.len(),
                ext@ == extension@,
                forall|j: int| 0 <= j < k ==> ext@[j] != '/',
            decreases ext.len() - k,
        {
            if ext[k] == '/' {
                return false;
            }
            k += 1;
        }
        let mut parts = split_components(&s);
        proof {
            lemma_rel_path_components(s@);
            lemma_split_nonempty(s@, '/');
        }
        let last_ix = parts.len() - 1;
        let name = copy_range(&parts[last_ix], 0, parts[last_ix].len());
        assert(name@ =~= components_of(s@).last());
        let stem = match last_dot(&name) {
            Some(i) => if i > 0 && !is_double_dot(&name) {
                copy_range(&name, 0, i)
            } else {
                name
            },
            None => name,
        };
        assert(stem@ == stem_and_extension(components_of(s@).last()).0);
        let mut new_name = stem;
        if ext.len() > 0 {
            new_name.push('.');
            append_chars(&mut new_name, &ext);
        }
        if !is_normal_exec(&new_name) {
            return false;
        }
        let ghost before = views(parts@);
        let ghost nn = new_name@;
        parts.set(last_ix, new_name);
        proof {
            assert(views(parts@) =~= before.drop_last().push(nn));
            assert forall|j: int| 0 <= j < views(parts@).len() implies is_normal_component(
                #[trigger] views(parts@)[j],
            ) && !has_char(views(parts@)[j], '/') by {
                if j < before.len() - 1 {
                    assert(views(parts@)[j] == before[j]);
                } else {
                    if has_char(nn, '/') {
                        let w = choose|w: int| 0 <= w < nn.len() && nn[w] == '/';
                        let st = stem_and_extension(before.last()).0;
                        if w < st.len() {
                            assert(st[w] == before.last()[w]);
                        } else if w > st.len() {
                            assert(nn[w] == extension@[w - st.len() - 1]);
                        }
                    }
                }
            }
            lemma_join_is_rel_path(views(parts@));
            assert(views(parts@).subrange(0, parts@.len() as int) =~= views(parts@));
        }
        let joined = join_range(&parts, 0, parts.len());
        self.inner = string_from_chars(joined.as_slice());
        true
    }
}


impl PartialEq for RelPath {
    fn eq(&self, other: &RelPath) -> (r: bool) {
        let a = self.chars();
        let b = other.chars();
        same_chars(&a, &b)
    }
}

impl vstd::std_specs::cmp::PartialEqSpecImpl for RelPath {
    open spec fn obeys_eq_spec() -> bool {
        true
    }

    open spec fn eq_spec(&self, other: &RelPath) -> bool {
        self@ == other@
    }
}

impl PartialEq for RelPathBuf {
    fn eq(&self, other: &RelPathBuf) -> (r: bool) {
        let a = self.chars();
        let b = other.chars();
        same_chars(&a, &b)
    }
}

impl vstd::std_specs::cmp::PartialEqSpecImpl for RelPathBuf {
    open spec fn obeys_eq_spec() -> bool {
        true
    }

    open spec fn eq_spec(&self, other: &RelPathBuf) -> bool {
        self@ == other@
    }
}

} // verus!
