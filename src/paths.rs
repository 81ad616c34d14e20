//! Path styles and the host-side path rules.
use vstd::prelude::*;
use crate::text::{last_index_of, chars_of, string_from_chars, split_on, join_with, has_char, same_chars};
use crate::rel_path::{
    RelPath, RelPathError, components_of, views, split_components, join_range, copy_range,
    append_chars, parse_rel_path, normalized_components, normalize_components, last_dot,
    is_double_dot, stem_and_extension,
};

verus! {

/// The separator conventions of a path.
#[derive(Debug, Clone, Copy, PartialEq, Eq, Hash, Structural)]
pub enum PathStyle {
    Posix,
    Windows,
}

pub open spec fn is_ascii_letter(c: char) -> bool {
    ('a' <= c && c <= 'z') || ('A' <= c && c <= 'Z')
}

/// Whether a path written in `style` is absolute: a leading `/`, or under
/// Windows a leading `\` or a drive letter followed by `:` and a separator.
pub open spec fn is_absolute_path(s: Seq<char>, style: PathStyle) -> bool {
    (s.len() > 0 && s[0] == '/') || (style == PathStyle::Windows && s.len() > 0 && (s[0] == '\\'
        || (is_ascii_letter(s[0]) && s.len() > 2 && s[1] == ':' && (s[2] == '/' || s[2]
        == '\\'))))
}

pub fn is_ascii_letter_exec(c: char) -> (r: bool)
    ensures
        r == is_ascii_letter(c),
{
    ('a' <= c && c <= 'z') || ('A' <= c && c <= 'Z')
}

pub(crate) fn is_absolute_chars(s: &Vec<char>, style: PathStyle) -> (r: bool)
    ensures
        r == is_absolute_path(s@, style),
{
    let n = s.len();
    if n > 0 && s[0] == '/' {
        return true;
    }
    if style == PathStyle::Windows && n > 0 {
        if s[0] == '\\' {
            return true;
        }
        return is_ascii_letter_exec(s[0]) && n > 2 && s[1] == ':' && (s[2] == '/' || s[2] == '\\');
    }
    false
}

/// Whether `path_like` is absolute in `path_style`.
pub fn is_absolute(path_like: &str, path_style: PathStyle) -> (r: bool)
    ensures
        r == is_absolute_path(path_like@, path_style),
{
    let cs = chars_of(path_like);
    is_absolute_chars(&cs, path_style)
}


/// Relies on `std::path::MAIN_SEPARATOR`: the host's separator.
#[verifier::external_body]
fn main_separator() -> (r: char)
    ensures
        r == '/' || r == '\\',
{
    std::path::MAIN_SEPARATOR
}

impl PathStyle {
    /// The style of the host.
    pub fn local() -> (r: PathStyle) {
        if main_separator() == '\\' {
            PathStyle::Windows
        } else {
            PathStyle::Posix
        }
    }

    /// The separator this style writes.
    pub fn primary_separator(&self) -> (r: char)
        ensures
            r == sep_of(*self),
    {
        match self {
            PathStyle::Posix => '/',
            PathStyle::Windows => '\\',
        }
    }

    /// The separators this style reads, the one it writes first.
    pub fn separators(&self) -> (r: Vec<String>)
        ensures
            *self == PathStyle::Posix ==> r@.len() == 1 && r@[0]@ == seq!['/'],
            *self == PathStyle::Windows ==> r@.len() == 2 && r@[0]@ == seq!['\\'] && r@[1]@
                == seq!['/'],
    {
        let cs = self.separators_ch();
        let mut r: Vec<String> = Vec::new();
        let mut i: usize = 0;
        while i < cs.len()
            invariant
                i <= cs.len(),
                r@.len() == i,
                forall|k: int| 0 <= k < i ==> #[trigger] r@[k]@ == seq![cs@[k]],
            decreases cs.len() - i,
        {
            let one = vec![cs[i]];
            assert(one@ =~= seq![cs@[i as int]]);
            r.push(string_from_chars(one.as_slice()));
            i += 1;
        }
        r
    }

    /// The separator characters this style reads, the one it writes first.
    pub fn separators_ch(&self) -> (r: Vec<char>)
        ensures
            *self == PathStyle::Posix ==> r@ == seq!['/'],
            *self == PathStyle::Windows ==> r@ == seq!['\\', '/'],
    {
        match self {
            PathStyle::Posix => vec!['/'],
            PathStyle::Windows => vec!['\\', '/'],
        }
    }

    pub fn is_windows(&self) -> (r: bool)
        ensures
            r == (*self == PathStyle::Windows),
    {
        *self == PathStyle::Windows
    }

    pub fn is_posix(&self) -> (r: bool)
        ensures
            r == (*self == PathStyle::Posix),
    {
        *self == PathStyle::Posix
    }

    /// `right` appended to `left` with one separator between them; `None`
    /// where `right` is absolute.
    pub fn join(self, left: &str, right: &str) -> (r: Option<String>)
        ensures
            r matches Some(j) ==> j@ == style_join(self, left@, right@),
            r is None <==> is_absolute_path(right@, self),
    {
        let rc = chars_of(right);
        if is_absolute_chars(&rc, self) {
            return None;
        }
        let mut lc = chars_of(left);
        if lc.len() == 0 {
            return Some(string_from_chars(rc.as_slice()));
        }
        let sep = self.primary_separator();
        if lc[lc.len() - 1] != sep {
            lc.push(sep);
        }
        append_chars(&mut lc, &rc);
        Some(string_from_chars(lc.as_slice()))
    }

    /// A path split after its last separator: the directory part with that
    /// separator, and the file name.
    pub fn split(self, path_like: &str) -> (r: (Option<String>, String))
        ensures
            match last_index_of(path_like@, sep_of(self)) {
                Some(i) => r.0 matches Some(d) && d@ == path_like@.take(i + 1) && r.1@
                    == path_like@.subrange(i + 1, path_like@.len() as int),
                None => r.0 is None && r.1@ == path_like@,
            },
    {
        let cs = chars_of(path_like);
        let sep = self.primary_separator();
        let mut k: usize = cs.len();
        assert(cs@.take(k as int) =~= cs@);
        while k > 0
            invariant
                k <= cs.len(),
                sep == sep_of(self),
                cs@ == path_like@,
                last_index_of(cs@, sep) == last_index_of(cs@.take(k as int), sep),
            decreases k,
        {
            assert(cs@.take(k as int).drop_last() =~= cs@.take(k - 1));
            assert(cs@.take(k as int).last() == cs@[k - 1]);
            if cs[k - 1] == sep {
                let dir = copy_range(&cs, 0, k);
                let file = copy_range(&cs, k, cs.len());
                assert(dir@ =~= cs@.take(k as int));
                return (Some(string_from_chars(dir.as_slice())), string_from_chars(file.as_slice()));
            }
            k -= 1;
        }
        assert(cs@.take(0) =~= Seq::<char>::empty());
        (None, string_from_chars(cs.as_slice()))
    }

    /// `child` relative to `parent`, where `parent` is a leading part of it
    /// that ends at a separator.
    pub fn strip_prefix(&self, child: &str, parent: &str) -> (r: Option<RelPath>)
        ensures
            match style_strip_prefix(*self, child@, parent@) {
                Some(t) => match parse_rel_path(t, *self) {
                    Ok(p) => r matches Some(q) && q@ == p,
                    Err(_) => r is None,
                },
                None => r is None,
            },
    {
        let pc = chars_of(parent);
        if pc.len() == 0 {
            return RelPath::new(child, *self).ok();
        }
        let mut pc = pc;
        let last = pc[pc.len() - 1];
        if is_sep_exec(last, *self) {
            pc.pop();
        }
        let cc = chars_of(child);
        if pc.len() > cc.len() {
            return None;
        }
        let head = copy_range(&cc, 0, pc.len());
        if !same_chars(&head, &pc) {
            return None;
        }
        let rest = copy_range(&cc, pc.len(), cc.len());
        if rest.len() == 0 {
            return Some(RelPath::empty());
        }
        if is_sep_exec(rest[0], *self) {
            let rel = copy_range(&rest, 1, rest.len());
            assert(rel@ =~= rest@.drop_first());
            let text = string_from_chars(rel.as_slice());
            return RelPath::new(text.as_str(), *self).ok();
        }
        None
    }
}

pub open spec fn sep_of(style: PathStyle) -> char {
    if style == PathStyle::Windows {
        '\\'
    } else {
        '/'
    }
}

pub open spec fn is_style_separator(c: char, style: PathStyle) -> bool {
    c == '/' || (style == PathStyle::Windows && c == '\\')
}

fn is_sep_exec(c: char, style: PathStyle) -> (r: bool)
    ensures
        r == is_style_separator(c, style),
{
    c == '/' || (style == PathStyle::Windows && c == '\\')
}

pub open spec fn style_join(style: PathStyle, left: Seq<char>, right: Seq<char>) -> Seq<char> {
    if left.len() == 0 {
        right
    } else if left.last() == sep_of(style) {
        left + right
    } else {
        left.push(sep_of(style)) + right
    }
}

/// The text of `child` after `parent` and one separator, where `parent`
/// (less one trailing separator) begins it; empty where they are equal.
pub open spec fn style_strip_prefix(style: PathStyle, child: Seq<char>, parent: Seq<char>) -> Option<
    Seq<char>,
> {
    if parent.len() == 0 {
        Some(child)
    } else {
        let p = if is_style_separator(parent.last(), style) {
            parent.drop_last()
        } else {
            parent
        };
        if p.len() <= child.len() && child.take(p.len() as int) == p {
            let rest = child.subrange(p.len() as int, child.len() as int);
            if rest.len() == 0 {
                Some(rest)
            } else if is_style_separator(rest[0], style) {
                Some(rest.drop_first())
            } else {
                None
            }
        } else {
            None
        }
    }
}

// Host paths. These use `/` separators.
/// The components of a host path that name something: empty and `.`
/// components are left out.
pub open spec fn named_parts(ps: Seq<Seq<char>>) -> Seq<Seq<char>>
    decreases ps.len(),
{
    if ps.len() == 0 {
        Seq::empty()
    } else {
        let k = named_parts(ps.drop_last());
        if ps.last().len() == 0 || ps.last() == seq!['.'] {
            k
        } else {
            k.push(ps.last())
        }
    }
}

/// Whether a host path is absolute, and its components.
pub open spec fn path_model(s: Seq<char>) -> (bool, Seq<Seq<char>>) {
    (s.len() > 0 && s[0] == '/', named_parts(components_of(s)))
}

/// Components with each `..` applied to the one before it; a `..` with
/// nothing before it is dropped.
pub open spec fn resolve_parts(ps: Seq<Seq<char>>) -> Seq<Seq<char>>
    decreases ps.len(),
{
    if ps.len() == 0 {
        Seq::empty()
    } else {
        let k = resolve_parts(ps.drop_last());
        if ps.last() == seq!['.', '.'] {
            if k.len() == 0 {
                k
            } else {
                k.drop_last()
            }
        } else {
            k.push(ps.last())
        }
    }
}

/// The text of a host path.
pub open spec fn render_path(absolute: bool, parts: Seq<Seq<char>>) -> Seq<char> {
    if absolute {
        seq!['/'] + join_with(parts, '/')
    } else {
        join_with(parts, '/')
    }
}

/// A host path with `.` and `..` components resolved.
pub open spec fn normalized_path(s: Seq<char>) -> Seq<char> {
    render_path(path_model(s).0, resolve_parts(path_model(s).1))
}

/// `b` appended to `a` as `Path::join` does: an absolute `b` replaces `a`.
pub open spec fn path_join(a: Seq<char>, b: Seq<char>) -> Seq<char> {
    if b.len() > 0 && b[0] == '/' {
        b
    } else {
        style_join(PathStyle::Posix, a, b)
    }
}

/// Whether the components of `prefix` begin those of `s`.
pub open spec fn path_starts_with(s: Seq<char>, prefix: Seq<char>) -> bool {
    let (sa, sp) = path_model(s);
    let (pa, pp) = path_model(prefix);
    sa == pa && pp.len() <= sp.len() && sp.take(pp.len() as int) == pp
}

fn is_dot(c: &Vec<char>) -> (r: bool)
    ensures
        r == (c@ == seq!['.']),
{
    if c.len() == 1 && c[0] == '.' {
        assert(c@ =~= seq!['.']);
        true
    } else {
        false
    }
}

fn is_dot_dot(c: &Vec<char>) -> (r: bool)
    ensures
        r == (c@ == seq!['.', '.']),
{
    if c.len() == 2 && c[0] == '.' && c[1] == '.' {
        assert(c@ =~= seq!['.', '.']);
        true
    } else {
        false
    }
}

fn path_parts(s: &Vec<char>) -> (r: (bool, Vec<Vec<char>>))
    ensures
        r.0 == path_model(s@).0,
        views(r.1@) == path_model(s@).1,
{
    let all = split_components(s);
    let mut kept: Vec<Vec<char>> = Vec::new();
    let mut i: usize = 0;
    assert(views(all@).take(0) =~= Seq::<Seq<char>>::empty());
    assert(views(kept@) =~= Seq::<Seq<char>>::empty());
    while i < all.len()
        invariant
            i <= all.len(),
            views(kept@) == named_parts(views(all@).take(i as int)),
        decreases all.len() - i,
    {
        let ghost vs = views(all@);
        assert(vs.take(i + 1).drop_last() =~= vs.take(i as int));
        assert(vs.take(i + 1).last() == all@[i as int]@);
        let c = &all[i];
        if c.len() > 0 && !is_dot(c) {
            let ghost before = kept@;
            let copy = copy_range(c, 0, c.len());
            assert(copy@ =~= c@);
            kept.push(copy);
            assert(views(kept@) =~= views(before).push(c@));
        }
        i += 1;
    }
    assert(views(all@).take(all.len() as int) =~= views(all@));
    (s.len() > 0 && s[0] == '/', kept)
}

fn resolve(ps: &Vec<Vec<char>>) -> (r: Vec<Vec<char>>)
    ensures
        views(r@) == resolve_parts(views(ps@)),
{
    let mut acc: Vec<Vec<char>> = Vec::new();
    let mut i: usize = 0;
    assert(views(ps@).take(0) =~= Seq::<Seq<char>>::empty());
    assert(views(acc@) =~= Seq::<Seq<char>>::empty());
    while i < ps.len()
        invariant
            i <= ps.len(),
            views(acc@) == resolve_parts(views(ps@).take(i as int)),
        decreases ps.len() - i,
    {
        let ghost vs = views(ps@);
        assert(vs.take(i + 1).drop_last() =~= vs.take(i as int));
        assert(vs.take(i + 1).last() == ps@[i as int]@);
        let ghost before = acc@;
        let c = &ps[i];
        if is_dot_dot(c) {
            if acc.len() > 0 {
                acc.pop();
                assert(views(acc@) =~= views(before).drop_last());
            }
        } else {
            let copy = copy_range(c, 0, c.len());
            assert(copy@ =~= c@);
            acc.push(copy);
            assert(views(acc@) =~= views(before).push(c@));
        }
        i += 1;
    }
    assert(views(ps@).take(ps.len() as int) =~= views(ps@));
    acc
}

fn render(absolute: bool, parts: &Vec<Vec<char>>) -> (r: Vec<char>)
    ensures
        r@ == render_path(absolute, views(parts@)),
{
    let body = join_range(parts, 0, parts.len());
    assert(views(parts@).subrange(0, parts.len() as int) =~= views(parts@));
    if absolute {
        let mut r: Vec<char> = vec!['/'];
        append_chars(&mut r, &body);
        r
    } else {
        body
    }
}

/// The path with `.` components removed and each `..` applied to the
/// component before it, as far as there is one.
pub fn normalize_path(path: &str) -> (r: String)
    ensures
        r@ == normalized_path(path@),
{
    let cs = chars_of(path);
    let (absolute, parts) = path_parts(&cs);
    let resolved = resolve(&parts);
    let out = render(absolute, &resolved);
    string_from_chars(out.as_slice())
}

fn path_join_exec(a: &Vec<char>, b: &Vec<char>) -> (r: Vec<char>)
    ensures
        r@ == path_join(a@, b@),
{
    if b.len() > 0 && b[0] == '/' {
        return copy_range(b, 0, b.len());
    }
    let mut out = copy_range(a, 0, a.len());
    assert(out@ =~= a@);
    if out.len() > 0 && out[out.len() - 1] != '/' {
        out.push('/');
    }
    if a.len() == 0 {
        let r = copy_range(b, 0, b.len());
        assert(r@ =~= b@);
        return r;
    }
    append_chars(&mut out, b);
    out
}

fn parts_start_with(s: &Vec<Vec<char>>, p: &Vec<Vec<char>>) -> (r: bool)
    ensures
        r == (views(p@).len() <= views(s@).len() && views(s@).take(views(p@).len() as int) == views(
            p@,
        )),
{
    if p.len() > s.len() {
        return false;
    }
    let mut i: usize = 0;
    while i < p.len()
        invariant
            i <= p.len() <= s.len(),
            views(s@).take(i as int) == views(p@).take(i as int),
        decreases p.len() - i,
    {
        if !same_chars(&s[i], &p[i]) {
            assert(views(s@).take(p.len() as int)[i as int] != views(p@)[i as int]);
            return false;
        }
        i += 1;
        assert(views(s@).take(i as int) =~= views(p@).take(i as int)) by {
            assert(views(s@).take(i as int) =~= views(s@).take(i - 1).push(views(s@)[i - 1]));
            assert(views(p@).take(i as int) =~= views(p@).take(i - 1).push(views(p@)[i - 1]));
        }
    }
    assert(views(p@).take(p.len() as int) =~= views(p@));
    true
}

fn starts_with_chars(s: &Vec<char>, prefix: &Vec<char>) -> (r: bool)
    ensures
        r == path_starts_with(s@, prefix@),
{
    let (sa, sp) = path_parts(s);
    let (pa, pp) = path_parts(prefix);
    sa == pa && parts_start_with(&sp, &pp)
}

/// Why a path was refused.
#[derive(Debug, Clone, Copy, PartialEq, Eq, Structural)]
pub enum PathError {
    /// The path leaves the directory it must stay in.
    OutsideWorkDir,
}

/// The work directory of an extension: `id` under `work_dir`.
pub open spec fn extension_work_dir(work_dir: Seq<char>, id: Seq<char>) -> Seq<char> {
    path_join(work_dir, id)
}

/// Whether `path`, resolved against a directory, stays within it: it is
/// relative, and no `..` among its components removes a component of the
/// directory itself.
pub open spec fn stays_within(path: Seq<char>) -> bool {
    !(path.len() > 0 && path[0] == '/') && normalize_components(components_of(path)) is Some
}

/// The absolute path that `path`, given by the extension `id`, names inside
/// its work directory. Refused where `path` is absolute, where a `..` in it
/// climbs out of the work directory (even if it comes back), or where the
/// result does not lie under the work directory.
pub fn writeable_path_from_extension(work_dir: &str, id: &str, path: &str) -> (r: Result<
    String,
    PathError,
>)
    ensures
        ({
            let dir = extension_work_dir(work_dir@, id@);
            let full = normalized_path(path_join(dir, path@));
            match r {
                Ok(p) => p@ == full && stays_within(path@) && path_starts_with(full, dir),
                Err(_) => !(stays_within(path@) && path_starts_with(full, dir)),
            }
        }),
{
    let w = chars_of(work_dir);
    let i = chars_of(id);
    let p = chars_of(path);
    if p.len() > 0 && p[0] == '/' {
        return Err(PathError::OutsideWorkDir);
    }
    if normalized_components(&p).is_none() {
        return Err(PathError::OutsideWorkDir);
    }
    let dir = path_join_exec(&w, &i);
    let joined = path_join_exec(&dir, &p);
    let text = string_from_chars(joined.as_slice());
    let full = normalize_path(text.as_str());
    let fc = chars_of(full.as_str());
    if starts_with_chars(&fc, &dir) {
        Ok(full)
    } else {
        Err(PathError::OutsideWorkDir)
    }
}

/// The file name of a host path: its last named component, unless that
/// is `..`.
pub open spec fn host_file_name(s: Seq<char>) -> Option<Seq<char>> {
    let parts = path_model(s).1;
    if parts.len() == 0 || parts.last() == seq!['.', '.'] {
        None
    } else {
        Some(parts.last())
    }
}

/// A host path with any verbatim prefix (`\\?\`) removed where it is safe.
pub struct SanitizedPath {
    path: String,
}

impl View for SanitizedPath {
    type V = Seq<char>;

    closed spec fn view(&self) -> Seq<char> {
        self.path@
    }
}

/// Relies on `dunce::simplified`: the path, or the path without its first
/// four characters where it begins with `\\?\`.
#[verifier::external_body]
fn simplified(path: &str) -> (r: String)
    ensures
        r@ == path@ || (path@.len() >= 4 && path@.take(4) == seq!['\\', '\\', '?', '\\'] && r@
            == path@.subrange(4, path@.len() as int)),
{
    dunce::simplified(std::path::Path::new(path)).to_string_lossy().into_owned()
}

impl SanitizedPath {
    pub fn new(path: &str) -> (r: SanitizedPath)
        ensures
            r@ == path@ || (path@.len() >= 4 && path@.take(4) == seq!['\\', '\\', '?', '\\'] && r@
                == path@.subrange(4, path@.len() as int)),
    {
        SanitizedPath { path: simplified(path) }
    }

    pub fn new_arc(path: &str) -> (r: std::sync::Arc<SanitizedPath>)
        ensures
            r@ == path@ || (path@.len() >= 4 && path@.take(4) == seq!['\\', '\\', '?', '\\'] && r@
                == path@.subrange(4, path@.len() as int)),
    {
        std::sync::Arc::new(SanitizedPath::new(path))
    }

    /// Whether the components of `prefix` begin this path.
    pub fn starts_with(&self, prefix: &SanitizedPath) -> (r: bool)
        ensures
            r == path_starts_with(self@, prefix@),
    {
        let s = chars_of(self.path.as_str());
        let p = chars_of(prefix.path.as_str());
        starts_with_chars(&s, &p)
    }

    pub fn as_path(&self) -> (r: &str)
        ensures
            r@ == self@,
    {
        self.path.as_str()
    }

    /// `path` appended to this path.
    pub fn join(&self, path: &str) -> (r: String)
        ensures
            r@ == path_join(self@, path@),
    {
        let s = chars_of(self.path.as_str());
        let p = chars_of(path);
        let j = path_join_exec(&s, &p);
        string_from_chars(j.as_slice())
    }

    /// The path without its last component; `None` where it has none.
    pub fn parent(&self) -> (r: Option<SanitizedPath>)
        ensures
            path_model(self@).1.len() == 0 ==> r is None,
            path_model(self@).1.len() > 0 ==> (r matches Some(p) && p@ == render_path(
                path_model(self@).0,
                path_model(self@).1.drop_last(),
            )),
    {
        let s = chars_of(self.path.as_str());
        let (absolute, parts) = path_parts(&s);
        if parts.len() == 0 {
            return None;
        }
        let body = join_range(&parts, 0, parts.len() - 1);
        assert(views(parts@).subrange(0, parts.len() - 1) =~= views(parts@).drop_last());
        let out = if absolute {
            let mut r: Vec<char> = vec!['/'];
            append_chars(&mut r, &body);
            r
        } else {
            body
        };
        Some(SanitizedPath { path: string_from_chars(out.as_slice()) })
    }

    /// This path relative to `base`, where the components of `base` begin it.
    pub fn strip_prefix(&self, base: &SanitizedPath) -> (r: Option<String>)
        ensures
            path_starts_with(self@, base@) ==> (r matches Some(t) && t@ == join_with(
                path_model(self@).1.subrange(
                    path_model(base@).1.len() as int,
                    path_model(self@).1.len() as int,
                ),
                '/',
            )),
            !path_starts_with(self@, base@) ==> r is None,
    {
        let s = chars_of(self.path.as_str());
        let b = chars_of(base.path.as_str());
        if !starts_with_chars(&s, &b) {
            return None;
        }
        let (_, sp) = path_parts(&s);
        let (_, bp) = path_parts(&b);
        let rest = join_range(&sp, bp.len(), sp.len());
        Some(string_from_chars(rest.as_slice()))
    }

    /// The last component, unless the path has none or it is `..`.
    pub fn file_name(&self) -> (r: Option<String>)
        ensures
            match host_file_name(self@) {
                Some(n) => r matches Some(f) && f@ == n,
                None => r is None,
            },
    {
        let s = chars_of(self.path.as_str());
        let (_, parts) = path_parts(&s);
        if parts.len() == 0 || is_dot_dot(&parts[parts.len() - 1]) {
            return None;
        }
        Some(string_from_chars(parts[parts.len() - 1].as_slice()))
    }

    /// The part of the file name after its last `.`, where there is one
    /// that does not begin the name.
    pub fn extension(&self) -> (r: Option<String>)
        ensures
            match host_file_name(self@) {
                Some(n) => match stem_and_extension(n).1 {
                    Some(e) => r matches Some(x) && x@ == e,
                    None => r is None,
                },
                None => r is None,
            },
    {
        match self.file_name() {
            None => None,
            Some(name) => {
                let f = chars_of(name.as_str());
                match last_dot(&f) {
                    Some(i) => if i > 0 && !is_double_dot(&f) {
                        let ext = copy_range(&f, i + 1, f.len());
                        Some(string_from_chars(ext.as_slice()))
                    } else {
                        None
                    },
                    None => None,
                }
            },
        }
    }

    pub fn to_str(&self) -> (r: Option<&str>)
        ensures
            r matches Some(t) && t@ == self@,
    {
        Some(self.path.as_str())
    }

    pub fn to_path_buf(&self) -> (r: String)
        ensures
            r@ == self@,
    {
        self.path.clone()
    }
}

} // verus!
