//! The HTTP requests that extensions make through the host.
use vstd::prelude::*;
use crate::text::str_eq;

verus! {

/// HTTP methods.
#[derive(Debug, Clone, Copy, PartialEq, Eq, Structural)]
pub enum HttpMethod {
    Get,
    Head,
    Post,
    Put,
    Delete,
    Options,
    Patch,
}

/// The policy for redirects received from the server.
#[derive(Debug, Clone, Copy, PartialEq, Eq, Structural)]
pub enum RedirectPolicy {
    /// Redirects are not followed.
    NoFollow,
    /// Redirects are followed up to the given number.
    FollowLimit(u32),
    /// All redirects are followed.
    FollowAll,
}

impl Default for RedirectPolicy {
    fn default() -> (r: RedirectPolicy)
        ensures
            r == RedirectPolicy::NoFollow,
    {
        RedirectPolicy::NoFollow
    }
}

/// Headers as a mapping: each name once, with its value.
pub type Headers = Vec<(String, String)>;

/// An HTTP request.
#[derive(Debug, Clone)]
pub struct HttpRequest {
    pub method: HttpMethod,
    pub url: String,
    pub headers: Headers,
    pub body: Option<Vec<u8>>,
    pub redirect_policy: RedirectPolicy,
}

/// An HTTP response.
#[derive(Debug, Clone)]
pub struct HttpResponse {
    pub headers: Headers,
    pub body: Vec<u8>,
}

/// A failed HTTP request.
#[derive(Debug, Clone)]
pub enum HttpResponseError {
    Inner(String),
}

/// The names of a header list.
pub open spec fn header_names(h: Seq<(String, String)>) -> Seq<Seq<char>> {
    h.map_values(|p: (String, String)| p.0@)
}

/// The value a header list gives `name`: that of its last entry.
pub open spec fn last_value(h: Seq<(String, String)>, name: Seq<char>) -> Option<Seq<char>>
    decreases h.len(),
{
    if h.len() == 0 {
        None
    } else if h.last().0@ == name {
        Some(h.last().1@)
    } else {
        last_value(h.drop_last(), name)
    }
}

/// Each name at most once.
pub open spec fn names_unique(h: Seq<(String, String)>) -> bool {
    forall|i: int, j: int| 0 <= i < j < h.len() ==> h[i].0@ != h[j].0@
}

proof fn lemma_last_value_unique(h: Seq<(String, String)>, k: int)
    requires
        names_unique(h),
        0 <= k < h.len(),
    ensures
        last_value(h, h[k].0@) == Some(h[k].1@),
    decreases h.len(),
{
    if k < h.len() - 1 {
        assert(h.last().0@ != h[k].0@);
        assert(names_unique(h.drop_last()));
        lemma_last_value_unique(h.drop_last(), k);
    }
}

fn find_name(out: &Vec<(String, String)>, name: &String) -> (r: Option<usize>)
    ensures
        match r {
            Some(j) => j < out@.len() && out@[j as int].0@ == name@,
            None => forall|k: int| 0 <= k < out@.len() ==> out@[k].0@ != name@,
        },
{
    let mut j: usize = 0;
    while j < out.len()
        invariant
            j <= out.len(),
            forall|k: int| 0 <= k < j ==> out@[k].0@ != name@,
        decreases out.len() - j,
    {
        if str_eq(out[j].0.as_str(), name.as_str()) {
            return Some(j);
        }
        j += 1;
    }
    None
}

/// Headers as a mapping: duplicate names collapse to their last value, in
/// the order in which each name first appears.
pub fn collapse_headers(list: &Vec<(String, String)>) -> (r: Headers)
    ensures
        names_unique(r@),
        forall|name: Seq<char>| #[trigger] last_value(r@, name) == last_value(list@, name),
{
    let mut out: Vec<(String, String)> = Vec::new();
    let mut i: usize = 0;
    assert(list@.take(0) =~= Seq::<(String, String)>::empty());
    while i < list.len()
        invariant
            i <= list.len(),
            names_unique(out@),
            forall|name: Seq<char>| #[trigger] last_value(out@, name) == last_value(list@.take(i as int), name),
        decreases list.len() - i,
    {
        assert(list@.take(i + 1).drop_last() =~= list@.take(i as int));
        assert(list@.take(i + 1).last() == list@[i as int]);
        let name = list[i].0.clone();
        let value = list[i].1.clone();
        let ghost before = out@;
        let ghost nv = name@;
        let ghost vv = value@;
        assert(nv == list@[i as int].0@ && vv == list@[i as int].1@);
        match find_name(&out, &name) {
            Some(j) => {
                out.set(j, (name, value));
                proof {
                    assert forall|k: int| 0 <= k < out@.len() implies #[trigger] out@[k].0@ == before[k].0@ by {}
                    assert forall|n: Seq<char>| #[trigger] last_value(out@, n) == last_value(
                        list@.take(i + 1),
                        n,
                    ) by {
                        lemma_replaced_value(before, j as int, out@, n);
                    }
                }
            },
            None => {
                out.push((name, value));
                proof {
                    assert(out@.drop_last() =~= before);
                    assert forall|n: Seq<char>| #[trigger] last_value(out@, n) == last_value(
                        list@.take(i + 1),
                        n,
                    ) by {
                        assert(out@.last().0@ == nv && out@.last().1@ == vv);
                        assert(last_value(before, n) == last_value(list@.take(i as int), n));
                        assert(out@.drop_last() == before);
                        if nv == n {
                            assert(last_value(out@, n) == Some(vv));
                        } else {
                            assert(last_value(out@, n) == last_value(before, n));
                        }
                    }
                    assert forall|a: int, b: int| 0 <= a < b < out@.len() implies out@[a].0@ != out@[b].0@ by {
                        if b < before.len() {
                            assert(out@[a] == before[a] && out@[b] == before[b]);
                        } else {
                            assert(out@[a] == before[a]);
                        }
                    }
                }
            },
        }
        i += 1;
    }
    assert(list@.take(list.len() as int) =~= list@);
    out
}

/// Replacing the entry of a name in a list with unique names changes the
/// value of that name only.
proof fn lemma_replaced_value(before: Seq<(String, String)>, j: int, after: Seq<(String, String)>, n: Seq<char>)
    requires
        names_unique(before),
        0 <= j < before.len(),
        after.len() == before.len(),
        after[j].0@ == before[j].0@,
        forall|k: int| 0 <= k < before.len() && k != j ==> after[k] == before[k],
    ensures
        n == before[j].0@ ==> last_value(after, n) == Some(after[j].1@),
        n != before[j].0@ ==> last_value(after, n) == last_value(before, n),
    decreases before.len(),
{
    if j == before.len() - 1 {
        assert(after.drop_last() =~= before.drop_last());
    } else {
        assert(after.last() == before.last());
        assert(before.last().0@ != before[j].0@);
        assert(names_unique(before.drop_last()));
        lemma_replaced_value(before.drop_last(), j, after.drop_last(), n);
    }
}

} // verus!
