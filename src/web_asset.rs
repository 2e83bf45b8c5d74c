use vstd::prelude::*;

verus! {

/// The first component of the path `s` is `name`: `s` is `name` alone, or
/// `name` followed by a separator.
pub open spec fn first_component_is(s: Seq<char>, name: Seq<char>) -> bool {
    name.is_prefix_of(s) && (s.len() == name.len() || s[name.len() as int] == '/')
}

/// `s` is a locator that must be fetched over the web: its first path
/// component is the scheme `http:` or `https:`.
pub open spec fn is_http_locator(s: Seq<char>) -> bool {
    first_component_is(s, "http:"@) || first_component_is(s, "https:"@)
}

fn starts_with(s: &str, prefix: &str) -> (r: bool)
    ensures
        r == prefix@.is_prefix_of(s@),
{
    let n = prefix.unicode_len();
    if n > s.unicode_len() {
        return false;
    }
    let mut i: usize = 0;
    while i < n
        invariant
            i <= n,
            n == prefix@.len(),
            n <= s@.len(),
            forall|j: int| 0 <= j < i ==> s@[j] == prefix@[j],
        decreases n - i,
    {
        if s.get_char(i) != prefix.get_char(i) {
            return false;
        }
        i = i + 1;
    }
    assert(prefix@ =~= s@.subrange(0, n as int));
    true
}

fn has_first_component(s: &str, name: &str) -> (r: bool)
    ensures
        r == first_component_is(s@, name@),
{
    if !starts_with(s, name) {
        return false;
    }
    let n = name.unicode_len();
    n == s.unicode_len() || s.get_char(n) == '/'
}

/// Whether the asset at `path` is fetched over HTTP(S) rather than read
/// from the local asset store.
pub fn is_http(path: &str) -> (r: bool)
    ensures
        r == is_http_locator(path@),
{
    has_first_component(path, "http:") || has_first_component(path, "https:")
}

} // verus!
