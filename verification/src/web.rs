//! Which bundled file answers a request for the web interface.
use vstd::prelude::*;

use crate::export::strip_slashes;
use crate::text::{chars_of, contains, contains_exec, push_range, string_of};

verus! {

/// The bundled file asked for by a request path: the path without leading
/// `/`, or `index.html` for the root.
pub open spec fn asset_path_spec(uri_path: Seq<char>) -> Seq<char> {
    let p = strip_slashes(uri_path);
    if p.len() == 0 {
        "index.html"@
    } else {
        p
    }
}

/// The bundled file asked for by a request path.
pub fn asset_path(uri_path: &str) -> (s: String)
    ensures
        s@ == asset_path_spec(uri_path@),
{
    let w = chars_of(uri_path);
    let mut a: usize = 0;
    assert(w@.skip(0) =~= w@);
    while a < w.len() && w[a] == '/'
        invariant
            a <= w.len(),
            w@ == uri_path@,
            strip_slashes(w@) == strip_slashes(w@.skip(a as int)),
        decreases w.len() - a,
    {
        assert(w@.skip(a as int).drop_first() =~= w@.skip(a + 1));
        a = a + 1;
    }
    let mut p: Vec<char> = Vec::new();
    push_range(&mut p, &w, a, w.len());
    assert(p@ =~= w@.skip(a as int));
    if p.len() == 0 {
        return "index.html".to_owned();
    }
    string_of(&p)
}

/// Whether a path with no bundled file is answered with the application's page
/// (a route of the page itself) rather than "not found" (a missing file, which
/// has a `.` in its name).
pub fn falls_back_to_index(path: &str) -> (b: bool)
    ensures
        b == !contains(path@, "."@),
{
    proof {
        reveal_strlit(".");
    }
    !contains_exec(&chars_of(path), &chars_of("."))
}

} // verus!
