//! File paths, as text.

use crate::text::{begins, ends, finishes, joined, starts};
use vstd::prelude::*;

verus! {

/// `name` under the directory `base`. An absolute name stands for itself.
pub open spec fn under(base: Seq<char>, name: Seq<char>) -> Seq<char> {
    if base.len() == 0 || starts(name, "/"@) {
        name
    } else if ends(base, "/"@) {
        base + name
    } else {
        base + "/"@ + name
    }
}

/// `name` under the directory `base`.
pub fn path_join(base: &str, name: &str) -> (r: String)
    ensures
        r@ == under(base@, name@),
{
    if base.is_empty() || begins(name, "/") {
        name.to_owned()
    } else if finishes(base, "/") {
        joined(base, name)
    } else {
        joined(joined(base, "/").as_str(), name)
    }
}

/// Under one directory, different relative names give different paths.
pub proof fn law_under_is_injective(base: Seq<char>, a: Seq<char>, b: Seq<char>)
    requires
        !starts(a, "/"@),
        !starts(b, "/"@),
        under(base, a) == under(base, b),
    ensures
        a == b,
{
    let p = under(base, a);
    let n = if base.len() == 0 {
        0
    } else if ends(base, "/"@) {
        base.len() as int
    } else {
        (base + "/"@).len() as int
    };
    assert(a =~= p.skip(n));
    assert(b =~= p.skip(n));
}

/// A relative name goes behind the directory, with one slash between them; an absolute one
/// stands for itself, and so does any name where there is no directory.
pub proof fn law_under(base: Seq<char>, name: Seq<char>)
    ensures
        name.len() > 0 && name[0] == '/' ==> under(base, name) == name,
        base.len() == 0 ==> under(base, name) == name,
        base.len() > 0 && base.last() == '/' && !(name.len() > 0 && name[0] == '/') ==> under(
            base,
            name,
        ) == base + name,
        base.len() > 0 && base.last() != '/' && !(name.len() > 0 && name[0] == '/') ==> under(
            base,
            name,
        ) == base.push('/') + name,
{
    reveal_strlit("/");
    let slash = "/"@;
    assert(slash =~= seq!['/']);
    if name.len() > 0 {
        assert(name.subrange(0, 1)[0] == name[0]);
        if name[0] == '/' {
            assert(name.subrange(0, 1) =~= slash);
        }
    }
    if base.len() > 0 {
        let n = base.len() as int;
        assert(base.subrange(n - 1, n)[0] == base.last());
        if base.last() == '/' {
            assert(base.subrange(n - 1, n) =~= slash);
        }
        assert(base + slash =~= base.push('/'));
    }
}

} // verus!
