//! File paths as text, with `/` between components.

use crate::text;
use vstd::prelude::*;

verus! {

/// `rest` under the directory `base`; an absolute `rest` stands for itself.
pub open spec fn joined(base: Seq<char>, rest: Seq<char>) -> Seq<char> {
    if rest.len() > 0 && rest[0] == '/' {
        rest
    } else if base.len() == 0 || base.last() == '/' {
        base + rest
    } else {
        base + seq!['/'] + rest
    }
}

/// `rest` under the directory `base`.
pub fn join(base: &str, rest: &str) -> (r: String)
    ensures
        r@ == joined(base@, rest@),
{
    let b = text::chars(base);
    let p = text::chars(rest);
    if p.len() > 0 && p[0] == '/' {
        return rest.to_string();
    }
    let mut r = base.to_string();
    if b.len() > 0 && b[b.len() - 1] != '/' {
        r.push('/');
    }
    r.append(rest);
    assert(r@ =~= joined(base@, rest@));
    r
}

} // verus!
