//! Paths as text: absolute paths start with `/`, and joining puts exactly
//! one separator between a directory and a relative path.
use vstd::prelude::*;

use crate::text::chars_of;

verus! {

pub open spec fn is_absolute(p: Seq<char>) -> bool {
    p.len() > 0 && p[0] == '/'
}

/// `rel` inside directory `dir`.
pub open spec fn join_path(dir: Seq<char>, rel: Seq<char>) -> Seq<char> {
    if dir.len() > 0 && dir.last() == '/' {
        dir + rel
    } else {
        dir + seq!['/'] + rel
    }
}

/// `p` itself when absolute, else `p` inside `base`.
pub open spec fn resolve_path(base: Seq<char>, p: Seq<char>) -> Seq<char> {
    if is_absolute(p) {
        p
    } else {
        join_path(base, p)
    }
}

pub fn absolute(p: &str) -> (r: bool)
    ensures
        r == is_absolute(p@),
{
    let c = chars_of(p);
    c.len() > 0 && c[0] == '/'
}

pub fn join(dir: &str, rel: &str) -> (r: String)
    ensures
        r@ == join_path(dir@, rel@),
{
    let c = chars_of(dir);
    let mut r = dir.to_owned();
    if !(c.len() > 0 && c[c.len() - 1] == '/') {
        r.append("/");
        proof {
            reveal_strlit("/");
        }
    }
    r.append(rel);
    r
}

pub fn resolve(base: &str, p: &str) -> (r: String)
    ensures
        r@ == resolve_path(base@, p@),
{
    if absolute(p) {
        p.to_owned()
    } else {
        join(base, p)
    }
}

} // verus!
