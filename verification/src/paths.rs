//! Paths as text, joined the way `PathBuf::push` joins them on Unix.

use vstd::prelude::*;
use crate::text::{chars_of, string_of};
use crate::manifest::push_chars_vec;

verus! {

/// `rel` pushed onto `base`: an absolute `rel` replaces `base`; otherwise a
/// `/` goes between them unless `base` is empty or already ends with one.
pub open spec fn path_join(base: Seq<char>, rel: Seq<char>) -> Seq<char> {
    if rel.len() > 0 && rel[0] == '/' {
        rel
    } else if base.len() == 0 || base.last() == '/' {
        base + rel
    } else {
        base + seq!['/'] + rel
    }
}

/// Joins `rel` onto `base`.
pub fn join_chars(base: &Vec<char>, rel: &Vec<char>) -> (r: Vec<char>)
    ensures
        r@ == path_join(base@, rel@),
{
    if rel.len() > 0 && rel[0] == '/' {
        let mut out: Vec<char> = Vec::new();
        push_chars_vec(&mut out, rel);
        assert(out@ =~= rel@);
        out
    } else {
        let mut out: Vec<char> = Vec::new();
        push_chars_vec(&mut out, base);
        if !(base.len() == 0 || base[base.len() - 1] == '/') {
            out.push('/');
        }
        push_chars_vec(&mut out, rel);
        assert(out@ =~= path_join(base@, rel@));
        out
    }
}

/// Joins `rel` onto `base`.
pub fn join_path(base: &str, rel: &str) -> (r: String)
    ensures
        r@ == path_join(base@, rel@),
{
    let b = chars_of(base);
    let x = chars_of(rel);
    let j = join_chars(&b, &x);
    string_of(j.as_slice())
}

/// The text `a` followed by `b`.
pub fn concat(a: &str, b: &str) -> (r: String)
    ensures
        r@ == a@ + b@,
{
    let mut v = chars_of(a);
    let w = chars_of(b);
    push_chars_vec(&mut v, &w);
    string_of(v.as_slice())
}

} // verus!
