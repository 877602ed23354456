use vstd::prelude::*;

use crate::text::chars_of;

verus! {

/// Whether `pattern` accepts `filename`: `*` accepts every name, `*.<ext>`
/// accepts every name that ends in `.<ext>`, and any other pattern accepts
/// only itself.
pub open spec fn glob_matches(pattern: Seq<char>, filename: Seq<char>) -> bool {
    if pattern == seq!['*'] {
        true
    } else if pattern.len() >= 2 && pattern[0] == '*' && pattern[1] == '.' {
        let suffix = pattern.subrange(1, pattern.len() as int);
        filename.len() >= suffix.len() && filename.subrange(
            filename.len() - suffix.len(),
            filename.len() as int,
        ) == suffix
    } else {
        pattern == filename
    }
}

/// Whether `a[a_start..a_start + len]` and `b[b_start..b_start + len]` hold the
/// same characters.
fn same_run(a: &Vec<char>, a_start: usize, b: &Vec<char>, b_start: usize, len: usize) -> (r: bool)
    requires
        a_start + len <= a.len(),
        b_start + len <= b.len(),
    ensures
        r == (a@.subrange(a_start as int, a_start + len) == b@.subrange(
            b_start as int,
            b_start + len,
        )),
{
    let mut k: usize = 0;
    while k < len
        invariant
            k <= len,
            a_start + len <= a.len(),
            b_start + len <= b.len(),
            a@.subrange(a_start as int, a_start + k) == b@.subrange(b_start as int, b_start + k),
        decreases len - k,
    {
        if a[a_start + k] != b[b_start + k] {
            assert(a@.subrange(a_start as int, a_start + len)[k as int] != b@.subrange(
                b_start as int,
                b_start + len,
            )[k as int]);
            return false;
        }
        assert(a@.subrange(a_start as int, a_start + k + 1) =~= a@.subrange(
            a_start as int,
            a_start + k,
        ).push(a@[a_start + k]));
        assert(b@.subrange(b_start as int, b_start + k + 1) =~= b@.subrange(
            b_start as int,
            b_start + k,
        ).push(b@[b_start + k]));
        k = k + 1;
    }
    true
}

/// Whether `pattern` accepts `filename` (see [`glob_matches`]).
pub fn glob_match(pattern: &str, filename: &str) -> (r: bool)
    ensures
        r == glob_matches(pattern@, filename@),
{
    let p = chars_of(pattern);
    let f = chars_of(filename);
    if p.len() == 1 && p[0] == '*' {
        assert(p@ =~= seq!['*']);
        return true;
    }
    assert(p@ != seq!['*']);
    if p.len() >= 2 && p[0] == '*' && p[1] == '.' {
        let n = p.len() - 1;
        if f.len() < n {
            return false;
        }
        return same_run(&f, f.len() - n, &p, 1, n);
    }
    if p.len() != f.len() {
        return false;
    }
    let r = same_run(&p, 0, &f, 0, p.len());
    assert(p@.subrange(0, p.len() as int) =~= p@);
    assert(f@.subrange(0, f.len() as int) =~= f@);
    r
}

} // verus!
