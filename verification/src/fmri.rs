//! Splitting a service identifier of the shape
//! `<scheme>:/<path>/<name>:<instance>` into its four parts.
//!
//! The scheme is a non-empty run of lowercase letters; the name carries no
//! `/` and the instance no `:`, so the split points are the last `:` of
//! the remainder and the last `/` before it. A string that cannot be read
//! this way is rejected.

use crate::text::{chars_to_string, str_chars, sub_chars};
use vstd::prelude::*;

verus! {

/// A lowercase ASCII letter.
pub open spec fn is_lower(c: char) -> bool {
    0x61 <= (c as u32) <= 0x7a
}

/// Every character of `s` is a lowercase ASCII letter.
pub open spec fn all_lower(s: Seq<char>) -> bool {
    forall|i: int| 0 <= i < s.len() ==> is_lower(#[trigger] s[i])
}

/// Whether `scheme`, `path`, `name` and `instance` are the four parts of
/// the service identifier `t`: they reassemble it, the scheme is a
/// non-empty lowercase word, the name carries no `/` and the instance no
/// `:`. At most one such split exists.
pub open spec fn is_fmri_split(
    t: Seq<char>,
    scheme: Seq<char>,
    path: Seq<char>,
    name: Seq<char>,
    instance: Seq<char>,
) -> bool {
    &&& t == scheme + seq![':', '/'] + path + seq!['/'] + name + seq![':'] + instance
    &&& scheme.len() > 0
    &&& all_lower(scheme)
    &&& !name.contains('/')
    &&& !instance.contains(':')
}

/// A lowercase ASCII letter.
fn is_lower_ex(c: char) -> (r: bool)
    ensures
        r == is_lower(c),
{
    let u: u32 = c as u32;
    0x61 <= u && u <= 0x7a
}

/// The four parts of a parsed service identifier.
pub struct FmriParts {
    pub scheme: String,
    pub path: String,
    pub name: String,
    pub instance: String,
}

/// Split a service identifier into scheme, path, name and instance, or
/// report that it has no such shape.
pub fn parse_fmri(fmri: &str) -> (r: Option<FmriParts>)
    ensures
        r matches Some(p) ==> is_fmri_split(fmri@, p.scheme@, p.path@, p.name@, p.instance@),
        r is None ==> forall|a: Seq<char>, b: Seq<char>, c: Seq<char>, d: Seq<char>|
            !is_fmri_split(fmri@, a, b, c, d),
{
    let v: Vec<char> = str_chars(fmri);
    let ghost t: Seq<char> = fmri@;
    let n: usize = v.len();

    // The scheme: the maximal lowercase prefix.
    let mut p: usize = 0;
    while p < n && is_lower_ex(v[p])
        invariant
            0 <= p <= n == t.len(),
            v@ == t,
            all_lower(t.subrange(0, p as int)),
        decreases n - p,
    {
        proof {
            assert(forall|i: int|
                0 <= i < p + 1 ==> is_lower(#[trigger] t.subrange(0, p as int + 1)[i]));
        }
        p = p + 1;
    }
    if p == 0 || n - p < 2 || !(v[p] == ':' && v[p + 1] == '/') {
        proof {
            assert forall|a: Seq<char>, b: Seq<char>, c: Seq<char>, d: Seq<char>| !is_fmri_split(
                t,
                a,
                b,
                c,
                d,
            ) by {
                if is_fmri_split(t, a, b, c, d) {
                    let la = a.len() as int;
                    assert(t.len() >= la + 4);
                    assert(t[la] == ':');
                    assert(t[la + 1] == '/');
                    assert(forall|i: int| 0 <= i < la ==> t[i] == a[i] && is_lower(#[trigger] t[i]));
                    if la < p {
                        assert(is_lower(t.subrange(0, p as int)[la]));
                    } else if la > p {
                        assert(is_lower(t[p as int]));
                        assert(p < n);
                    }
                }
            }
        }
        return None;
    }

    // The last `:` of the remainder marks the instance.
    let mut j: usize = 0;
    let mut has_j: bool = false;
    let mut k: usize = p + 2;
    while k < n
        invariant
            p + 2 <= k <= n == t.len(),
            v@ == t,
            has_j ==> p + 2 <= j < k && t[j as int] == ':',
            forall|i: int| (if has_j { j + 1 } else { p + 2 }) <= i < k ==> t[i] != ':',
        decreases n - k,
    {
        if v[k] == ':' {
            j = k;
            has_j = true;
        }
        k = k + 1;
    }
    if !has_j {
        proof {
            assert forall|a: Seq<char>, b: Seq<char>, c: Seq<char>, d: Seq<char>| !is_fmri_split(
                t,
                a,
                b,
                c,
                d,
            ) by {
                if is_fmri_split(t, a, b, c, d) {
                    let la = a.len() as int;
                    let jd = la + 2 + b.len() + 1 + c.len();
                    assert(t[jd] == ':');
                    assert(la == p) by {
                        assert(forall|i: int|
                            0 <= i < la ==> t[i] == a[i] && is_lower(#[trigger] t[i]));
                        if la < p {
                            assert(is_lower(t.subrange(0, p as int)[la]));
                            assert(t[la] == ':');
                        } else if la > p {
                            assert(is_lower(t[p as int]));
                            assert(p < n);
                        }
                    }
                    assert(p + 2 <= jd < n);
                }
            }
        }
        return None;
    }

    // The last `/` before that marks the name.
    let mut i2: usize = 0;
    let mut has_i: bool = false;
    let mut k2: usize = p + 2;
    while k2 < j
        invariant
            p + 2 <= k2 <= j < n == t.len(),
            v@ == t,
            has_i ==> p + 2 <= i2 < k2 && t[i2 as int] == '/',
            forall|i: int| (if has_i { i2 + 1 } else { p + 2 }) <= i < k2 ==> t[i] != '/',
        decreases j - k2,
    {
        if v[k2] == '/' {
            i2 = k2;
            has_i = true;
        }
        k2 = k2 + 1;
    }
    proof {
        // `j` is the last `:` of the remainder, so any split's instance
        // separator sits exactly at `j`.
        assert forall|a: Seq<char>, b: Seq<char>, c: Seq<char>, d: Seq<char>| is_fmri_split(
            t,
            a,
            b,
            c,
            d,
        ) implies a.len() + 2 + b.len() + 1 + c.len() == j as int && a.len() == p as int by {
            let la = a.len() as int;
            assert(forall|i: int| 0 <= i < la ==> t[i] == a[i] && is_lower(#[trigger] t[i]));
            assert(la == p) by {
                if la < p {
                    assert(is_lower(t.subrange(0, p as int)[la]));
                    assert(t[la] == ':');
                } else if la > p {
                    assert(is_lower(t[p as int]));
                    assert(p < n);
                }
            }
            let jd = la + 2 + b.len() + 1 + c.len();
            assert(t[jd] == ':');
            assert(forall|i: int| jd < i < t.len() ==> t[i] == d[i - jd - 1]);
            assert(forall|i: int| jd < i < t.len() ==> #[trigger] t[i] != ':') by {
                assert(forall|i: int| 0 <= i < d.len() ==> #[trigger] d[i] != ':');
            }
            if jd < j {
                assert(t[j as int] != ':');
            } else if jd > j {
                assert(t[jd] != ':');
            }
        }
    }
    if !has_i {
        proof {
            assert forall|a: Seq<char>, b: Seq<char>, c: Seq<char>, d: Seq<char>| !is_fmri_split(
                t,
                a,
                b,
                c,
                d,
            ) by {
                if is_fmri_split(t, a, b, c, d) {
                    let id = a.len() as int + 2 + b.len();
                    assert(t[id] == '/');
                    assert(p + 2 <= id < j);
                }
            }
        }
        return None;
    }

    let scheme: Vec<char> = sub_chars(&v, 0, p);
    let path: Vec<char> = sub_chars(&v, p + 2, i2);
    let name: Vec<char> = sub_chars(&v, i2 + 1, j);
    let instance: Vec<char> = sub_chars(&v, j + 1, n);
    proof {
        assert(t =~= scheme@ + seq![':', '/'] + path@ + seq!['/'] + name@ + seq![':'] + instance@);
        assert(forall|i: int|
            0 <= i < scheme@.len() ==> is_lower(#[trigger] scheme@[i]) && scheme@[i]
                == t.subrange(0, p as int)[i]);
        assert(!name@.contains('/')) by {
            if name@.contains('/') {
                let w = choose|w: int| 0 <= w < name@.len() && name@[w] == '/';
                assert(t[i2 + 1 + w] == '/');
            }
        }
        assert(!instance@.contains(':')) by {
            if instance@.contains(':') {
                let w = choose|w: int| 0 <= w < instance@.len() && instance@[w] == ':';
                assert(t[j + 1 + w] == ':');
            }
        }
    }
    Some(
        FmriParts {
            scheme: chars_to_string(&scheme),
            path: chars_to_string(&path),
            name: chars_to_string(&name),
            instance: chars_to_string(&instance),
        },
    )
}

} // verus!
