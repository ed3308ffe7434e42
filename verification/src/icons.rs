//! Group icons: which icon ids the icon folder holds.

use vstd::prelude::*;
use crate::text::text_eq;
use crate::firetest::{parse_u64, parse_u64_spec};

verus! {

/// The icon id of a file, from its stem and extension: a `png` whose stem reads as a
/// `u32`.
pub open spec fn icon_id_of(stem: Seq<char>, ext: Seq<char>) -> Option<u32> {
    if ext == "png"@ {
        match parse_u64_spec(stem) {
            Some(v) => if v <= u32::MAX { Some(v as u32) } else { None },
            None => None,
        }
    } else {
        None
    }
}

pub open spec fn strictly_increasing(s: Seq<u32>) -> bool {
    forall|i: int, j: int| 0 <= i < j < s.len() ==> s[i] < s[j]
}

/// Some file of `files` (stem, extension) is icon `x`.
pub open spec fn names_icon(files: Seq<(String, String)>, x: u32) -> bool {
    exists|i: int| 0 <= i < files.len() && icon_id_of((#[trigger] files[i]).0@, files[i].1@) == Some(x)
}

fn icon_id(stem: &str, ext: &str) -> (r: Option<u32>)
    ensures
        r == icon_id_of(stem@, ext@),
{
    if !text_eq(ext, "png") {
        return None;
    }
    match parse_u64(stem) {
        Some(v) => if v <= u32::MAX as u64 { Some(v as u32) } else { None },
        None => None,
    }
}

/// The icon ids of the folder's files (each file by its stem and extension, an empty
/// extension for none), each once, in increasing order.
pub fn icon_ids(files: &Vec<(String, String)>) -> (ids: Vec<u32>)
    ensures
        strictly_increasing(ids@),
        forall|x: u32| ids@.contains(x) <==> names_icon(files@, x),
{
    let mut out: Vec<u32> = Vec::new();
    let mut i: usize = 0;
    while i < files.len()
        invariant
            i <= files@.len(),
            strictly_increasing(out@),
            forall|x: u32| out@.contains(x) <==> names_icon(files@.subrange(0, i as int), x),
        decreases files@.len() - i,
    {
        let ghost before = out@;
        assert(forall|y: u32| before.contains(y) <==> names_icon(files@.subrange(0, i as int), y));
        let found = icon_id(files[i].0.as_str(), files[i].1.as_str());
        proof {
            assert forall|x: u32| names_icon(files@.subrange(0, i + 1), x) <==>
                (names_icon(files@.subrange(0, i as int), x) || found == Some(x)) by {
                let s1 = files@.subrange(0, i + 1);
                let s0 = files@.subrange(0, i as int);
                if names_icon(s1, x) {
                    let k = choose|k: int| 0 <= k < s1.len() && icon_id_of((#[trigger] s1[k]).0@, s1[k].1@) == Some(x);
                    if k < i {
                        assert(s0[k] == s1[k]);
                    } else {
                        assert(s1[k] == files@[i as int]);
                    }
                }
                if names_icon(s0, x) {
                    let k = choose|k: int| 0 <= k < s0.len() && icon_id_of((#[trigger] s0[k]).0@, s0[k].1@) == Some(x);
                    assert(s1[k] == s0[k]);
                }
                if found == Some(x) {
                    assert(s1[i as int] == files@[i as int]);
                }
            }
        }
        match found {
            Some(x) => {
                let mut p: usize = 0;
                while p < out.len() && out[p] < x
                    invariant
                        p <= out@.len(),
                        out@ == before,
                        forall|k: int| 0 <= k < p ==> out@[k] < x,
                    decreases out@.len() - p,
                {
                    p = p + 1;
                }
                if p < out.len() && out[p] == x {
                    proof {
                        assert(before[p as int] == x);
                        assert forall|y: u32| out@.contains(y) <==> (before.contains(y) || found == Some(y)) by {
                            if y == x {
                                assert(before.contains(x));
                            }
                        }
                    }
                } else {
                    proof {
                        assert forall|k: int| p <= k < before.len() implies before[k] > x by {
                            assert(before[p as int] >= x);
                            if k > p {
                                assert(before[p as int] < before[k]);
                            }
                        }
                    }
                    out.insert(p, x);
                    proof {
                        let t = out@;
                        assert(t =~= before.insert(p as int, x));
                        assert forall|a: int, b: int| 0 <= a < b < t.len() implies t[a] < t[b] by {
                            if b < p {
                                assert(t[a] == before[a] && t[b] == before[b]);
                            } else if b == p {
                                assert(t[a] == before[a]);
                            } else if a < p {
                                assert(t[a] == before[a] && t[b] == before[b - 1]);
                            } else if a == p {
                                assert(t[b] == before[b - 1]);
                            } else {
                                assert(t[a] == before[a - 1] && t[b] == before[b - 1]);
                            }
                        }
                        assert forall|y: u32| t.contains(y) <==> (before.contains(y) || y == x) by {
                            if t.contains(y) {
                                let k = choose|k: int| 0 <= k < t.len() && t[k] == y;
                                if k < p {
                                    assert(before[k] == y);
                                } else if k > p {
                                    assert(before[k - 1] == y);
                                }
                            }
                            if before.contains(y) {
                                let k = choose|k: int| 0 <= k < before.len() && before[k] == y;
                                if k < p {
                                    assert(t[k] == y);
                                } else {
                                    assert(t[k + 1] == y);
                                }
                            }
                            if y == x {
                                assert(t[p as int] == x);
                            }
                        }
                        assert forall|y: u32| out@.contains(y) <==> (before.contains(y) || found == Some(y)) by {}
                    }
                }
            },
            None => {
                proof {
                    assert forall|y: u32| out@.contains(y) <==> (before.contains(y) || found == Some(y)) by {}
                }
            },
        }
        proof {
            assert forall|y: u32| out@.contains(y) <==> names_icon(files@.subrange(0, i + 1), y) by {
                assert(out@.contains(y) <==> (before.contains(y) || found == Some(y)));
                assert(before.contains(y) <==> names_icon(files@.subrange(0, i as int), y));
                assert(names_icon(files@.subrange(0, i + 1), y) <==> (names_icon(files@.subrange(0, i as int), y) || found == Some(y)));
            }
        }
        i = i + 1;
    }
    proof {
        assert(files@.subrange(0, files@.len() as int) =~= files@);
    }
    out
}

} // verus!
