//! Targets whose dot segments would climb above the root. URL resolution
//! clamps such a path at the root, which changes its meaning, so the decoder
//! refuses them instead.
use vstd::prelude::*;
use crate::bytes::{find, find_byte, lemma_find_byte_bounds};

verus! {

pub const SLASH: u8 = 47;

pub const BACKSLASH: u8 = 92;

pub const DOT: u8 = 46;

pub const PERCENT: u8 = 37;

pub const QUESTION: u8 = 63;

pub const HASH: u8 = 35;

pub const COLON: u8 = 58;

/// A path separator: `/`, or `\` as http URLs also read it.
pub open spec fn is_sep(b: u8) -> bool {
    b == SLASH || b == BACKSLASH
}

/// `t[i..j]` is a dot: `.`, or `%2e` in either case.
pub open spec fn is_dot(t: Seq<u8>, i: int, j: int) -> bool {
    ||| (j == i + 1 && t[i] == DOT)
    ||| (j == i + 3 && t[i] == PERCENT && t[i + 1] == 50 && (t[i + 2] == 101 || t[i + 2] == 69))
}

/// `t[i..j]` is two dots, each written as `is_dot` allows.
pub open spec fn is_dot_dot(t: Seq<u8>, i: int, j: int) -> bool {
    ||| (is_dot(t, i, i + 1) && is_dot(t, i + 1, j))
    ||| (is_dot(t, i, i + 3) && is_dot(t, i + 3, j))
}

/// The first separator in `t[i..e]`, or `e`.
pub open spec fn seg_end(t: Seq<u8>, i: int, e: int) -> int
    decreases e - i,
{
    if i >= e {
        e
    } else if is_sep(t[i]) {
        i
    } else {
        seg_end(t, i + 1, e)
    }
}

/// The first `?` or `#` at or after `i`, or `t.len()`: where the path ends.
pub open spec fn path_end(t: Seq<u8>, i: int) -> int
    decreases t.len() - i,
{
    if i >= t.len() {
        t.len() as int
    } else if t[i] == QUESTION || t[i] == HASH {
        i
    } else {
        path_end(t, i + 1)
    }
}

/// Where the path of `t` starts: past `scheme://authority`, or past a leading
/// `//authority`; else at the start.
pub open spec fn path_start(t: Seq<u8>) -> int {
    let s = find_byte(t, SLASH, 0);
    if 1 <= s && s < t.len() && s + 1 < t.len() && t[s - 1] == COLON && t[s + 1] == SLASH {
        seg_end(t, s + 2, t.len() as int)
    } else if 2 <= t.len() && is_sep(t[0]) && is_sep(t[1]) {
        seg_end(t, 2, t.len() as int)
    } else {
        0
    }
}

pub proof fn lemma_seg_end_bounds(t: Seq<u8>, i: int, e: int)
    requires
        0 <= i <= e <= t.len(),
    ensures
        i <= seg_end(t, i, e) <= e,
    decreases e - i,
{
    if i < e && !is_sep(t[i]) {
        lemma_seg_end_bounds(t, i + 1, e);
    }
}

pub proof fn lemma_path_end_bounds(t: Seq<u8>, i: int)
    requires
        0 <= i <= t.len(),
    ensures
        i <= path_end(t, i) <= t.len(),
    decreases t.len() - i,
{
    if i < t.len() && !(t[i] == QUESTION || t[i] == HASH) {
        lemma_path_end_bounds(t, i + 1);
    }
}

#[via_fn]
proof fn climbs_decreases(t: Seq<u8>, i: int, e: int, depth: int) {
    if 0 <= i <= e <= t.len() {
        lemma_seg_end_bounds(t, i, e);
    }
}

/// Whether the segments of `t[i..e]`, walked from `depth` levels below the
/// root, ever climb above it: `..` goes up one level, `.` stays, any other
/// segment (the empty one too) goes down one.
pub open spec fn climbs(t: Seq<u8>, i: int, e: int, depth: int) -> bool
    decreases e - i,
    when 0 <= i <= e <= t.len()
    via climbs_decreases
{
    let j = seg_end(t, i, e);
    let d = if is_dot_dot(t, i, j) {
        depth - 1
    } else if is_dot(t, i, j) {
        depth
    } else {
        depth + 1
    };
    if d < 0 {
        true
    } else if j >= e {
        false
    } else {
        climbs(t, j + 1, e, d)
    }
}

/// Whether resolving `t` against a root would take a `..` above the root.
pub open spec fn spec_climbs_above_root(t: Seq<u8>) -> bool {
    let p = path_start(t);
    let e = path_end(t, 0);
    if p >= e {
        false
    } else if is_sep(t[p]) {
        climbs(t, p + 1, e, 0)
    } else {
        climbs(t, p, e, 0)
    }
}

fn sep_at(t: &[u8], i: usize) -> (r: bool)
    requires
        i < t@.len(),
    ensures
        r == is_sep(t@[i as int]),
{
    t[i] == SLASH || t[i] == BACKSLASH
}

fn dot_at(t: &[u8], i: usize, j: usize) -> (r: bool)
    requires
        i <= j <= t@.len(),
    ensures
        r == is_dot(t@, i as int, j as int),
{
    if j - i == 1 {
        t[i] == DOT
    } else if j - i == 3 {
        t[i] == PERCENT && t[i + 1] == 50 && (t[i + 2] == 101 || t[i + 2] == 69)
    } else {
        false
    }
}

fn dot_dot_at(t: &[u8], i: usize, j: usize) -> (r: bool)
    requires
        i <= j <= t@.len(),
    ensures
        r == is_dot_dot(t@, i as int, j as int),
{
    (j - i >= 1 && dot_at(t, i, i + 1) && dot_at(t, i + 1, j)) || (j - i >= 3 && dot_at(t, i, i + 3)
        && dot_at(t, i + 3, j))
}

fn find_sep(t: &[u8], from: usize, e: usize) -> (r: usize)
    requires
        from <= e <= t@.len(),
    ensures
        r as int == seg_end(t@, from as int, e as int),
{
    let mut i: usize = from;
    while i < e
        invariant
            from <= i <= e <= t@.len(),
            seg_end(t@, from as int, e as int) == seg_end(t@, i as int, e as int),
        decreases e - i,
    {
        if sep_at(t, i) {
            return i;
        }
        i = i + 1;
    }
    i
}

fn find_path_end(t: &[u8]) -> (r: usize)
    ensures
        r as int == path_end(t@, 0),
{
    let mut i: usize = 0;
    while i < t.len()
        invariant
            0 <= i <= t@.len(),
            path_end(t@, 0) == path_end(t@, i as int),
        decreases t@.len() - i,
    {
        if t[i] == QUESTION || t[i] == HASH {
            return i;
        }
        i = i + 1;
    }
    i
}

fn find_path_start(t: &[u8]) -> (r: usize)
    ensures
        r as int == path_start(t@),
{
    let s = find(t, SLASH, 0);
    proof {
        lemma_find_byte_bounds(t@, SLASH, 0);
    }
    if 1 <= s && s < t.len() && s + 1 < t.len() && t[s - 1] == COLON && t[s + 1] == SLASH {
        find_sep(t, s + 2, t.len())
    } else if 2 <= t.len() && sep_at(t, 0) && sep_at(t, 1) {
        find_sep(t, 2, t.len())
    } else {
        0
    }
}

/// Whether resolving the target `t` against a root would take a `..` above it.
pub fn climbs_above_root(t: &[u8]) -> (r: bool)
    ensures
        r == spec_climbs_above_root(t@),
{
    let p = find_path_start(t);
    let e = find_path_end(t);
    if p >= e {
        return false;
    }
    proof {
        lemma_path_end_bounds(t@, 0);
    }
    let mut i: usize = if sep_at(t, p) {
        p + 1
    } else {
        p
    };
    let mut depth: usize = 0;
    let ghost i0 = i as int;
    loop
        invariant
            i0 <= i <= e <= t@.len(),
            depth <= i,
            spec_climbs_above_root(t@) == climbs(t@, i as int, e as int, depth as int),
        decreases e - i,
    {
        let j = find_sep(t, i, e);
        proof {
            lemma_seg_end_bounds(t@, i as int, e as int);
        }
        if dot_dot_at(t, i, j) {
            if depth == 0 {
                return true;
            }
            depth = depth - 1;
        } else if !dot_at(t, i, j) {
            if j >= e {
                return false;
            }
            depth = depth + 1;
        }
        if j >= e {
            return false;
        }
        i = j + 1;
    }
}

} // verus!
