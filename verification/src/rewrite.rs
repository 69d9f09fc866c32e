//! Verified replacement of all non-overlapping occurrences of one pattern by
//! another in a character sequence, scanning left to right.

use vstd::prelude::*;

verus! {

/// Whether `s` begins with the pattern `p`.
pub open spec fn starts_with(s: Seq<char>, p: Seq<char>) -> bool {
    p.len() <= s.len() && s.subrange(0, p.len() as int) == p
}

/// The text obtained from `s` by replacing every non-overlapping occurrence
/// of `p` by `r`, scanning left to right.
pub open spec fn replace_all_spec(s: Seq<char>, p: Seq<char>, r: Seq<char>) -> Seq<char>
    decreases s.len(),
{
    if p.len() == 0 || s.len() == 0 {
        s
    } else if starts_with(s, p) {
        r + replace_all_spec(s.skip(p.len() as int), p, r)
    } else {
        seq![s[0]] + replace_all_spec(s.skip(1), p, r)
    }
}

/// How many non-overlapping occurrences of `p` a left-to-right scan of `s`
/// finds.
pub open spec fn occ_count(s: Seq<char>, p: Seq<char>) -> nat
    decreases s.len(),
{
    if p.len() == 0 || s.len() == 0 {
        0
    } else if starts_with(s, p) {
        1 + occ_count(s.skip(p.len() as int), p)
    } else {
        occ_count(s.skip(1), p)
    }
}

/// Whether `w` stands in `s` at position `i`.
pub open spec fn match_at(s: Seq<char>, w: Seq<char>, i: int) -> bool {
    0 <= i && i + w.len() <= s.len() && s.subrange(i, i + w.len()) == w
}

/// Whether no character of `u` equals `c`.
spec fn free_of(u: Seq<char>, c: char) -> bool {
    forall|i: int| 0 <= i < u.len() ==> u[i] != c
}

/// Whether the first character of `p` recurs nowhere else in `p`.
pub open spec fn head_unique(p: Seq<char>) -> bool {
    forall|i: int| 1 <= i < p.len() ==> #[trigger] p[i] != p[0]
}

proof fn lemma_starts_with_tail(s: Seq<char>, w: Seq<char>)
    requires
        w.len() > 0,
        starts_with(s, w),
    ensures
        s.len() > 0,
        s[0] == w[0],
        starts_with(s.skip(1), w.skip(1)),
{
    assert(s.subrange(0, w.len() as int)[0] == w[0]);
    assert(s.skip(1).subrange(0, w.len() - 1) =~= w.skip(1)) by {
        assert forall|j: int| 0 <= j < w.len() - 1 implies s.skip(1).subrange(0, w.len() - 1)[j]
            == w.skip(1)[j] by {
            assert(s.subrange(0, w.len() as int)[j + 1] == w[j + 1]);
        }
    }
}

proof fn lemma_starts_with_cons(s: Seq<char>, w: Seq<char>)
    requires
        s.len() > 0,
        w.len() > 0,
        s[0] == w[0],
        starts_with(s.skip(1), w.skip(1)),
    ensures
        starts_with(s, w),
{
    assert(s.subrange(0, w.len() as int) =~= w) by {
        assert forall|j: int| 0 <= j < w.len() implies s.subrange(0, w.len() as int)[j] == w[j] by {
            if j > 0 {
                assert(s.skip(1).subrange(0, w.len() - 1)[j - 1] == w.skip(1)[j - 1]);
            }
        }
    }
}

/// A match beyond a leading block stands in the rest of the text, at the
/// position shifted by the block's length.
proof fn lemma_match_at_after(u: Seq<char>, t: Seq<char>, w: Seq<char>, i: int)
    requires
        i >= u.len(),
    ensures
        match_at(u + t, w, i) <==> match_at(t, w, i - u.len()),
{
    let s = u + t;
    if 0 <= i && i + w.len() <= s.len() {
        assert(s.subrange(i, i + w.len()) =~= t.subrange(i - u.len(), i - u.len() + w.len()));
    }
}

/// A prefix in which the pattern's first character never appears adds no
/// occurrence: the scan walks straight through it.
proof fn lemma_occ_free_prefix(u: Seq<char>, t: Seq<char>, p: Seq<char>)
    requires
        p.len() > 0,
        free_of(u, p[0]),
    ensures
        occ_count(u + t, p) == occ_count(t, p),
    decreases u.len(),
{
    if u.len() == 0 {
        assert(u + t =~= t);
    } else {
        let s = u + t;
        if starts_with(s, p) {
            assert(s.subrange(0, p.len() as int)[0] == p[0]);
            assert(false);
        }
        assert(s.skip(1) =~= u.skip(1) + t);
        assert(free_of(u.skip(1), p[0])) by {
            assert forall|i: int| 0 <= i < u.skip(1).len() implies u.skip(1)[i] != p[0] by {
                assert(u.skip(1)[i] == u[i + 1]);
            }
        }
        lemma_occ_free_prefix(u.skip(1), t, p);
    }
}

/// The scan copies a prefix in which the pattern's first character never
/// appears verbatim.
proof fn lemma_replace_free_prefix(u: Seq<char>, t: Seq<char>, p: Seq<char>, r: Seq<char>)
    requires
        p.len() > 0,
        free_of(u, p[0]),
    ensures
        replace_all_spec(u + t, p, r) == u + replace_all_spec(t, p, r),
    decreases u.len(),
{
    if u.len() == 0 {
        assert(u + t =~= t);
        assert(u + replace_all_spec(t, p, r) =~= replace_all_spec(t, p, r));
    } else {
        let s = u + t;
        if starts_with(s, p) {
            assert(s.subrange(0, p.len() as int)[0] == p[0]);
            assert(false);
        }
        assert(s.skip(1) =~= u.skip(1) + t);
        assert(free_of(u.skip(1), p[0])) by {
            assert forall|i: int| 0 <= i < u.skip(1).len() implies u.skip(1)[i] != p[0] by {
                assert(u.skip(1)[i] == u[i + 1]);
            }
        }
        lemma_replace_free_prefix(u.skip(1), t, p, r);
        assert(replace_all_spec(s, p, r) =~= u + replace_all_spec(t, p, r));
    }
}

/// What one emitted replacement block contributes to the two scans: none of
/// the pattern, exactly one of the replacement.
proof fn lemma_occ_after_rep(x: Seq<char>, p: Seq<char>, r: Seq<char>)
    requires
        p.len() > 0,
        p.len() == r.len(),
        p != r,
        p[0] == r[0],
        head_unique(r),
    ensures
        occ_count(r + x, p) == occ_count(x, p),
        occ_count(r + x, r) == 1 + occ_count(x, r),
{
    let s = r + x;
    assert(s.subrange(0, r.len() as int) =~= r);
    if starts_with(s, p) {
        assert(s.subrange(0, p.len() as int) =~= r);
        assert(false);
    }
    assert(s.skip(1) =~= r.skip(1) + x);
    assert(free_of(r.skip(1), p[0])) by {
        assert forall|i: int| 0 <= i < r.skip(1).len() implies r.skip(1)[i] != p[0] by {
            assert(r.skip(1)[i] == r[i + 1]);
        }
    }
    lemma_occ_free_prefix(r.skip(1), x, p);
    assert(starts_with(s, r));
    assert(s.skip(r.len() as int) =~= x);
}

/// If the replaced text begins with a sequence in which the pattern's first
/// character never appears, the unreplaced text began with that sequence too.
proof fn lemma_replace_starts_with(t: Seq<char>, w: Seq<char>, p: Seq<char>, r: Seq<char>)
    requires
        p.len() > 0,
        r.len() > 0,
        r[0] == p[0],
        free_of(w, p[0]),
        starts_with(replace_all_spec(t, p, r), w),
    ensures
        starts_with(t, w),
    decreases w.len(),
{
    if w.len() == 0 {
        assert(t.subrange(0, 0) =~= w);
    } else {
        let rt = replace_all_spec(t, p, r);
        lemma_starts_with_tail(rt, w);
        if t.len() == 0 {
            assert(false);
        } else if starts_with(t, p) {
            assert(rt == r + replace_all_spec(t.skip(p.len() as int), p, r));
            assert(rt[0] == r[0]);
            assert(w[0] != p[0]);
            assert(false);
        } else {
            assert(rt == seq![t[0]] + replace_all_spec(t.skip(1), p, r));
            assert(rt[0] == t[0]);
            assert(rt.skip(1) =~= replace_all_spec(t.skip(1), p, r));
            assert(free_of(w.skip(1), p[0])) by {
                assert forall|i: int| 0 <= i < w.skip(1).len() implies w.skip(1)[i] != p[0] by {
                    assert(w.skip(1)[i] == w[i + 1]);
                }
            }
            lemma_replace_starts_with(t.skip(1), w.skip(1), p, r);
            lemma_starts_with_cons(t, w);
        }
    }
}

/// Where neither pattern stands at the head of the text, neither stands at
/// the head of the replaced text: a replacement further along cannot create
/// one there, because everything up to the next occurrence is copied and the
/// patterns' first character recurs in neither.
proof fn lemma_no_fresh_head_match(s: Seq<char>, p: Seq<char>, r: Seq<char>)
    requires
        p.len() > 0,
        r.len() > 0,
        p[0] == r[0],
        head_unique(p),
        head_unique(r),
        s.len() > 0,
        !starts_with(s, p),
        !starts_with(s, r),
    ensures
        !starts_with(replace_all_spec(s, p, r), p),
        !starts_with(replace_all_spec(s, p, r), r),
{
    let s1 = s.skip(1);
    let rs = replace_all_spec(s, p, r);
    let rs1 = replace_all_spec(s1, p, r);
    assert(rs == seq![s[0]] + rs1);
    assert(rs.skip(1) =~= rs1);
    assert(free_of(p.skip(1), p[0])) by {
        assert forall|i: int| 0 <= i < p.skip(1).len() implies p.skip(1)[i] != p[0] by {
            assert(p.skip(1)[i] == p[i + 1]);
        }
    }
    assert(free_of(r.skip(1), p[0])) by {
        assert forall|i: int| 0 <= i < r.skip(1).len() implies r.skip(1)[i] != p[0] by {
            assert(r.skip(1)[i] == r[i + 1]);
        }
    }
    if starts_with(rs, p) {
        assert(rs.subrange(0, p.len() as int)[0] == p[0]);
        lemma_starts_with_tail(rs, p);
        lemma_replace_starts_with(s1, p.skip(1), p, r);
        lemma_starts_with_cons(s, p);
        assert(false);
    }
    if starts_with(rs, r) {
        assert(rs.subrange(0, r.len() as int)[0] == r[0]);
        lemma_starts_with_tail(rs, r);
        lemma_replace_starts_with(s1, r.skip(1), p, r);
        lemma_starts_with_cons(s, r);
        assert(false);
    }
}

/// Replacement removes every occurrence of the pattern and leaves one
/// occurrence of the replacement in its place, keeping occurrences the
/// input already had: for two distinct patterns of one length whose shared
/// first character recurs in neither, the replaced text holds no occurrence
/// of `p`, and as many occurrences of `r` as the input held of `p` and `r`
/// together.
pub proof fn lemma_replace_all_counts(s: Seq<char>, p: Seq<char>, r: Seq<char>)
    requires
        p.len() > 0,
        p.len() == r.len(),
        p != r,
        p[0] == r[0],
        head_unique(p),
        head_unique(r),
    ensures
        occ_count(replace_all_spec(s, p, r), p) == 0,
        occ_count(replace_all_spec(s, p, r), r) == occ_count(s, p) + occ_count(s, r),
    decreases s.len(),
{
    let rs = replace_all_spec(s, p, r);
    assert(free_of(p.skip(1), p[0])) by {
        assert forall|i: int| 0 <= i < p.skip(1).len() implies p.skip(1)[i] != p[0] by {
            assert(p.skip(1)[i] == p[i + 1]);
        }
    }
    assert(free_of(r.skip(1), p[0])) by {
        assert forall|i: int| 0 <= i < r.skip(1).len() implies r.skip(1)[i] != p[0] by {
            assert(r.skip(1)[i] == r[i + 1]);
        }
    }
    if s.len() == 0 {
    } else if starts_with(s, p) {
        let s1 = s.skip(p.len() as int);
        lemma_replace_all_counts(s1, p, r);
        lemma_occ_after_rep(replace_all_spec(s1, p, r), p, r);
        // the input's own scans
        if starts_with(s, r) {
            assert(s.subrange(0, p.len() as int) == p);
            assert(s.subrange(0, r.len() as int) == r);
            assert(false);
        }
        assert(s.skip(1) =~= p.skip(1) + s1) by {
            assert forall|j: int| 0 <= j < s.len() - 1 implies s.skip(1)[j] == (p.skip(1)
                + s1)[j] by {
                if j < p.len() - 1 {
                    assert(s.subrange(0, p.len() as int)[j + 1] == p[j + 1]);
                }
            }
        }
        lemma_occ_free_prefix(p.skip(1), s1, r);
    } else if starts_with(s, r) {
        let s2 = s.skip(r.len() as int);
        lemma_starts_with_tail(s, r);
        assert(s.skip(1) =~= r.skip(1) + s2) by {
            assert forall|j: int| 0 <= j < s.len() - 1 implies s.skip(1)[j] == (r.skip(1)
                + s2)[j] by {
                if j < r.len() - 1 {
                    assert(s.subrange(0, r.len() as int)[j + 1] == r[j + 1]);
                }
            }
        }
        lemma_replace_free_prefix(r.skip(1), s2, p, r);
        let rs2 = replace_all_spec(s2, p, r);
        assert(rs =~= r + rs2) by {
            assert(rs == seq![s[0]] + (r.skip(1) + rs2));
        }
        lemma_replace_all_counts(s2, p, r);
        lemma_occ_after_rep(rs2, p, r);
        lemma_occ_free_prefix(r.skip(1), s2, p);
    } else {
        let s1 = s.skip(1);
        let rs1 = replace_all_spec(s1, p, r);
        lemma_replace_all_counts(s1, p, r);
        assert(rs == seq![s[0]] + rs1);
        assert(rs.skip(1) =~= rs1);
        lemma_no_fresh_head_match(s, p, r);
        assert(rs.len() > 0);
    }
}

/// Replacement moves no text: for two distinct patterns of one length whose
/// shared first character recurs in neither, the pattern stands nowhere in
/// the replaced text, and the replacement stands there exactly where one of
/// the two stood in the input.
pub proof fn lemma_replace_all_positions(s: Seq<char>, p: Seq<char>, r: Seq<char>)
    requires
        p.len() > 0,
        p.len() == r.len(),
        p != r,
        p[0] == r[0],
        head_unique(p),
        head_unique(r),
    ensures
        forall|i: int| !match_at(replace_all_spec(s, p, r), p, i),
        forall|i: int| #[trigger] match_at(replace_all_spec(s, p, r), r, i) <==> (match_at(s, p, i)
            || match_at(s, r, i)),
    decreases s.len(),
{
    let rs = replace_all_spec(s, p, r);
    let n = p.len() as int;
    lemma_replace_all_len(s, p, r);
    if s.len() == 0 {
    } else if starts_with(s, p) || starts_with(s, r) {
        let s1 = s.skip(n);
        let rs1 = replace_all_spec(s1, p, r);
        let head = s.subrange(0, n);
        if starts_with(s, p) {
            assert(head == p);
            assert(rs == r + rs1);
        } else {
            assert(head == r);
            assert(s.skip(1) =~= r.skip(1) + s1) by {
                assert forall|j: int| 0 <= j < s.len() - 1 implies s.skip(1)[j] == (r.skip(1)
                    + s1)[j] by {
                    if j < n - 1 {
                        assert(s.subrange(0, n)[j + 1] == r[j + 1]);
                    }
                }
            }
            assert(free_of(r.skip(1), p[0])) by {
                assert forall|i: int| 0 <= i < r.skip(1).len() implies r.skip(1)[i] != p[0] by {
                    assert(r.skip(1)[i] == r[i + 1]);
                }
            }
            lemma_replace_free_prefix(r.skip(1), s1, p, r);
            assert(rs =~= r + rs1) by {
                assert(rs == seq![s[0]] + (r.skip(1) + rs1));
            }
        }
        assert(s =~= head + s1);
        lemma_replace_all_positions(s1, p, r);
        lemma_replace_all_len(s1, p, r);
        assert forall|i: int| !match_at(rs, p, i) by {
            if match_at(rs, p, i) {
                if i == 0 {
                    assert(rs.subrange(0, n) =~= r);
                    assert(false);
                } else if i < n {
                    assert(rs.subrange(i, i + n)[0] == rs[i]);
                    assert(rs[i] == r[i]);
                    assert(false);
                } else {
                    lemma_match_at_after(r, rs1, p, i);
                    assert(false);
                }
            }
        }
        assert forall|i: int| match_at(rs, r, i) <==> (match_at(s, p, i) || match_at(
            s,
            r,
            i,
        )) by {
            if i == 0 {
                assert(rs.subrange(0, n) =~= r);
                assert(match_at(rs, r, 0));
                assert(s.subrange(0, n) == head);
            } else if 0 < i < n {
                if match_at(rs, r, i) {
                    assert(rs.subrange(i, i + n)[0] == rs[i]);
                    assert(rs[i] == r[i]);
                    assert(false);
                }
                if match_at(s, p, i) {
                    assert(s.subrange(i, i + n)[0] == s[i]);
                    assert(s[i] == head[i]);
                    assert(false);
                }
                if match_at(s, r, i) {
                    assert(s.subrange(i, i + n)[0] == s[i]);
                    assert(s[i] == head[i]);
                    assert(false);
                }
            } else if i >= n {
                lemma_match_at_after(r, rs1, r, i);
                lemma_match_at_after(head, s1, r, i);
                lemma_match_at_after(head, s1, p, i);
            }
        }
    } else {
        let s1 = s.skip(1);
        let rs1 = replace_all_spec(s1, p, r);
        assert(rs == seq![s[0]] + rs1);
        lemma_replace_all_positions(s1, p, r);
        lemma_no_fresh_head_match(s, p, r);
        assert(s =~= seq![s[0]] + s1);
        assert forall|i: int| !match_at(rs, p, i) by {
            if match_at(rs, p, i) {
                if i == 0 {
                    assert(starts_with(rs, p));
                    assert(false);
                } else {
                    lemma_match_at_after(seq![s[0]], rs1, p, i);
                    assert(false);
                }
            }
        }
        assert forall|i: int| match_at(rs, r, i) <==> (match_at(s, p, i) || match_at(
            s,
            r,
            i,
        )) by {
            if i == 0 {
                if match_at(rs, r, 0) {
                    assert(starts_with(rs, r));
                    assert(false);
                }
                if match_at(s, p, 0) {
                    assert(starts_with(s, p));
                    assert(false);
                }
                if match_at(s, r, 0) {
                    assert(starts_with(s, r));
                    assert(false);
                }
            } else if i > 0 {
                lemma_match_at_after(seq![s[0]], rs1, r, i);
                lemma_match_at_after(seq![s[0]], s1, r, i);
                lemma_match_at_after(seq![s[0]], s1, p, i);
            }
        }
    }
}

/// Replacement leaves a text without occurrences of the pattern unchanged.
pub proof fn lemma_no_occurrence_identity(s: Seq<char>, p: Seq<char>, r: Seq<char>)
    requires
        p.len() > 0,
        occ_count(s, p) == 0,
    ensures
        replace_all_spec(s, p, r) == s,
    decreases s.len(),
{
    if s.len() == 0 {
    } else {
        assert(!starts_with(s, p));
        lemma_no_occurrence_identity(s.skip(1), p, r);
        assert(replace_all_spec(s, p, r) =~= s);
    }
}

/// Replacing one pattern by another of the same length never changes the
/// length of the text, so everything around the occurrences keeps its
/// position.
pub proof fn lemma_replace_all_len(s: Seq<char>, p: Seq<char>, r: Seq<char>)
    requires
        p.len() == r.len(),
    ensures
        replace_all_spec(s, p, r).len() == s.len(),
    decreases s.len(),
{
    if p.len() == 0 || s.len() == 0 {
    } else if starts_with(s, p) {
        lemma_replace_all_len(s.skip(p.len() as int), p, r);
    } else {
        lemma_replace_all_len(s.skip(1), p, r);
    }
}

/// The scan finds no occurrence exactly when the pattern matches at no
/// position at all, so a count of zero means the pattern is absent.
pub proof fn lemma_occ_count_zero(s: Seq<char>, p: Seq<char>)
    requires
        p.len() > 0,
    ensures
        occ_count(s, p) == 0 <==> (forall|i: int|
            0 <= i && i + p.len() <= s.len() ==> #[trigger] s.subrange(i, i + p.len()) != p),
    decreases s.len(),
{
    if s.len() == 0 {
    } else if starts_with(s, p) {
        let z: int = 0;
        assert(s.subrange(z, z + p.len()) == p);
        assert(occ_count(s, p) > 0);
    } else {
        lemma_occ_count_zero(s.skip(1), p);
        assert forall|i: int| 1 <= i && i + p.len() <= s.len() implies #[trigger] s.subrange(
            i,
            i + p.len(),
        ) =~= s.skip(1).subrange(i - 1, i - 1 + p.len()) by {}
        if occ_count(s, p) == 0 {
            assert forall|i: int| 0 <= i && i + p.len() <= s.len() implies #[trigger] s.subrange(
                i,
                i + p.len(),
            ) != p by {
                if i == 0 {
                    assert(s.subrange(0, p.len() as int) != p);
                } else {
                    assert(s.skip(1).subrange(i - 1, i - 1 + p.len()) != p);
                }
            }
        } else {
            assert(exists|j: int|
                0 <= j && j + p.len() <= s.skip(1).len() && #[trigger] s.skip(1).subrange(
                    j,
                    j + p.len(),
                ) == p);
            let j = choose|j: int|
                0 <= j && j + p.len() <= s.skip(1).len() && #[trigger] s.skip(1).subrange(
                    j,
                    j + p.len(),
                ) == p;
            assert(s.subrange(j + 1, j + 1 + p.len()) == p);
        }
    }
}

/// Whether the pattern `p` matches `s` at position `i`.
pub fn matches_at(s: &Vec<char>, p: &Vec<char>, i: usize) -> (b: bool)
    requires
        i <= s@.len(),
    ensures
        b == starts_with(s@.skip(i as int), p@),
{
    if p.len() > s.len() - i {
        assert(!starts_with(s@.skip(i as int), p@));
        return false;
    }
    let mut j: usize = 0;
    while j < p.len()
        invariant
            0 <= j <= p@.len(),
            i + p@.len() <= s@.len(),
            forall|k: int| 0 <= k < j ==> s@[i + k] == p@[k],
        decreases p@.len() - j,
    {
        let n: usize = s.len();
        assert(i + j < n);
        if s[i + j] != p[j] {
            assert(s@.skip(i as int).subrange(0, p@.len() as int)[j as int] == s@[i + j]);
            return false;
        }
        j += 1;
    }
    assert(s@.skip(i as int).subrange(0, p@.len() as int) =~= p@);
    true
}

/// Appends every character of `p` to `out`.
fn push_all(out: &mut Vec<char>, p: &Vec<char>)
    ensures
        final(out)@ == old(out)@ + p@,
{
    let mut j: usize = 0;
    while j < p.len()
        invariant
            0 <= j <= p@.len(),
            out@ == old(out)@ + p@.subrange(0, j as int),
        decreases p@.len() - j,
    {
        out.push(p[j]);
        assert(out@ =~= old(out)@ + p@.subrange(0, j + 1));
        j += 1;
    }
    assert(out@ =~= old(out)@ + p@);
}

/// Replaces every non-overlapping occurrence of `p` in `s` by `r`, scanning
/// left to right.
pub fn replace_all(s: &Vec<char>, p: &Vec<char>, r: &Vec<char>) -> (out: Vec<char>)
    requires
        p@.len() > 0,
    ensures
        out@ == replace_all_spec(s@, p@, r@),
{
    let mut out: Vec<char> = Vec::new();
    let mut i: usize = 0;
    proof {
        assert(s@.skip(0) =~= s@);
        assert(Seq::<char>::empty() + replace_all_spec(s@, p@, r@) =~= replace_all_spec(
            s@,
            p@,
            r@,
        ));
    }
    while i < s.len()
        invariant
            0 <= i <= s@.len(),
            p@.len() > 0,
            replace_all_spec(s@, p@, r@) == out@ + replace_all_spec(s@.skip(i as int), p@, r@),
        decreases s@.len() - i,
    {
        let ghost pre = out@;
        let ghost tail = s@.skip(i as int);
        if matches_at(s, p, i) {
            push_all(&mut out, r);
            proof {
                assert(tail.skip(p@.len() as int) =~= s@.skip(i + p@.len()));
                assert(replace_all_spec(tail, p@, r@) == r@ + replace_all_spec(
                    s@.skip(i + p@.len()),
                    p@,
                    r@,
                ));
                assert(pre + replace_all_spec(tail, p@, r@) =~= out@ + replace_all_spec(
                    s@.skip(i + p@.len()),
                    p@,
                    r@,
                ));
            }
            i += p.len();
        } else {
            out.push(s[i]);
            proof {
                assert(tail.skip(1) =~= s@.skip(i + 1));
                assert(tail[0] == s@[i as int]);
                assert(replace_all_spec(tail, p@, r@) == seq![s@[i as int]] + replace_all_spec(
                    s@.skip(i + 1),
                    p@,
                    r@,
                ));
                assert(pre + replace_all_spec(tail, p@, r@) =~= out@ + replace_all_spec(
                    s@.skip(i + 1),
                    p@,
                    r@,
                ));
            }
            i += 1;
        }
    }
    proof {
        assert(s@.skip(s@.len() as int) =~= Seq::<char>::empty());
        assert(out@ + replace_all_spec(Seq::<char>::empty(), p@, r@) =~= out@);
    }
    out
}

} // verus!
