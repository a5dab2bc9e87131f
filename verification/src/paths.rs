//! Locating the child binary.
//!
//! The binary is searched for along the ancestors of a starting path (the
//! host executable or the working directory): each ancestor is probed for
//! `apps/runtime/pryx-core` and `dist/pryx-core`. Which of those paths
//! exist on disk is the caller's business; the functions here compute the
//! candidate list and pick the first candidate the caller found to exist.
//! Paths are handled as byte strings with `/` separators.

use vstd::prelude::*;

use crate::portline::suffix_after_last;
use crate::text::{after_last_byte, bytes_eq, contains_seq, has_sub_at};

verus! {

/// The bytes of `apps/runtime/pryx-core`.
pub open spec fn runtime_rel() -> Seq<u8> {
    seq![
        97u8, 112, 112, 115, 47, 114, 117, 110, 116, 105, 109, 101, 47, 112, 114, 121, 120, 45, 99,
        111, 114, 101,
    ]
}

/// The bytes of `dist/pryx-core`.
pub open spec fn dist_rel() -> Seq<u8> {
    seq![100u8, 105, 115, 116, 47, 112, 114, 121, 120, 45, 99, 111, 114, 101]
}

fn runtime_rel_bytes() -> (r: Vec<u8>)
    ensures
        r@ == runtime_rel(),
{
    let v: Vec<u8> = vec![
        97u8, 112, 112, 115, 47, 114, 117, 110, 116, 105, 109, 101, 47, 112, 114, 121, 120, 45, 99,
        111, 114, 101,
    ];
    proof {
        assert(v@ =~= runtime_rel());
    }
    v
}

fn dist_rel_bytes() -> (r: Vec<u8>)
    ensures
        r@ == dist_rel(),
{
    let v: Vec<u8> = vec![100u8, 105, 115, 116, 47, 112, 114, 121, 120, 45, 99, 111, 114, 101];
    proof {
        assert(v@ =~= dist_rel());
    }
    v
}

/// The path with its last `/`-separated component removed; empty when the
/// path has no separator.
pub open spec fn spec_parent(s: Seq<u8>) -> Seq<u8> {
    if contains_seq(s, seq![47u8]) {
        s.subrange(0, s.len() - suffix_after_last(s, 47).len() - 1)
    } else {
        Seq::empty()
    }
}

/// The first `k` ancestors of a path, the path itself first; an empty path
/// is its own only ancestor.
pub open spec fn spec_ancestors(s: Seq<u8>, k: nat) -> Seq<Seq<u8>>
    decreases k,
{
    if k == 0 {
        Seq::empty()
    } else if s.len() == 0 {
        seq![s]
    } else {
        seq![s] + spec_ancestors(spec_parent(s), (k - 1) as nat)
    }
}

/// Joining a relative path onto a base.
pub open spec fn spec_join(a: Seq<u8>, rel: Seq<u8>) -> Seq<u8> {
    if a.len() == 0 {
        rel
    } else if a.last() == 47 {
        a + rel
    } else {
        a + seq![47u8] + rel
    }
}

/// The two probe paths under each ancestor, in probe order.
pub open spec fn spec_cands(ancs: Seq<Seq<u8>>) -> Seq<Seq<u8>>
    decreases ancs.len(),
{
    if ancs.len() == 0 {
        Seq::empty()
    } else {
        seq![spec_join(ancs.first(), runtime_rel()), spec_join(ancs.first(), dist_rel())]
            + spec_cands(ancs.drop_first())
    }
}

/// Every probe path for a starting point: both probe paths under each of
/// its first eight ancestors.
pub open spec fn spec_candidates(s: Seq<u8>) -> Seq<Seq<u8>> {
    spec_cands(spec_ancestors(s, 8))
}

/// The views of a vector of byte vectors.
pub open spec fn views(s: Seq<Vec<u8>>) -> Seq<Seq<u8>> {
    s.map_values(|v: Vec<u8>| v@)
}

fn join_path(a: &[u8], rel: &[u8]) -> (r: Vec<u8>)
    ensures
        r@ == spec_join(a@, rel@),
{
    let mut out: Vec<u8> = Vec::new();
    out.extend_from_slice(a);
    if a.len() > 0 && a[a.len() - 1] != 47 {
        out.push(47);
        proof {
            assert(out@ =~= a@ + seq![47u8]);
        }
    }
    out.extend_from_slice(rel);
    proof {
        if a@.len() == 0 {
            assert(out@ =~= rel@);
        } else if a@.last() == 47 {
            assert(out@ =~= a@ + rel@);
        } else {
            assert(out@ =~= (a@ + seq![47u8]) + rel@);
            assert((a@ + seq![47u8]) + rel@ =~= a@ + seq![47u8] + rel@);
        }
    }
    out
}

fn parent_path(s: &[u8]) -> (r: Vec<u8>)
    ensures
        r@ == spec_parent(s@),
{
    let c = after_last_byte(s, 47);
    proof {
        if c == 0 {
            if contains_seq(s@, seq![47u8]) {
                let i = choose|i: int| has_sub_at(s@, seq![47u8], i);
                assert(has_sub_at(s@, seq![47u8], i));
                assert(s@.subrange(i, i + 1)[0] == s@[i]);
                assert(s@[i] == 47);
            }
            assert(!contains_seq(s@, seq![47u8]));
        } else {
            assert(s@.subrange(c - 1, c as int) =~= seq![47u8]);
            assert(has_sub_at(s@, seq![47u8], c - 1));
            crate::portline::lemma_suffix_after_last(s@, 47, c as int);
        }
    }
    let mut out: Vec<u8> = Vec::new();
    if c == 0 {
        return out;
    }
    let mut i: usize = 0;
    while i < c - 1
        invariant
            i <= c - 1,
            c <= s@.len(),
            out@ =~= s@.subrange(0, i as int),
        decreases c - 1 - i,
    {
        out.push(s[i]);
        i = i + 1;
        proof {
            assert(out@ =~= s@.subrange(0, i as int));
        }
    }
    proof {
        assert(suffix_after_last(s@, 47).len() == s@.len() - c);
    }
    out
}

/// The probe paths for the child binary under the first eight ancestors of
/// `start`, in probe order.
pub fn ancestor_candidates(start: &[u8]) -> (r: Vec<Vec<u8>>)
    ensures
        views(r@) == spec_candidates(start@),
{
    let rel1 = runtime_rel_bytes();
    let rel2 = dist_rel_bytes();
    let mut out: Vec<Vec<u8>> = Vec::new();
    let mut cur: Vec<u8> = Vec::new();
    cur.extend_from_slice(start);
    proof {
        assert(cur@ =~= start@);
        assert(views(out@) =~= Seq::<Seq<u8>>::empty());
        assert(views(out@) + spec_cands(spec_ancestors(cur@, 8)) =~= spec_candidates(start@));
    }
    let mut k: usize = 0;
    while k < 8
        invariant
            k <= 8,
            rel1@ == runtime_rel(),
            rel2@ == dist_rel(),
            views(out@) + spec_cands(spec_ancestors(cur@, (8 - k) as nat)) == spec_candidates(
                start@,
            ),
        decreases 8 - k,
    {
        let c1 = join_path(cur.as_slice(), rel1.as_slice());
        let c2 = join_path(cur.as_slice(), rel2.as_slice());
        let ghost pre_out = out@;
        let ghost pre_cur = cur@;
        out.push(c1);
        out.push(c2);
        proof {
            let ancs = spec_ancestors(pre_cur, (8 - k) as nat);
            assert(ancs.first() == pre_cur);
            assert(views(out@) =~= views(pre_out).push(spec_join(pre_cur, runtime_rel())).push(
                spec_join(pre_cur, dist_rel()),
            ));
        }
        if cur.len() == 0 {
            proof {
                let ancs = spec_ancestors(pre_cur, (8 - k) as nat);
                assert(ancs =~= seq![pre_cur]);
                assert(ancs.drop_first() =~= Seq::<Seq<u8>>::empty());
                assert(spec_cands(ancs) == seq![
                    spec_join(ancs.first(), runtime_rel()),
                    spec_join(ancs.first(), dist_rel()),
                ] + spec_cands(ancs.drop_first()));
                assert(spec_cands(ancs.drop_first()).len() == 0);
                assert(spec_cands(ancs) =~= seq![
                    spec_join(pre_cur, runtime_rel()),
                    spec_join(pre_cur, dist_rel()),
                ]);
                assert(views(out@) =~= views(pre_out) + spec_cands(ancs));
            }
            return out;
        }
        let next = parent_path(cur.as_slice());
        cur = next;
        k = k + 1;
        proof {
            let ancs = spec_ancestors(pre_cur, (9 - k) as nat);
            assert(ancs.drop_first() =~= spec_ancestors(cur@, (8 - k) as nat));
            assert(spec_cands(ancs) =~= seq![
                spec_join(pre_cur, runtime_rel()),
                spec_join(pre_cur, dist_rel()),
            ] + spec_cands(spec_ancestors(cur@, (8 - k) as nat)));
            assert(views(out@) + spec_cands(spec_ancestors(cur@, (8 - k) as nat)) =~= views(
                pre_out,
            ) + spec_cands(ancs));
        }
    }
    proof {
        assert(spec_ancestors(cur@, 0) =~= Seq::<Seq<u8>>::empty());
        assert(spec_cands(Seq::<Seq<u8>>::empty()) =~= Seq::<Seq<u8>>::empty());
        assert(views(out@) + Seq::<Seq<u8>>::empty() =~= views(out@));
    }
    out
}

/// The first candidate (in probe order) that the caller found to exist.
pub open spec fn spec_first_existing(cands: Seq<Seq<u8>>, ex: Seq<Seq<u8>>) -> Option<Seq<u8>>
    decreases cands.len(),
{
    if cands.len() == 0 {
        None
    } else if ex.contains(cands.first()) {
        Some(cands.first())
    } else {
        spec_first_existing(cands.drop_first(), ex)
    }
}

proof fn lemma_first_existing_skip(cands: Seq<Seq<u8>>, ex: Seq<Seq<u8>>, i: int)
    requires
        0 <= i <= cands.len(),
        forall|j: int| 0 <= j < i ==> !ex.contains(#[trigger] cands[j]),
    ensures
        spec_first_existing(cands, ex) == spec_first_existing(cands.skip(i), ex),
    decreases i,
{
    if i > 0 {
        assert(!ex.contains(cands.first()));
        lemma_first_existing_skip(cands.drop_first(), ex, i - 1);
        assert(cands.drop_first().skip(i - 1) =~= cands.skip(i));
    } else {
        assert(cands.skip(0) =~= cands);
    }
}

/// Walks the ancestors of `start` and picks the first probe path that is
/// in `existing`, the caller's list of paths that exist on disk.
pub fn search_ancestors(start: &[u8], existing: &Vec<Vec<u8>>) -> (r: Option<Vec<u8>>)
    ensures
        match r {
            Some(v) => spec_first_existing(spec_candidates(start@), views(existing@)) == Some(v@),
            None => spec_first_existing(spec_candidates(start@), views(existing@)) is None,
        },
{
    let cands = ancestor_candidates(start);
    let ghost cseq = spec_candidates(start@);
    let mut i: usize = 0;
    while i < cands.len()
        invariant
            i <= cands@.len(),
            views(cands@) == cseq,
            cseq == spec_candidates(start@),
            forall|j: int| 0 <= j < i ==> !views(existing@).contains(#[trigger] cseq[j]),
        decreases cands@.len() - i,
    {
        if member_of(&cands[i], existing) {
            proof {
                lemma_first_existing_skip(cseq, views(existing@), i as int);
                assert(cseq.skip(i as int).first() == cseq[i as int]);
                assert(cseq[i as int] == cands@[i as int]@);
            }
            let mut v: Vec<u8> = Vec::new();
            v.extend_from_slice(cands[i].as_slice());
            proof {
                assert(v@ =~= cands@[i as int]@);
            }
            return Some(v);
        }
        i = i + 1;
    }
    proof {
        lemma_first_existing_skip(cseq, views(existing@), cseq.len() as int);
        assert(cseq.skip(cseq.len() as int) =~= Seq::<Seq<u8>>::empty());
    }
    None
}

fn member_of(v: &Vec<u8>, list: &Vec<Vec<u8>>) -> (r: bool)
    ensures
        r == views(list@).contains(v@),
{
    let mut j: usize = 0;
    while j < list.len()
        invariant
            j <= list@.len(),
            forall|jj: int| 0 <= jj < j ==> views(list@)[jj] != v@,
        decreases list@.len() - j,
    {
        if bytes_eq(list[j].as_slice(), v.as_slice()) {
            proof {
                assert(views(list@)[j as int] == v@);
            }
            return true;
        }
        j = j + 1;
    }
    proof {
        if views(list@).contains(v@) {
            let k = choose|k: int| 0 <= k < views(list@).len() && views(list@)[k] == v@;
            assert(views(list@)[k] != v@);
        }
    }
    false
}

/// Resolves the configured binary path: the path itself when it exists,
/// otherwise whatever the ancestor search discovered, otherwise the
/// configured path unchanged.
pub fn resolve_binary(binary: &str, binary_exists: bool, discovered: &Option<String>) -> (r:
    String)
    ensures
        binary_exists ==> r@ == binary@,
        !binary_exists ==> match discovered {
            Some(d) => r@ == d@,
            None => r@ == binary@,
        },
{
    if binary_exists {
        binary.to_owned()
    } else {
        match discovered {
            Some(d) => d.clone(),
            None => binary.to_owned(),
        }
    }
}

/// Picks the child binary location from the probes the caller made, in
/// priority order: the `PRYX_CORE_PATH` override when it points at an
/// existing file, then a hit under the executable's ancestors, then one
/// under the working directory's ancestors, and as a last resort the bare
/// name `pryx-core` for the PATH lookup at spawn time.
pub fn find_pryx_core_binary(
    env_path: &Option<String>,
    env_path_exists: bool,
    from_exe: &Option<String>,
    from_cwd: &Option<String>,
) -> (r: Option<String>)
    ensures
        r is Some,
        match (env_path, env_path_exists) {
            (Some(p), true) => r matches Some(v) && v@ == p@,
            _ => match from_exe {
                Some(e) => r matches Some(v) && v@ == e@,
                None => match from_cwd {
                    Some(c) => r matches Some(v) && v@ == c@,
                    None => r matches Some(v) && v@ == "pryx-core"@,
                },
            },
        },
{
    match (env_path, env_path_exists) {
        (Some(p), true) => Some(p.clone()),
        _ => match from_exe {
            Some(e) => Some(e.clone()),
            None => match from_cwd {
                Some(c) => Some(c.clone()),
                None => Some("pryx-core".to_owned()),
            },
        },
    }
}

} // verus!
