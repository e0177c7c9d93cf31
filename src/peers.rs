//! The peer list a node starts with.

use vstd::prelude::*;
use crate::message::{copy_bytes, ids_contain, ids_view};

verus! {

/// `s` with every later repetition of an element removed, first occurrences
/// kept in order.
pub open spec fn dedup(s: Seq<Seq<u8>>) -> Seq<Seq<u8>>
    decreases s.len(),
{
    if s.len() == 0 {
        s
    } else {
        let d = dedup(s.drop_last());
        if d.contains(s.last()) {
            d
        } else {
            d.push(s.last())
        }
    }
}

/// Deduplication keeps each element once and loses none.
pub proof fn lemma_dedup(s: Seq<Seq<u8>>)
    ensures
        dedup(s).no_duplicates(),
        dedup(s).to_set() == s.to_set(),
    decreases s.len(),
{
    if s.len() > 0 {
        let t = s.drop_last();
        lemma_dedup(t);
        let d = dedup(t);
        assert(s.to_set() =~= t.to_set().insert(s.last())) by {
            assert forall|x: Seq<u8>| s.to_set().contains(x) <==> t.to_set().insert(s.last()).contains(x) by {
                if s.contains(x) {
                    let i = choose|i: int| 0 <= i < s.len() && s[i] == x;
                    if i < t.len() {
                        assert(t[i] == x);
                    }
                }
                if t.contains(x) {
                    let i = choose|i: int| 0 <= i < t.len() && t[i] == x;
                    assert(s[i] == x);
                }
                assert(s[s.len() - 1] == s.last());
            }
        }
        if d.contains(s.last()) {
            assert(d.to_set().contains(s.last()));
            assert(d.to_set() =~= t.to_set().insert(s.last()));
        } else {
            let e = d.push(s.last());
            assert forall|i: int, j: int| 0 <= i < e.len() && 0 <= j < e.len() && i != j implies e[i] != e[j] by {
                if i < d.len() && j < d.len() {
                } else if i < d.len() {
                    assert(d.contains(e[i]));
                } else {
                    assert(d.contains(e[j]));
                }
            }
            assert forall|x: Seq<u8>| e.to_set().contains(x) <==> d.to_set().insert(s.last()).contains(x) by {
                if e.contains(x) {
                    let i = choose|i: int| 0 <= i < e.len() && e[i] == x;
                    if i < d.len() {
                        assert(d[i] == x);
                    }
                }
                if d.contains(x) {
                    let i = choose|i: int| 0 <= i < d.len() && d[i] == x;
                    assert(e[i] == x);
                }
                assert(e[e.len() - 1] == s.last());
            }
            assert(e.to_set() =~= d.to_set().insert(s.last()));
        }
    }
}

/// The configured peers, each once with its first occurrence kept, followed by
/// the local peer; and the local node's temporary id, the number of
/// configured peers before deduplication.
pub fn startup_peers(peers: &Vec<Vec<u8>>, local: &Vec<u8>) -> (r: (Vec<Vec<u8>>, u64))
    ensures
        ids_view(r.0@) == dedup(ids_view(peers@)).push(local@),
        r.1 == peers@.len(),
{
    let ghost s = ids_view(peers@);
    let mut out: Vec<Vec<u8>> = Vec::new();
    let mut i: usize = 0;
    while i < peers.len()
        invariant
            i <= peers@.len(),
            s == ids_view(peers@),
            ids_view(out@) == dedup(s.subrange(0, i as int)),
            out@.len() <= i,
        decreases peers@.len() - i,
    {
        proof {
            let x = s.subrange(0, i + 1);
            assert(x.drop_last() =~= s.subrange(0, i as int));
            assert(x.last() == peers@[i as int]@);
        }
        if !ids_contain(&out, &peers[i]) {
            let ghost o0 = out@;
            out.push(copy_bytes(&peers[i]));
            assert(ids_view(out@) =~= ids_view(o0).push(peers@[i as int]@));
        }
        i = i + 1;
    }
    assert(s.subrange(0, i as int) =~= s);
    let tmp_id = peers.len() as u64;
    let ghost o1 = out@;
    out.push(copy_bytes(local));
    assert(ids_view(out@) =~= ids_view(o1).push(local@));
    (out, tmp_id)
}

} // verus!
