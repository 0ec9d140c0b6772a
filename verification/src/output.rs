//! Aggregation of the workers' reports: sorting the collected open
//! ports and rendering the final report lines.

use vstd::prelude::*;
use crate::decimal::{dec_of, lemma_dec_of_injective, u16_string};

verus! {

/// The sequence is sorted in ascending order.
pub open spec fn sorted(s: Seq<u16>) -> bool {
    forall|i: int, j: int| 0 <= i < j < s.len() ==> s[i] <= s[j]
}

/// The sequence is strictly ascending; in particular it holds no
/// duplicates.
pub open spec fn strictly_ascending(s: Seq<u16>) -> bool {
    forall|i: int, j: int| 0 <= i < j < s.len() ==> s[i] < s[j]
}

/// Insertion sort of the reported open ports: the result holds exactly
/// the reported ports, in ascending order.
pub fn sort_ports(v: &Vec<u16>) -> (r: Vec<u16>)
    ensures
        sorted(r@),
        r@.to_multiset() == v@.to_multiset(),
{
    broadcast use vstd::seq_lib::group_to_multiset_ensures;

    let mut r: Vec<u16> = Vec::new();
    assert(v@.subrange(0, 0) =~= Seq::<u16>::empty());
    assert(r@.to_multiset() =~= v@.subrange(0, 0).to_multiset());
    for idx in 0..v.len()
        invariant
            sorted(r@),
            r@.to_multiset() == v@.subrange(0, idx as int).to_multiset(),
    {
        let x = v[idx];
        let mut j: usize = 0;
        while j < r.len() && r[j] <= x
            invariant
                j <= r.len(),
                forall|k: int| 0 <= k < j ==> r@[k] <= x,
            decreases r.len() - j,
        {
            j = j + 1;
        }
        let ghost before = r@;
        r.insert(j, x);
        assert(sorted(r@)) by {
            assert(forall|a: int| 0 <= a < j ==> r@[a] == before[a]);
            assert(r@[j as int] == x);
            assert(forall|a: int| j < a < r@.len() ==> r@[a] == before[a - 1]);
            assert(forall|a: int| j < a < r@.len() ==> x <= #[trigger] r@[a]) by {
                assert(forall|a: int| j < a < r@.len() ==> before[j as int] <= #[trigger] before[a - 1]);
            }
        }
        assert(v@.subrange(0, idx + 1) =~= v@.subrange(0, idx as int).push(v@[idx as int]));
        assert(r@.to_multiset() =~= v@.subrange(0, idx + 1).to_multiset()) by {
            assert(r@ == before.insert(j as int, x));
            vstd::seq_lib::to_multiset_insert(before, j as int, x);
            vstd::seq_lib::to_multiset_build(v@.subrange(0, idx as int), v@[idx as int]);
        }
    }
    assert(v@.subrange(0, v@.len() as int) =~= v@);
    r
}

/// Output ordering: when the reported ports hold no duplicates — which
/// partition disjointness guarantees of a real scan — any ascending
/// arrangement of them is strictly ascending.
pub proof fn lemma_sorted_reports_strictly_ascending(reported: Seq<u16>, out: Seq<u16>)
    requires
        reported.no_duplicates(),
        sorted(out),
        out.to_multiset() == reported.to_multiset(),
    ensures
        strictly_ascending(out),
        out.no_duplicates(),
{
    reported.lemma_multiset_has_no_duplicates();
    out.lemma_multiset_has_no_duplicates_conv();
}

/// The report line announcing an open port.
pub open spec fn open_line(p: int) -> Seq<char> {
    dec_of(p) + " is open"@
}

/// Distinct ports have distinct report lines.
pub proof fn lemma_open_line_injective(p: int, q: int)
    requires
        0 <= p,
        0 <= q,
        p != q,
    ensures
        open_line(p) != open_line(q),
{
    lemma_dec_of_injective(p, q);
    if open_line(p) == open_line(q) {
        reveal_strlit(" is open");
        assert(open_line(p).len() == dec_of(p).len() + " is open"@.len());
        assert(open_line(q).len() == dec_of(q).len() + " is open"@.len());
        assert(dec_of(p).len() == dec_of(q).len());
        assert(dec_of(p) =~= open_line(p).subrange(0, dec_of(p).len() as int));
        assert(dec_of(q) =~= open_line(q).subrange(0, dec_of(q).len() as int));
        assert(false);
    }
}

/// The one report line for an open port.
pub fn render_line(p: u16) -> (r: String)
    ensures
        r@ == open_line(p as int),
{
    let mut r = u16_string(p);
    r.append(" is open");
    assert(r@ =~= open_line(p as int));
    r
}

/// The final report: one line per given port, in the given order, and
/// no line for any other port.
pub fn render_report(ports: &Vec<u16>) -> (r: Vec<String>)
    ensures
        r@.len() == ports@.len(),
        forall|k: int| 0 <= k < r@.len() ==> #[trigger] r@[k]@ == open_line(ports@[k] as int),
{
    let mut r: Vec<String> = Vec::new();
    for idx in 0..ports.len()
        invariant
            r@.len() == idx,
            forall|k: int| 0 <= k < r@.len() ==> #[trigger] r@[k]@ == open_line(ports@[k] as int),
    {
        r.push(render_line(ports[idx]));
    }
    r
}

} // verus!
