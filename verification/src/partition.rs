//! Stride partitioning of the TCP port space.
//!
//! Worker `i` of a pool of `t` workers probes the ports
//! `i + 1, i + 1 + t, i + 1 + 2t, ...`. A worker stops right after the
//! first port whose distance to `MAX_PORT` is at most `t`. Under this
//! rule the workers together probe every port from `1` to `65534`;
//! port `65535` itself is probed only in the degenerate pool of
//! `65535` workers, where it is the first port of the last worker.

use vstd::prelude::*;

verus! {

/// The highest TCP port number; the port universe is `1 ..= MAX_PORT`.
pub const MAX_PORT: u16 = 65535;

/// The ports a worker probes when it starts at `p` and advances by the
/// stride `t`: the arithmetic progression `p, p + t, p + 2t, ...`, cut
/// right after its first member within distance `t` of `MAX_PORT`.
pub open spec fn ports_from(p: int, t: int) -> Seq<int>
    recommends
        1 <= t <= MAX_PORT,
        1 <= p <= MAX_PORT,
    decreases MAX_PORT - p,
        when 1 <= t && p <= MAX_PORT
{
    if MAX_PORT - p <= t {
        seq![p]
    } else {
        seq![p] + ports_from(p + t, t)
    }
}

/// The ports assigned to worker `i` of a pool of `t` workers.
pub open spec fn worker_ports(i: int, t: int) -> Seq<int>
    recommends
        1 <= t <= MAX_PORT,
        0 <= i < t,
{
    ports_from(i + 1, t)
}

/// The `k`-th member of the arithmetic progression that starts at `p`
/// and advances by `t`.
pub open spec fn stride_term(p: int, t: int, k: int) -> int {
    p + t * k
}

/// `q` lies on the arithmetic progression that starts at `p` and
/// advances by `t`.
pub open spec fn in_stride(p: int, t: int, q: int) -> bool {
    exists|k: int| 0 <= k && q == #[trigger] stride_term(p, t, k)
}

/// A port is probed from start `p` with stride `t` exactly when it lies
/// on the progression, at or above `p`, and below `MAX_PORT` — except
/// that the start itself is probed even when it equals `MAX_PORT`.
pub proof fn lemma_ports_from_contains(p: int, t: int, q: int)
    requires
        1 <= t <= MAX_PORT,
        1 <= p <= MAX_PORT,
    ensures
        ports_from(p, t).contains(q) <==> (in_stride(p, t, q) && p <= q <= MAX_PORT && (q == p
            || q < MAX_PORT)),
    decreases MAX_PORT - p,
{
    if MAX_PORT - p <= t {
        assert(ports_from(p, t) == seq![p]);
        assert(ports_from(p, t)[0] == p);
        assert(ports_from(p, t).contains(p));
        if in_stride(p, t, q) && p <= q <= MAX_PORT && (q == p || q < MAX_PORT) && q != p {
            let k = choose|k: int| 0 <= k && q == #[trigger] stride_term(p, t, k);
            assert(k >= 1);
            assert(t * k >= t) by (nonlinear_arith)
                requires
                    t >= 1,
                    k >= 1,
            ;
            assert(q >= p + t >= MAX_PORT as int);
            assert(false);
        }
        assert(in_stride(p, t, p)) by {
            assert(p == stride_term(p, t, 0));
        }
    } else {
        lemma_ports_from_contains(p + t, t, q);
        assert(ports_from(p, t) == seq![p] + ports_from(p + t, t));
        assert(ports_from(p, t)[0] == p);
        assert(ports_from(p, t).contains(q) <==> (q == p || ports_from(p + t, t).contains(q)))
            by {
            if ports_from(p, t).contains(q) {
                let n = choose|n: int| 0 <= n < ports_from(p, t).len() && #[trigger] ports_from(p, t)[n] == q;
                if n > 0 {
                    assert(ports_from(p + t, t)[n - 1] == q);
                }
            }
            if ports_from(p + t, t).contains(q) {
                let n = choose|n: int|
                    0 <= n < ports_from(p + t, t).len() && #[trigger] ports_from(p + t, t)[n]
                        == q;
                assert(ports_from(p, t)[n + 1] == q);
            }
        }
        if q == p {
            assert(in_stride(p, t, p)) by {
                assert(p == stride_term(p, t, 0));
            }
        } else if ports_from(p + t, t).contains(q) {
            let k = choose|k: int| 0 <= k && q == #[trigger] stride_term(p + t, t, k);
            assert(q == p + t * (k + 1)) by (nonlinear_arith)
                requires
                    q == (p + t) + t * k,
            ;
            assert(q == stride_term(p, t, k + 1));
            assert(in_stride(p, t, q));
        } else if in_stride(p, t, q) && p <= q <= MAX_PORT && (q == p || q < MAX_PORT) {
            let k = choose|k: int| 0 <= k && q == #[trigger] stride_term(p, t, k);
            assert(t * k > 0);
            assert(k >= 1) by (nonlinear_arith)
                requires
                    t >= 1,
                    t * k > 0,
            ;
            assert(q == (p + t) + t * (k - 1)) by (nonlinear_arith)
                requires
                    q == p + t * k,
            ;
            assert(t * (k - 1) >= 0) by (nonlinear_arith)
                requires
                    t >= 1,
                    k >= 1,
            ;
            assert(q == stride_term(p + t, t, k - 1));
            assert(in_stride(p + t, t, q));
            assert(p + t <= q);
            assert(ports_from(p + t, t).contains(q));
        }
    }
}

/// Partition disjointness: no port belongs to the assignments of two
/// distinct workers of the same pool.
pub proof fn lemma_partition_disjoint(t: int, i: int, j: int, q: int)
    requires
        1 <= t <= MAX_PORT,
        0 <= i < t,
        0 <= j < t,
        i != j,
    ensures
        !(worker_ports(i, t).contains(q) && worker_ports(j, t).contains(q)),
{
    if worker_ports(i, t).contains(q) && worker_ports(j, t).contains(q) {
        lemma_ports_from_contains(i + 1, t, q);
        lemma_ports_from_contains(j + 1, t, q);
        let ki = choose|k: int| 0 <= k && q == #[trigger] stride_term(i + 1, t, k);
        let kj = choose|k: int| 0 <= k && q == #[trigger] stride_term(j + 1, t, k);
        assert(i - j == t * (kj - ki)) by (nonlinear_arith)
            requires
                q == (i + 1) + t * ki,
                q == (j + 1) + t * kj,
        ;
        assert(kj != ki);
        assert(t * (kj - ki) >= t || t * (kj - ki) <= -t) by (nonlinear_arith)
            requires
                t >= 1,
                kj != ki,
        ;
        assert(false);
    }
}

/// Partition coverage: a port is assigned to some worker of a pool of
/// `t` exactly when it lies in `1 ..= 65534` — except that in a pool of
/// `65535` workers the top port `65535` is assigned as well, to the
/// last worker, as its single port.
pub proof fn lemma_partition_coverage(t: int, q: int)
    requires
        1 <= t <= MAX_PORT,
    ensures
        (exists|i: int| 0 <= i < t && #[trigger] worker_ports(i, t).contains(q)) <==> (1 <= q
            < MAX_PORT || (q == MAX_PORT && t == MAX_PORT)),
{
    if exists|i: int| 0 <= i < t && #[trigger] worker_ports(i, t).contains(q) {
        let i = choose|i: int| 0 <= i < t && #[trigger] worker_ports(i, t).contains(q);
        lemma_ports_from_contains(i + 1, t, q);
        assert(1 <= q <= MAX_PORT);
        if q == MAX_PORT {
            assert(q == i + 1);
            assert(t == MAX_PORT);
        }
    }
    if 1 <= q < MAX_PORT {
        let i = (q - 1) % t;
        let k = (q - 1) / t;
        vstd::arithmetic::div_mod::lemma_fundamental_div_mod(q - 1, t);
        vstd::arithmetic::div_mod::lemma_mod_division_less_than_divisor(q - 1, t);
        assert(k >= 0) by (nonlinear_arith)
            requires
                t >= 1,
                0 <= q - 1,
                0 <= i < t,
                q - 1 == t * k + i,
        ;
        assert(q == stride_term(i + 1, t, k));
        assert(in_stride(i + 1, t, q));
        lemma_ports_from_contains(i + 1, t, q);
        assert(worker_ports(i, t).contains(q));
    }
    if q == MAX_PORT && t == MAX_PORT {
        let i = t - 1;
        lemma_ports_from_contains(i + 1, t, q);
        assert(q == stride_term(i + 1, t, 0));
        assert(in_stride(i + 1, t, q));
        assert(worker_ports(i, t).contains(q));
    }
}

/// The ports of a probed list as unbounded integers, for holding an
/// executable result against the partition model.
pub open spec fn as_int_seq(s: Seq<u16>) -> Seq<int> {
    s.map_values(|x: u16| x as int)
}

/// The list of ports assigned to worker `i` of a pool of `t` workers,
/// in probing order: `i + 1`, then steps of `t`, stopping right after
/// the first port within distance `t` of `MAX_PORT`.
pub fn assignment_ports(i: u16, t: u16) -> (r: Vec<u16>)
    requires
        1 <= t,
        i < t,
    ensures
        as_int_seq(r@) == worker_ports(i as int, t as int),
{
    let mut r: Vec<u16> = Vec::new();
    let mut port: u16 = i + 1;
    assert(r@.map_values(|x: u16| x as int) =~= Seq::<int>::empty());
    loop
        invariant_except_break
            worker_ports(i as int, t as int) == r@.map_values(|x: u16| x as int) + ports_from(
                port as int,
                t as int,
            ),
        invariant
            1 <= t <= MAX_PORT,
            i < t,
            1 <= port <= MAX_PORT,
        ensures
            worker_ports(i as int, t as int) == r@.map_values(|x: u16| x as int),
        decreases MAX_PORT - port,
    {
        let ghost prev = r@.map_values(|x: u16| x as int);
        r.push(port);
        assert(r@.map_values(|x: u16| x as int) =~= prev.push(port as int));
        if MAX_PORT - port <= t {
            assert(ports_from(port as int, t as int) == seq![port as int]);
            assert(worker_ports(i as int, t as int) =~= r@.map_values(|x: u16| x as int));
            break;
        }
        assert(ports_from(port as int, t as int) == seq![port as int] + ports_from(
            port as int + t as int,
            t as int,
        ));
        assert(prev + ports_from(port as int, t as int) =~= prev.push(port as int) + ports_from(
            port as int + t as int,
            t as int,
        ));
        port = port + t;
    }
    r
}

/// The full partition of the port space: one assignment per worker,
/// indexed by worker.
pub fn partition_assignments(t: u16) -> (r: Vec<Vec<u16>>)
    requires
        1 <= t,
    ensures
        r@.len() == t as int,
        forall|i: int|
            0 <= i < t as int ==> as_int_seq(#[trigger] r@[i]@) == worker_ports(i, t as int),
{
    let mut r: Vec<Vec<u16>> = Vec::new();
    for i in 0..t
        invariant
            1 <= t,
            r@.len() == i as int,
            forall|k: int|
                0 <= k < i as int ==> as_int_seq(#[trigger] r@[k]@) == worker_ports(k, t as int),
    {
        r.push(assignment_ports(i, t));
    }
    r
}

} // verus!
