use vstd::prelude::*;

use crate::record::{option_view, option_views, views, PortInfo, PortView};

verus! {

/// Two records that name the same process, port and protocol.
pub open spec fn same_key(a: PortView, b: PortView) -> bool {
    a.pid == b.pid && a.port == b.port && a.protocol == b.protocol
}

pub open spec fn has_key(s: Seq<PortView>, r: PortView) -> bool {
    exists|i: int| 0 <= i < s.len() && same_key(#[trigger] s[i], r)
}

/// The records kept after one more candidate: it is kept unless it is absent, has port 0,
/// or repeats the key of a record already kept.
pub open spec fn keep_step(k: Seq<PortView>, c: Option<PortView>) -> Seq<PortView> {
    match c {
        None => k,
        Some(r) => if r.port == 0 || has_key(k, r) {
            k
        } else {
            k.push(r)
        },
    }
}

/// The records kept from the candidates, in the order of their first occurrence.
pub open spec fn kept(c: Seq<Option<PortView>>) -> Seq<PortView>
    decreases c.len(),
{
    if c.len() == 0 {
        Seq::empty()
    } else {
        keep_step(kept(c.drop_last()), c.last())
    }
}

/// One past the last index whose port is at most `p` (0 where there is none).
pub open spec fn upper_bound(s: Seq<PortView>, p: u16) -> int
    decreases s.len(),
{
    if s.len() == 0 {
        0
    } else if s.last().port <= p {
        s.len() as int
    } else {
        upper_bound(s.drop_last(), p)
    }
}

/// `r` placed after every record whose port is at most its own.
pub open spec fn insert_by_port(s: Seq<PortView>, r: PortView) -> Seq<PortView> {
    s.insert(upper_bound(s, r.port), r)
}

/// The stable sort of `s` by port.
pub open spec fn sort_by_port(s: Seq<PortView>) -> Seq<PortView>
    decreases s.len(),
{
    if s.len() == 0 {
        Seq::empty()
    } else {
        insert_by_port(sort_by_port(s.drop_last()), s.last())
    }
}

/// The listing made of a sequence of candidate records.
pub open spec fn collected(c: Seq<Option<PortView>>) -> Seq<PortView> {
    sort_by_port(kept(c))
}

pub open spec fn sorted_by_port(s: Seq<PortView>) -> bool {
    forall|i: int, j: int| 0 <= i < j < s.len() ==> s[i].port <= s[j].port
}

/// The records of `s` whose port is `p`, in their order in `s`.
pub open spec fn with_port(s: Seq<PortView>, p: u16) -> Seq<PortView>
    decreases s.len(),
{
    if s.len() == 0 {
        Seq::empty()
    } else if s.last().port == p {
        with_port(s.drop_last(), p).push(s.last())
    } else {
        with_port(s.drop_last(), p)
    }
}

pub open spec fn unique_keys(s: Seq<PortView>) -> bool {
    forall|i: int, j: int|
        0 <= i < s.len() && 0 <= j < s.len() && i != j ==> !same_key(#[trigger] s[i], #[trigger] s[j])
}

proof fn lemma_upper_bound(s: Seq<PortView>, p: u16)
    ensures
        0 <= upper_bound(s, p) <= s.len(),
        forall|i: int| upper_bound(s, p) <= i < s.len() ==> #[trigger] s[i].port > p,
        upper_bound(s, p) > 0 ==> s[upper_bound(s, p) - 1].port <= p,
    decreases s.len(),
{
    if s.len() > 0 && s.last().port > p {
        lemma_upper_bound(s.drop_last(), p);
        assert forall|i: int| upper_bound(s, p) <= i < s.len() implies #[trigger] s[i].port > p by {
            if i < s.len() - 1 {
                assert(s[i] == s.drop_last()[i]);
            }
        }
    }
}

proof fn lemma_insert_contains(s: Seq<PortView>, k: int, r: PortView)
    requires
        0 <= k <= s.len(),
    ensures
        s.insert(k, r).len() == s.len() + 1,
        forall|x: PortView| #[trigger] s.insert(k, r).contains(x) <==> (s.contains(x) || x == r),
{
    let t = s.insert(k, r);
    assert forall|x: PortView| #[trigger] t.contains(x) <==> (s.contains(x) || x == r) by {
        if t.contains(x) {
            let i = choose|i: int| 0 <= i < t.len() && t[i] == x;
            if i < k {
                assert(s[i] == x);
            } else if i > k {
                assert(s[i - 1] == x);
            }
        }
        if s.contains(x) {
            let i = choose|i: int| 0 <= i < s.len() && s[i] == x;
            if i < k {
                assert(t[i] == x);
            } else {
                assert(t[i + 1] == x);
            }
        }
        if x == r {
            assert(t[k] == x);
        }
    }
}

/// Sorting keeps exactly the records it is given.
pub proof fn lemma_sort_contains(s: Seq<PortView>)
    ensures
        sort_by_port(s).len() == s.len(),
        forall|x: PortView| #[trigger] sort_by_port(s).contains(x) <==> s.contains(x),
    decreases s.len(),
{
    if s.len() > 0 {
        let t = sort_by_port(s.drop_last());
        lemma_sort_contains(s.drop_last());
        lemma_upper_bound(t, s.last().port);
        lemma_insert_contains(t, upper_bound(t, s.last().port), s.last());
        assert forall|x: PortView| #[trigger] s.contains(x) <==> (s.drop_last().contains(x) || x
            == s.last()) by {
            if s.contains(x) {
                let i = choose|i: int| 0 <= i < s.len() && s[i] == x;
                if i < s.len() - 1 {
                    assert(s.drop_last()[i] == x);
                }
            }
            if s.drop_last().contains(x) {
                let i = choose|i: int| 0 <= i < s.len() - 1 && s.drop_last()[i] == x;
                assert(s[i] == x);
            }
            if x == s.last() {
                assert(s[s.len() - 1] == x);
            }
        }
    }
}

proof fn lemma_has_key_contains(a: Seq<PortView>, b: Seq<PortView>, r: PortView)
    requires
        forall|x: PortView| #[trigger] a.contains(x) ==> b.contains(x),
        has_key(a, r),
    ensures
        has_key(b, r),
{
    let i = choose|i: int| 0 <= i < a.len() && same_key(#[trigger] a[i], r);
    assert(a.contains(a[i]));
    let j = choose|j: int| 0 <= j < b.len() && b[j] == a[i];
    assert(same_key(b[j], r));
}

/// Sorting changes no answer to "is this key present".
pub proof fn lemma_sort_has_key(s: Seq<PortView>, r: PortView)
    ensures
        has_key(sort_by_port(s), r) == has_key(s, r),
{
    lemma_sort_contains(s);
    if has_key(s, r) {
        lemma_has_key_contains(s, sort_by_port(s), r);
    }
    if has_key(sort_by_port(s), r) {
        lemma_has_key_contains(sort_by_port(s), s, r);
    }
}

/// The result of a stable sort by port is in ascending port order.
pub proof fn lemma_sort_sorted(s: Seq<PortView>)
    ensures
        sorted_by_port(sort_by_port(s)),
    decreases s.len(),
{
    if s.len() > 0 {
        let t = sort_by_port(s.drop_last());
        let r = s.last();
        lemma_sort_sorted(s.drop_last());
        lemma_upper_bound(t, r.port);
        let k = upper_bound(t, r.port);
        let u = t.insert(k, r);
        assert forall|i: int, j: int| 0 <= i < j < u.len() implies u[i].port <= u[j].port by {
            if k > 0 {
                assert(t[k - 1].port <= r.port);
            }
            if i < k && j > k {
                assert(t[i].port <= t[k - 1].port);
            }
            if i < k && j < k {
                assert(t[i].port <= t[j].port);
            }
            if i > k {
                assert(t[i - 1].port <= t[j - 1].port);
            }
            if i == k && j > k {
                assert(t[j - 1].port > r.port);
            }
            if j == k && i < k {
                assert(t[i].port <= t[k - 1].port);
            }
        }
    }
}

proof fn lemma_with_port_none(s: Seq<PortView>, p: u16)
    requires
        forall|i: int| 0 <= i < s.len() ==> #[trigger] s[i].port != p,
    ensures
        with_port(s, p) == Seq::<PortView>::empty(),
    decreases s.len(),
{
    if s.len() > 0 {
        assert(s.last().port != p);
        lemma_with_port_none(s.drop_last(), p);
    }
}

proof fn lemma_with_port_concat(a: Seq<PortView>, b: Seq<PortView>, p: u16)
    ensures
        with_port(a + b, p) == with_port(a, p) + with_port(b, p),
    decreases b.len(),
{
    if b.len() == 0 {
        assert(a + b =~= a);
        assert(with_port(a, p) + with_port(b, p) =~= with_port(a, p));
    } else {
        assert((a + b).drop_last() =~= a + b.drop_last());
        assert((a + b).last() == b.last());
        lemma_with_port_concat(a, b.drop_last(), p);
        if b.last().port == p {
            assert(with_port(a, p) + with_port(b.drop_last(), p).push(b.last()) =~= (with_port(
                a,
                p,
            ) + with_port(b.drop_last(), p)).push(b.last()));
        }
    }
}

proof fn lemma_with_port_insert(s: Seq<PortView>, r: PortView, q: u16)
    ensures
        with_port(insert_by_port(s, r), q) == if r.port == q {
            with_port(s, q).push(r)
        } else {
            with_port(s, q)
        },
{
    lemma_upper_bound(s, r.port);
    let k = upper_bound(s, r.port);
    let lo = s.subrange(0, k);
    let hi = s.subrange(k, s.len() as int);
    assert(insert_by_port(s, r) =~= lo + seq![r] + hi);
    assert(s =~= lo + hi);
    lemma_with_port_concat(lo + seq![r], hi, q);
    lemma_with_port_concat(lo, seq![r], q);
    lemma_with_port_concat(lo, hi, q);
    assert(seq![r].drop_last() =~= Seq::<PortView>::empty());
    assert(seq![r].last() == r);
    assert(with_port(Seq::<PortView>::empty(), q) == Seq::<PortView>::empty());
    if r.port == q {
        assert(with_port(seq![r], q) =~= seq![r]);
    } else {
        assert(with_port(seq![r], q) =~= Seq::<PortView>::empty());
    }
    if r.port == q {
        assert forall|i: int| 0 <= i < hi.len() implies #[trigger] hi[i].port != q by {
            assert(hi[i] == s[k + i]);
        }
        lemma_with_port_none(hi, q);
        assert(with_port(lo, q) + seq![r] =~= with_port(lo, q).push(r));
        assert(with_port(lo, q) + Seq::<PortView>::empty() =~= with_port(lo, q));
        assert((with_port(lo, q) + seq![r]) + Seq::<PortView>::empty() =~= with_port(lo, q) + seq![r]);
    } else {
        assert(with_port(lo, q) + Seq::<PortView>::empty() =~= with_port(lo, q));
    }
}

/// A stable sort by port keeps, for each port, the records of that port in their order.
pub proof fn lemma_sort_with_port(s: Seq<PortView>, q: u16)
    ensures
        with_port(sort_by_port(s), q) == with_port(s, q),
    decreases s.len(),
{
    if s.len() > 0 {
        lemma_sort_with_port(s.drop_last(), q);
        lemma_with_port_insert(sort_by_port(s.drop_last()), s.last(), q);
    }
}

proof fn lemma_kept_facts(c: Seq<Option<PortView>>)
    ensures
        unique_keys(kept(c)),
        forall|i: int| 0 <= i < kept(c).len() ==> #[trigger] kept(c)[i].port != 0,
    decreases c.len(),
{
    if c.len() > 0 {
        lemma_kept_facts(c.drop_last());
        let k = kept(c.drop_last());
        match c.last() {
            None => {},
            Some(r) => {
                if !(r.port == 0 || has_key(k, r)) {
                    let t = k.push(r);
                    assert forall|i: int, j: int|
                        0 <= i < t.len() && 0 <= j < t.len() && i != j implies !same_key(
                        #[trigger] t[i],
                        #[trigger] t[j],
                    ) by {
                        if i == k.len() {
                            assert(!same_key(k[j], r));
                        } else if j == k.len() {
                            assert(!same_key(k[i], r));
                        }
                    }
                    assert forall|i: int| 0 <= i < t.len() implies #[trigger] t[i].port != 0 by {
                        if i < k.len() {
                            assert(t[i] == k[i]);
                        }
                    }
                }
            },
        }
    }
}

proof fn lemma_sort_unique(s: Seq<PortView>)
    requires
        unique_keys(s),
    ensures
        unique_keys(sort_by_port(s)),
    decreases s.len(),
{
    if s.len() > 0 {
        let s0 = s.drop_last();
        let r = s.last();
        assert(unique_keys(s0)) by {
            assert forall|i: int, j: int|
                0 <= i < s0.len() && 0 <= j < s0.len() && i != j implies !same_key(
                #[trigger] s0[i],
                #[trigger] s0[j],
            ) by {
                assert(s0[i] == s[i] && s0[j] == s[j]);
            }
        }
        lemma_sort_unique(s0);
        assert(!has_key(s0, r)) by {
            if has_key(s0, r) {
                let i = choose|i: int| 0 <= i < s0.len() && same_key(#[trigger] s0[i], r);
                assert(same_key(s[i], s[s.len() - 1]));
            }
        }
        lemma_sort_has_key(s0, r);
        let t = sort_by_port(s0);
        lemma_upper_bound(t, r.port);
        let k = upper_bound(t, r.port);
        let u = t.insert(k, r);
        assert forall|i: int, j: int|
            0 <= i < u.len() && 0 <= j < u.len() && i != j implies !same_key(
            #[trigger] u[i],
            #[trigger] u[j],
        ) by {
            let ti = if i < k {
                i
            } else {
                i - 1
            };
            let tj = if j < k {
                j
            } else {
                j - 1
            };
            if i == k {
                assert(!same_key(t[tj], r));
            } else if j == k {
                assert(!same_key(t[ti], r));
            } else {
                assert(u[i] == t[ti] && u[j] == t[tj]);
            }
        }
    }
}

/// No two records of a listing share their process, port and protocol.
pub proof fn lemma_collected_unique(c: Seq<Option<PortView>>)
    ensures
        unique_keys(collected(c)),
{
    lemma_kept_facts(c);
    lemma_sort_unique(kept(c));
}

/// No record of a listing has port 0.
pub proof fn lemma_collected_no_zero_port(c: Seq<Option<PortView>>)
    ensures
        forall|i: int| 0 <= i < collected(c).len() ==> #[trigger] collected(c)[i].port != 0,
{
    lemma_kept_facts(c);
    lemma_sort_contains(kept(c));
    assert forall|i: int| 0 <= i < collected(c).len() implies #[trigger] collected(c)[i].port
        != 0 by {
        assert(collected(c).contains(collected(c)[i]));
        assert(kept(c).contains(collected(c)[i]));
    }
}

/// A listing is in ascending port order, and the records of one port stand in the order in
/// which their first occurrences came.
pub proof fn lemma_collected_order(c: Seq<Option<PortView>>, p: u16)
    ensures
        sorted_by_port(collected(c)),
        with_port(collected(c), p) == with_port(kept(c), p),
{
    lemma_sort_sorted(kept(c));
    lemma_sort_with_port(kept(c), p);
}

/// Adds one candidate to a listing under way.
fn offer(out: &mut Vec<PortInfo>, cand: Option<PortInfo>, Ghost(k): Ghost<Seq<PortView>>)
    requires
        views(old(out)@) == sort_by_port(k),
    ensures
        views(final(out)@) == sort_by_port(keep_step(k, option_view(cand))),
{
    match cand {
        None => {},
        Some(r) => {
            if r.port == 0 {
                return ;
            }
            let n = out.len();
            let mut j: usize = 0;
            while j < n
                invariant
                    n == out@.len(),
                    j <= n,
                    option_view(cand) == Some(r@),
                    views(out@) == sort_by_port(k),
                    forall|i: int| 0 <= i < j ==> !same_key(#[trigger] views(out@)[i], r@),
                decreases n - j,
            {
                if out[j].pid == r.pid && out[j].port == r.port && out[j].protocol == r.protocol {
                    proof {
                        assert(same_key(views(out@)[j as int], r@));
                        assert(has_key(sort_by_port(k), r@));
                        lemma_sort_has_key(k, r@);
                    }
                    return ;
                }
                j += 1;
            }
            proof {
                lemma_sort_has_key(k, r@);
                assert(k.push(r@).drop_last() =~= k);
            }
            let mut m: usize = n;
            let ghost v = views(out@);
            proof {
                assert(v.subrange(0, n as int) =~= v);
            }
            while m > 0 && out[m - 1].port > r.port
                invariant
                    n == out@.len(),
                    m <= n,
                    v == views(out@),
                    upper_bound(v, r.port) == upper_bound(v.subrange(0, m as int), r.port),
                decreases m,
            {
                assert(v.subrange(0, m as int).drop_last() =~= v.subrange(0, m - 1));
                m -= 1;
            }
            proof {
                if m > 0 {
                    assert(v.subrange(0, m as int).last() == v[m - 1]);
                }
            }
            let ghost rv = r@;
            out.insert(m, r);
            assert(views(out@) =~= v.insert(m as int, rv));
        },
    }
}

/// The listing made of a sequence of candidate records: duplicates of a key and records with
/// port 0 left out, the rest sorted by port, stably.
pub fn collect_ports(cands: Vec<Option<PortInfo>>) -> (r: Vec<PortInfo>)
    ensures
        views(r@) == collected(option_views(cands@)),
{
    let ghost c = option_views(cands@);
    let mut rest = cands;
    let mut out: Vec<PortInfo> = Vec::new();
    let mut i: usize = 0;
    let n = rest.len();
    assert(views(out@) =~= Seq::<PortView>::empty());
    while rest.len() > 0
        invariant
            n == c.len(),
            i + rest@.len() == n,
            option_views(rest@) == c.subrange(i as int, n as int),
            views(out@) == sort_by_port(kept(c.subrange(0, i as int))),
        decreases rest.len(),
    {
        let ghost rv = option_views(rest@);
        let cand = rest.remove(0);
        proof {
            assert(option_view(cand) == rv[0]);
            assert(option_views(rest@) =~= rv.drop_first());
            assert(c.subrange(0, i + 1).drop_last() =~= c.subrange(0, i as int));
            assert(c.subrange(0, i + 1).last() == rv[0]);
        }
        offer(&mut out, cand, Ghost(kept(c.subrange(0, i as int))));
        i += 1;
    }
    assert(c.subrange(0, n as int) =~= c);
    out
}

} // verus!
