use crate::address::{lemma_key_injective, DeviceAddr};
use crate::error::Failure;
use crate::record::{extract, extracted, ip_of, port_of, RawResponse, Target, TargetView};
use std::collections::HashSet;
use std::collections::VecDeque;
use vstd::prelude::*;

verus! {

broadcast use vstd::std_specs::hash::group_hash_axioms;

/// What the discovery stream emits, with each receiver taken as its view.
pub open spec fn out_view(o: Result<Target, Failure>) -> Result<TargetView, Failure> {
    match o {
        Ok(t) => Ok(t@),
        Err(e) => Err(e),
    }
}

pub open spec fn outs_view(v: Seq<Result<Target, Failure>>) -> Seq<Result<TargetView, Failure>> {
    v.map_values(|o: Result<Target, Failure>| out_view(o))
}

/// The receiver an upstream item describes, if any.
pub open spec fn described(item: Result<RawResponse, mdns::Error>) -> Option<TargetView> {
    match item {
        Ok(resp) => extracted(resp.additional@),
        Err(_) => None,
    }
}

/// What one upstream item becomes, given the addresses already emitted: a
/// failure is passed on, a receiver at a new address is emitted, anything
/// else is dropped.
pub open spec fn emit(seen: Set<DeviceAddr>, item: Result<RawResponse, mdns::Error>) -> Option<
    Result<TargetView, Failure>,
> {
    match item {
        Err(e) => Some(Err(Failure::Mdns(e))),
        Ok(_) => match described(item) {
            Some(t) => if seen.contains(t.addr) {
                None
            } else {
                Some(Ok(t))
            },
            None => None,
        },
    }
}

/// The addresses seen once `item` has been taken in.
pub open spec fn seen_step(seen: Set<DeviceAddr>, item: Result<RawResponse, mdns::Error>) -> Set<
    DeviceAddr,
> {
    match described(item) {
        Some(t) => seen.insert(t.addr),
        None => seen,
    }
}

/// The addresses seen once every item of `items` has been taken in.
pub open spec fn seen_after(seen: Set<DeviceAddr>, items: Seq<Result<RawResponse, mdns::Error>>) -> Set<
    DeviceAddr,
>
    decreases items.len(),
{
    if items.len() == 0 {
        seen
    } else {
        seen_step(seen_after(seen, items.drop_last()), items.last())
    }
}

/// What the discovery stream emits for `items`, starting from the addresses `seen`.
pub open spec fn run(seen: Set<DeviceAddr>, items: Seq<Result<RawResponse, mdns::Error>>) -> Seq<
    Result<TargetView, Failure>,
>
    decreases items.len(),
{
    if items.len() == 0 {
        seq![]
    } else {
        let prev = run(seen, items.drop_last());
        match emit(seen_after(seen, items.drop_last()), items.last()) {
            Some(o) => prev.push(o),
            None => prev,
        }
    }
}

proof fn lemma_run_append(
    seen: Set<DeviceAddr>,
    a: Seq<Result<RawResponse, mdns::Error>>,
    b: Seq<Result<RawResponse, mdns::Error>>,
)
    ensures
        run(seen, a + b) == run(seen, a) + run(seen_after(seen, a), b),
        seen_after(seen, a + b) == seen_after(seen_after(seen, a), b),
    decreases b.len(),
{
    if b.len() == 0 {
        assert(a + b =~= a);
        assert(run(seen, a) + run(seen_after(seen, a), b) =~= run(seen, a));
    } else {
        lemma_run_append(seen, a, b.drop_last());
        assert((a + b).drop_last() =~= a + b.drop_last());
        assert((a + b).last() == b.last());
        let p = run(seen, a);
        let q = run(seen_after(seen, a), b.drop_last());
        match emit(seen_after(seen_after(seen, a), b.drop_last()), b.last()) {
            Some(o) => {
                assert(p + q.push(o) =~= (p + q).push(o));
            },
            None => {},
        }
    }
}

/// The filter that keeps a discovery stream free of repeats: it owns the set
/// of addresses already emitted.
pub struct Unique {
    seen: HashSet<u64>,
}

impl View for Unique {
    type V = Set<DeviceAddr>;

    closed spec fn view(&self) -> Set<DeviceAddr> {
        Set::new(|a: DeviceAddr| self.seen@.contains(a.key()))
    }
}

impl Unique {
    /// A filter that has seen no address yet.
    pub fn new() -> (r: Unique)
        ensures
            r@ == Set::<DeviceAddr>::empty(),
    {
        let r = Unique { seen: HashSet::new() };
        assert(r@ =~= Set::<DeviceAddr>::empty());
        r
    }

    /// Takes in one upstream item and says what, if anything, it becomes.
    pub fn take_in(&mut self, item: Result<RawResponse, mdns::Error>) -> (r: Option<
        Result<Target, Failure>,
    >)
        ensures
            final(self)@ == seen_step(old(self)@, item),
            match r {
                None => emit(old(self)@, item) is None,
                Some(o) => emit(old(self)@, item) == Some(out_view(o)),
            },
    {
        match item {
            Err(e) => Some(Err(Failure::Mdns(e))),
            Ok(resp) => match extract(&resp) {
                None => None,
                Some(t) => {
                    let key = t.addr.seen_key();
                    let ghost before = self@;
                    let fresh = self.seen.insert(key);
                    proof {
                        assert forall|a: DeviceAddr| #[trigger]
                            self@.contains(a) == before.insert(t.addr).contains(a) by {
                            lemma_key_injective(a, t.addr);
                        }
                        assert(self@ =~= before.insert(t.addr));
                    }
                    if fresh {
                        Some(Ok(t))
                    } else {
                        None
                    }
                },
            },
        }
    }

    /// Takes items from the front of `upstream` until one of them is to be
    /// emitted, and returns it; returns `None` once `upstream` is empty.
    pub fn next(&mut self, upstream: &mut VecDeque<Result<RawResponse, mdns::Error>>) -> (r: Option<
        Result<Target, Failure>,
    >)
        ensures
            final(upstream)@.len() <= old(upstream)@.len(),
            old(upstream)@ == old(upstream)@.take(
                old(upstream)@.len() - final(upstream)@.len(),
            ) + final(upstream)@,
            final(self)@ == seen_after(
                old(self)@,
                old(upstream)@.take(old(upstream)@.len() - final(upstream)@.len()),
            ),
            run(old(self)@, old(upstream)@.take(old(upstream)@.len() - final(upstream)@.len()))
                == match r {
                Some(o) => seq![out_view(o)],
                None => Seq::<Result<TargetView, Failure>>::empty(),
            },
            r is Some ==> final(upstream)@.len() < old(upstream)@.len(),
            r is Some ==> run(
                old(self)@,
                old(upstream)@.take(old(upstream)@.len() - final(upstream)@.len() - 1),
            ) == Seq::<Result<TargetView, Failure>>::empty(),
            r is None ==> final(upstream)@.len() == 0,
    {
        let ghost orig = upstream@;
        let ghost seen0 = self@;
        assert(orig == old(upstream)@);
        assert(orig.take(0) =~= Seq::<Result<RawResponse, mdns::Error>>::empty());
        loop
            invariant
                orig == old(upstream)@,
                seen0 == old(self)@,
                upstream@.len() <= orig.len(),
                orig == orig.take(orig.len() - upstream@.len()) + upstream@,
                self@ == seen_after(seen0, orig.take(orig.len() - upstream@.len())),
                run(seen0, orig.take(orig.len() - upstream@.len())) == Seq::<
                    Result<TargetView, Failure>,
                >::empty(),
            decreases upstream@.len(),
        {
            let ghost done = orig.take(orig.len() - upstream@.len());
            let ghost rest = upstream@;
            match upstream.pop_front() {
                None => {
                    return None;
                },
                Some(item) => {
                    let ghost it = item;
                    let ghost before = self@;
                    let out = self.take_in(item);
                    proof {
                        let done2 = orig.take(orig.len() - upstream@.len());
                        assert(done2 =~= done.push(it)) by {
                            assert(orig =~= done + rest);
                        }
                        assert(orig =~= done2 + upstream@);
                        assert(done2.drop_last() =~= done);
                        assert(done2.last() == it);
                    }
                    match out {
                        Some(o) => {
                            assert(orig.take(orig.len() - upstream@.len() - 1) == done);
                            return Some(o);
                        },
                        None => {},
                    }
                },
            }
        }
    }
}

/// Runs discovery over a finite sequence of upstream items: each failure is
/// passed on, and each receiver at an address not emitted before is emitted,
/// in arrival order.
pub fn discover_from(upstream: VecDeque<Result<RawResponse, mdns::Error>>) -> (r: Vec<
    Result<Target, Failure>,
>)
    ensures
        outs_view(r@) == run(Set::empty(), upstream@),
{
    let ghost orig = upstream@;
    let mut queue = upstream;
    let mut unique = Unique::new();
    let mut out: Vec<Result<Target, Failure>> = Vec::new();
    assert(orig.take(0) =~= Seq::<Result<RawResponse, mdns::Error>>::empty());
    assert(outs_view(out@) =~= Seq::<Result<TargetView, Failure>>::empty());
    loop
        invariant
            orig == upstream@,
            queue@.len() <= orig.len(),
            orig == orig.take(orig.len() - queue@.len()) + queue@,
            unique@ == seen_after(Set::empty(), orig.take(orig.len() - queue@.len())),
            outs_view(out@) == run(Set::empty(), orig.take(orig.len() - queue@.len())),
        decreases queue@.len(),
    {
        let ghost done = orig.take(orig.len() - queue@.len());
        let ghost rest = queue@;
        let ghost seen = unique@;
        let ghost out0 = out@;
        let next = unique.next(&mut queue);
        let ghost step = rest.take(rest.len() - queue@.len());
        proof {
            assert(orig.take(orig.len() - queue@.len()) =~= done + step) by {
                assert(orig =~= done + rest);
                assert(rest =~= step + queue@);
            }
            lemma_run_append(Set::empty(), done, step);
        }
        match next {
            Some(o) => {
                out.push(o);
                assert(outs_view(out@) =~= outs_view(out0) + seq![out_view(o)]);
            },
            None => {
                assert(orig.take(orig.len() - queue@.len()) =~= orig);
                assert(outs_view(out0) + Seq::<Result<TargetView, Failure>>::empty() =~= outs_view(
                    out0,
                ));
                return out;
            },
        }
    }
}

/// Whether `item` describes a receiver at the address `a`.
pub open spec fn describes(item: Result<RawResponse, mdns::Error>, a: DeviceAddr) -> bool {
    described(item) is Some && described(item)->0.addr == a
}

/// Whether item `k` of `items` is the first to describe a receiver at its address.
pub open spec fn first_at(items: Seq<Result<RawResponse, mdns::Error>>, k: int) -> bool {
    &&& described(items[k]) is Some
    &&& forall|j: int| 0 <= j < k ==> !describes(items[j], described(items[k])->0.addr)
}

/// The receivers that items of `items` are the first to describe at their
/// addresses, in the order of those items.
pub open spec fn first_seen(items: Seq<Result<RawResponse, mdns::Error>>) -> Seq<TargetView>
    decreases items.len(),
{
    if items.len() == 0 {
        seq![]
    } else if first_at(items, items.len() - 1) {
        first_seen(items.drop_last()).push(described(items.last())->0)
    } else {
        first_seen(items.drop_last())
    }
}

/// The receivers among emitted items, in order.
pub open spec fn receivers(outs: Seq<Result<TargetView, Failure>>) -> Seq<TargetView>
    decreases outs.len(),
{
    if outs.len() == 0 {
        seq![]
    } else {
        match outs.last() {
            Ok(t) => receivers(outs.drop_last()).push(t),
            Err(_) => receivers(outs.drop_last()),
        }
    }
}

proof fn lemma_seen_after_empty(items: Seq<Result<RawResponse, mdns::Error>>)
    ensures
        forall|a: DeviceAddr|
            #[trigger] seen_after(Set::empty(), items).contains(a) <==> exists|k: int|
                0 <= k < items.len() && describes(items[k], a),
    decreases items.len(),
{
    if items.len() > 0 {
        let p = items.drop_last();
        lemma_seen_after_empty(p);
        let n = items.len() - 1;
        assert(seen_after(Set::empty(), items) == seen_step(seen_after(Set::empty(), p), items[n]));
        assert forall|a: DeviceAddr| #[trigger]
            seen_after(Set::empty(), items).contains(a) <==> exists|k: int|
                0 <= k < items.len() && describes(items[k], a) by {
            if seen_after(Set::empty(), items).contains(a) {
                if seen_after(Set::empty(), p).contains(a) {
                    let k = choose|k: int| 0 <= k < p.len() && describes(p[k], a);
                    assert(items[k] == p[k]);
                } else {
                    assert(describes(items[n], a));
                }
            }
            if exists|k: int| 0 <= k < items.len() && describes(items[k], a) {
                let k = choose|k: int| 0 <= k < items.len() && describes(items[k], a);
                if k < n {
                    assert(p[k] == items[k]);
                    assert(describes(p[k], a));
                    assert(seen_after(Set::empty(), p).contains(a));
                } else {
                    assert(describes(items[n], a));
                }
            }
        }
    }
}

proof fn lemma_first_seen(items: Seq<Result<RawResponse, mdns::Error>>)
    ensures
        receivers(run(Set::empty(), items)) == first_seen(items),
        forall|i: int, j: int|
            0 <= i < j < first_seen(items).len() ==> first_seen(items)[i].addr
                != first_seen(items)[j].addr,
        forall|i: int|
            0 <= i < first_seen(items).len() ==> exists|k: int|
                0 <= k < items.len() && describes(items[k], #[trigger] first_seen(items)[i].addr),
        forall|k: int|
            0 <= k < items.len() && described(#[trigger] items[k]) is Some ==> exists|i: int|
                0 <= i < first_seen(items).len() && first_seen(items)[i].addr == described(
                    items[k],
                )->0.addr,
    decreases items.len(),
{
    if items.len() > 0 {
        let n = items.len() - 1;
        let p = items.drop_last();
        lemma_first_seen(p);
        lemma_seen_after_empty(p);
        let prev = run(Set::empty(), p);
        let fp = first_seen(p);
        let fs = first_seen(items);
        assert forall|k: int| 0 <= k < n implies p[k] == items[k] by {}
        assert forall|k: int| 0 <= k < n implies first_at(p, k) == first_at(items, k) by {
            assert(p[k] == items[k]);
        }
        match emit(seen_after(Set::empty(), p), items.last()) {
            Some(o) => {
                assert(run(Set::empty(), items) == prev.push(o));
                assert(prev.push(o).drop_last() =~= prev);
            },
            None => {},
        }
        if first_at(items, n) {
            let t = described(items.last())->0;
            assert(!seen_after(Set::empty(), p).contains(t.addr)) by {
                if seen_after(Set::empty(), p).contains(t.addr) {
                    let k = choose|k: int| 0 <= k < p.len() && describes(p[k], t.addr);
                    assert(p[k] == items[k]);
                }
            }
            assert(fs == fp.push(t));
            assert forall|i: int, j: int| 0 <= i < j < fs.len() implies fs[i].addr
                != fs[j].addr by {
                if j == n || j == fp.len() {
                    let k = choose|k: int| 0 <= k < p.len() && describes(p[k], fp[i].addr);
                    assert(items[k] == p[k]);
                } else {
                    assert(fs[i] == fp[i] && fs[j] == fp[j]);
                }
            }
            assert forall|i: int| 0 <= i < fs.len() implies exists|k: int|
                0 <= k < items.len() && describes(items[k], #[trigger] fs[i].addr) by {
                if i < fp.len() {
                    let k = choose|k: int| 0 <= k < p.len() && describes(p[k], fp[i].addr);
                    assert(items[k] == p[k] && fs[i] == fp[i]);
                } else {
                    assert(describes(items[n], fs[i].addr));
                }
            }
            assert forall|k: int| 0 <= k < items.len() && described(#[trigger] items[k]) is Some
                implies exists|i: int|
                0 <= i < fs.len() && fs[i].addr == described(items[k])->0.addr by {
                if k < n {
                    assert(p[k] == items[k]);
                    let i = choose|i: int|
                        0 <= i < fp.len() && fp[i].addr == described(p[k])->0.addr;
                    assert(fs[i] == fp[i]);
                } else {
                    assert(fs[fp.len() as int] == t);
                }
            }
        } else {
            assert(fs == fp);
            if described(items.last()) is Some {
                let t = described(items.last())->0;
                let j = choose|j: int| 0 <= j < n && describes(items[j], t.addr);
                assert(describes(p[j], t.addr));
                assert(seen_after(Set::empty(), p).contains(t.addr));
            }
            assert forall|i: int| 0 <= i < fs.len() implies exists|k: int|
                0 <= k < items.len() && describes(items[k], #[trigger] fs[i].addr) by {
                let k = choose|k: int| 0 <= k < p.len() && describes(p[k], fp[i].addr);
                assert(items[k] == p[k]);
            }
            assert forall|k: int| 0 <= k < items.len() && described(#[trigger] items[k]) is Some
                implies exists|i: int|
                0 <= i < fs.len() && fs[i].addr == described(items[k])->0.addr by {
                if k < n {
                    assert(p[k] == items[k]);
                } else {
                    let j = choose|j: int|
                        0 <= j < n && describes(items[j], described(items[k])->0.addr);
                    assert(p[j] == items[j]);
                }
            }
        }
    }
}

/// Discovery over a finite upstream emits each described address exactly once,
/// in first-seen order: the receivers it emits are, in order, the ones that
/// items are the first to describe at their address; no two of them share an
/// address; and every address that an item describes is among them.
pub proof fn lemma_each_address_once(items: Seq<Result<RawResponse, mdns::Error>>)
    ensures
        receivers(run(Set::empty(), items)) == first_seen(items),
        forall|i: int, j: int|
            0 <= i < j < first_seen(items).len() ==> first_seen(items)[i].addr
                != first_seen(items)[j].addr,
        forall|k: int|
            0 <= k < items.len() && described(#[trigger] items[k]) is Some ==> exists|i: int|
                0 <= i < first_seen(items).len() && first_seen(items)[i].addr == described(
                    items[k],
                )->0.addr,
{
    lemma_first_seen(items);
}

/// When the upstream is a single failure, discovery emits exactly that failure
/// and no receiver.
pub proof fn lemma_failure_passed_on(e: mdns::Error)
    ensures
        run(Set::empty(), seq![Err(e)]) == seq![Err::<TargetView, Failure>(Failure::Mdns(e))],
{
    let items = seq![Err::<RawResponse, mdns::Error>(e)];
    let none = Seq::<Result<RawResponse, mdns::Error>>::empty();
    assert(items.drop_last() =~= none);
    assert(run(Set::empty(), none) == Seq::<Result<TargetView, Failure>>::empty());
    assert(items.last() == Err::<RawResponse, mdns::Error>(e));
    assert(seq![].push(Err::<TargetView, Failure>(Failure::Mdns(e))) =~= seq![
        Err::<TargetView, Failure>(Failure::Mdns(e)),
    ]);
}

/// Receivers are told apart by address alone: two answers whose first address
/// record and first service record agree describe the same address, whatever
/// their names and the order of their other records, and discovery emits only
/// the first of them.
pub proof fn lemma_same_address_same_device(r1: RawResponse, r2: RawResponse)
    requires
        extracted(r1.additional@) is Some,
        extracted(r2.additional@) is Some,
        ip_of(r1.additional@, 0) == ip_of(r2.additional@, 0),
        port_of(r1.additional@, 0) == port_of(r2.additional@, 0),
    ensures
        extracted(r1.additional@)->0.addr == extracted(r2.additional@)->0.addr,
        run(Set::empty(), seq![Ok(r1), Ok(r2)]) == seq![
            Ok::<TargetView, Failure>(extracted(r1.additional@)->0),
        ],
{
    let items = seq![Ok::<RawResponse, mdns::Error>(r1), Ok(r2)];
    let one = items.drop_last();
    assert(one =~= seq![Ok::<RawResponse, mdns::Error>(r1)]);
    let none = Seq::<Result<RawResponse, mdns::Error>>::empty();
    assert(one.drop_last() =~= none);
    assert(run(Set::empty(), none) == Seq::<Result<TargetView, Failure>>::empty());
    assert(seen_after(Set::empty(), none) == Set::<DeviceAddr>::empty());
    let t = extracted(r1.additional@)->0;
    assert(one.last() == Ok::<RawResponse, mdns::Error>(r1));
    assert(items.last() == Ok::<RawResponse, mdns::Error>(r2));
    assert(seen_after(Set::empty(), one) == Set::<DeviceAddr>::empty().insert(t.addr));
    assert(run(Set::empty(), one) == seq![Ok::<TargetView, Failure>(t)]) by {
        assert(seq![].push(Ok::<TargetView, Failure>(t)) =~= seq![Ok::<TargetView, Failure>(t)]);
    }
    assert(seq![].push(Ok::<TargetView, Failure>(t)) =~= seq![Ok::<TargetView, Failure>(t)]);
}

} // verus!
