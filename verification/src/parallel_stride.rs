//! How items are dealt to workers that run side by side: how many workers
//! run, which items each takes (every `n`th, from its own start), and how
//! their results are put back in the items' order. The threads themselves
//! are the caller's.
use vstd::prelude::*;

verus! {

/// How many workers run: as many as asked, but no more than there are
/// items, and at least one.
pub open spec fn worker_count_spec(concurrency: nat, total: nat) -> nat {
    let m = if concurrency < total {
        concurrency
    } else {
        total
    };
    if m < 1 {
        1
    } else {
        m
    }
}

pub fn worker_count(concurrency: usize, total: usize) -> (res: usize)
    ensures
        res == worker_count_spec(concurrency as nat, total as nat),
        res >= 1,
{
    let m = if concurrency < total {
        concurrency
    } else {
        total
    };
    if m < 1 {
        1
    } else {
        m
    }
}

/// How many workers run the projects of a Jest run: one when asked to run
/// them one after another, else three.
pub fn project_stride(sequential: bool) -> (res: usize)
    ensures
        res == if sequential {
            1usize
        } else {
            3usize
        },
{
    if sequential {
        1
    } else {
        3
    }
}

/// The items a worker takes: from `start`, every `workers`th item below
/// `total`.
pub open spec fn takes(start: nat, workers: nat, total: nat, i: nat) -> bool {
    start <= i < total && (i - start) % (workers as int) == 0
}

/// The indices a worker takes, in order.
pub open spec fn stride_seq(start: nat, workers: nat, total: nat) -> Seq<nat>
    decreases (if start < total {
        total - start
    } else {
        0
    }),
    when workers >= 1
{
    if start >= total {
        Seq::empty()
    } else {
        seq![start] + stride_seq(start + workers, workers, total)
    }
}

/// The indices the worker starting at `start` takes (see [`stride_seq`]).
pub fn stride_indices(start: usize, workers: usize, total: usize) -> (res: Vec<usize>)
    requires
        workers >= 1,
        total + workers <= usize::MAX,
    ensures
        res@.map_values(|i: usize| i as nat) == stride_seq(start as nat, workers as nat, total as nat),
    decreases (if start < total {
        total - start
    } else {
        0
    }),
{
    if start >= total {
        return Vec::new();
    }
    let rest = stride_indices(start + workers, workers, total);
    let mut out: Vec<usize> = Vec::new();
    out.push(start);
    let mut k: usize = 0;
    while k < rest.len()
        invariant
            k <= rest.len(),
            out@.map_values(|i: usize| i as nat) == seq![start as nat] + rest@.map_values(|i: usize| i as nat).take(
                k as int,
            ),
        decreases rest.len() - k,
    {
        let ghost before = out@.map_values(|i: usize| i as nat);
        out.push(rest[k]);
        assert(out@.map_values(|i: usize| i as nat) =~= before.push(rest@[k as int] as nat));
        assert(rest@.map_values(|i: usize| i as nat).take(k + 1) =~= rest@.map_values(|i: usize| i as nat).take(
            k as int,
        ).push(rest@[k as int] as nat));
        k = k + 1;
    }
    assert(rest@.map_values(|i: usize| i as nat).take(rest.len() as int) =~= rest@.map_values(|i: usize| i as nat));
    out
}

proof fn lemma_stride_seq_members(start: nat, workers: nat, total: nat, i: nat)
    requires
        workers >= 1,
    ensures
        stride_seq(start, workers, total).contains(i) <==> takes(start, workers, total, i),
    decreases (if start < total {
        total - start
    } else {
        0
    }),
{
    if start < total {
        lemma_stride_seq_members(start + workers, workers, total, i);
        let s = stride_seq(start, workers, total);
        let r = stride_seq(start + workers, workers, total);
        assert(s == seq![start] + r);
        let w = workers as int;
        if i == start {
            assert(s[0] == i);
            vstd::arithmetic::div_mod::lemma_small_mod(0nat, workers);
            assert((i - start) % w == 0);
        } else {
            if r.contains(i) {
                let k = choose|k: int| 0 <= k < r.len() && r[k] == i;
                assert(s[k + 1] == i);
                vstd::arithmetic::div_mod::lemma_mod_add_multiples_vanish(i - start - w, w);
                assert(w + (i - start - w) == i - start);
            }
            if s.contains(i) {
                let k = choose|k: int| 0 <= k < s.len() && s[k] == i;
                if k > 0 {
                    assert(r[k - 1] == i);
                }
            }
            if takes(start, workers, total, i) {
                vstd::arithmetic::div_mod::lemma_mod_sub_multiples_vanish(i - start, w);
                assert(-w + (i - start) == i - (start + workers));
                if i < start + workers {
                    vstd::arithmetic::div_mod::lemma_small_mod((i - start) as nat, workers);
                }
                assert(takes(start + workers, workers, total, i));
            }
        }
    }
}

/// Dealing the items to the workers runs each item exactly once: item `i`
/// is taken by the worker that starts at `i % workers`, and by no other.
pub proof fn law_stride_partition(workers: nat, total: nat, i: nat)
    requires
        workers >= 1,
        i < total,
    ensures
        stride_seq(i % workers, workers, total).contains(i),
        forall|w: nat| w < workers && w != i % workers ==> !(#[trigger] stride_seq(w, workers, total)).contains(i),
{
    let m = workers as int;
    let q = (i as int) / m;
    let r = (i as int) % m;
    vstd::arithmetic::div_mod::lemma_fundamental_div_mod(i as int, m);
    vstd::arithmetic::div_mod::lemma_mod_bound(i as int, m);
    vstd::arithmetic::div_mod::lemma_div_pos_is_pos(i as int, m);
    vstd::arithmetic::mul::lemma_mul_nonnegative(m, q);
    vstd::arithmetic::mul::lemma_mul_is_commutative(m, q);
    vstd::arithmetic::div_mod::lemma_mod_multiples_basic(q, m);
    assert(i - r == m * q);
    lemma_stride_seq_members(i % workers, workers, total, i);
    assert(takes(i % workers, workers, total, i));
    assert forall|w: nat| w < workers && w != i % workers implies !(#[trigger] stride_seq(w, workers, total)).contains(
        i,
    ) by {
        lemma_stride_seq_members(w, workers, total, i);
        if takes(w, workers, total, i) {
            let d = i - w;
            vstd::arithmetic::div_mod::lemma_fundamental_div_mod(d, m);
            let k = d / m;
            assert(d == m * k);
            assert(i == m * k + w);
            vstd::arithmetic::div_mod::lemma_mod_multiples_vanish(k, w as int, m);
            vstd::arithmetic::div_mod::lemma_small_mod(w, workers);
            assert((i as int) % m == w);
        }
    }
}

/// The results that came back, in the items' order (an item without a
/// result is left out).
pub open spec fn somes<T>(slots: Seq<Option<T>>) -> Seq<T>
    decreases slots.len(),
{
    if slots.len() == 0 {
        Seq::empty()
    } else {
        match slots.last() {
            Some(v) => somes(slots.drop_last()).push(v),
            None => somes(slots.drop_last()),
        }
    }
}

pub fn collect_in_order<T>(slots: Vec<Option<T>>) -> (res: Vec<T>)
    ensures
        res@ == somes(slots@),
{
    let ghost all = slots@;
    let mut rest = slots;
    let mut out: Vec<T> = Vec::new();
    let n = rest.len();
    let mut i: usize = 0;
    while i < n
        invariant
            i <= n,
            n == all.len(),
            rest@ == all.skip(i as int),
            out@ == somes(all.take(i as int)),
        decreases n - i,
    {
        let ghost before = rest@;
        let slot = rest.remove(0);
        assert(rest@ =~= before.drop_first());
        assert(all.skip(i as int).drop_first() =~= all.skip(i + 1));
        assert(all.take(i + 1).drop_last() =~= all.take(i as int));
        assert(all.take(i + 1).last() == all[i as int]);
        assert(before[0] == all[i as int]);
        match slot {
            Some(v) => {
                out.push(v);
            },
            None => {},
        }
        i = i + 1;
    }
    assert(all.take(n as int) =~= all);
    out
}


/// A worker takes its items in increasing order, each once.
pub proof fn law_stride_increasing(start: nat, workers: nat, total: nat)
    requires
        workers >= 1,
    ensures
        forall|i: int, j: int|
            0 <= i < j < stride_seq(start, workers, total).len() ==> #[trigger] stride_seq(start, workers, total)[i]
                < #[trigger] stride_seq(start, workers, total)[j],
        forall|i: int|
            0 <= i < stride_seq(start, workers, total).len() ==> start <= #[trigger] stride_seq(start, workers, total)[i],
    decreases (if start < total {
        total - start
    } else {
        0
    }),
{
    if start < total {
        law_stride_increasing(start + workers, workers, total);
        let s = stride_seq(start, workers, total);
        let r = stride_seq(start + workers, workers, total);
        assert(s == seq![start] + r);
        assert forall|i: int| 0 <= i < s.len() implies start <= #[trigger] s[i] by {
            if i > 0 {
                assert(s[i] == r[i - 1]);
            }
        }
        assert forall|i: int, j: int| 0 <= i < j < s.len() implies #[trigger] s[i] < #[trigger] s[j] by {
            assert(s[j] == r[j - 1]);
            if i > 0 {
                assert(s[i] == r[i - 1]);
            }
        }
    }
}

/// When every item gave a result, the results come back one per item, in
/// the items' order.
pub proof fn law_collect_all_results<T>(slots: Seq<Option<T>>)
    requires
        forall|i: int| 0 <= i < slots.len() ==> (#[trigger] slots[i]) is Some,
    ensures
        somes(slots).len() == slots.len(),
        forall|i: int| 0 <= i < slots.len() ==> Some(#[trigger] somes(slots)[i]) == slots[i],
    decreases slots.len(),
{
    if slots.len() > 0 {
        let p = slots.drop_last();
        assert forall|i: int| 0 <= i < p.len() implies (#[trigger] p[i]) is Some by {
            assert(p[i] == slots[i]);
        }
        law_collect_all_results(p);
        assert(slots.last() is Some);
        assert forall|i: int| 0 <= i < slots.len() implies Some(#[trigger] somes(slots)[i]) == slots[i] by {
            if i < p.len() {
                assert(somes(slots)[i] == somes(p)[i]);
                assert(p[i] == slots[i]);
            }
        }
    }
}


/// The result slots after every worker ran its items: the slot of item `i`
/// holds its result when some worker took item `i`.
pub open spec fn slots_after_run<T>(workers: nat, results: Seq<T>) -> Seq<Option<T>> {
    Seq::new(
        results.len(),
        |i: int|
            if exists|w: nat| w < workers && #[trigger] stride_seq(w, workers, results.len()).contains(i as nat) {
                Some(results[i])
            } else {
                None
            },
    )
}

/// Running items side by side, whatever the concurrency asked (none
/// included): at least one worker runs; every item is run by exactly one
/// worker (the one starting at its index modulo the workers), once, as a
/// worker's indices increase; no index past the items is run, so with no
/// item nothing runs; and the results read back are every item's result,
/// once, in the items' order.
pub proof fn law_stride_run_in_order<T>(concurrency: nat, results: Seq<T>)
    ensures
        ({
            let n = results.len();
            let w = worker_count_spec(concurrency, n);
            &&& w >= 1
            &&& forall|i: nat|
                i < n ==> (#[trigger] stride_seq(i % w, w, n)).contains(i) && i % w < w
            &&& forall|k: nat, i: nat|
                #![trigger stride_seq(k, w, n).contains(i)]
                k < w && k != i % w ==> !stride_seq(k, w, n).contains(i)
            &&& forall|k: nat, a: int, b: int|
                0 <= a < b < stride_seq(k, w, n).len() ==> #[trigger] stride_seq(k, w, n)[a] < #[trigger] stride_seq(
                    k,
                    w,
                    n,
                )[b]
            &&& forall|k: nat, j: int|
                0 <= j < stride_seq(k, w, n).len() ==> #[trigger] stride_seq(k, w, n)[j] < n
            &&& (n == 0 ==> forall|k: nat| (#[trigger] stride_seq(k, w, n)).len() == 0)
            &&& somes(slots_after_run(w, results)) == results
        }),
{
    let n = results.len();
    let w = worker_count_spec(concurrency, n);
    let slots = slots_after_run(w, results);
    assert forall|i: nat| i < n implies (#[trigger] stride_seq(i % w, w, n)).contains(i) && i % w < w by {
        law_stride_partition(w, n, i);
        vstd::arithmetic::div_mod::lemma_mod_bound(i as int, w as int);
    }
    assert forall|k: nat, i: nat|
        #![trigger stride_seq(k, w, n).contains(i)]
        k < w && k != i % w implies !stride_seq(k, w, n).contains(i) by {
        lemma_stride_seq_members(k, w, n, i);
        if stride_seq(k, w, n).contains(i) {
            law_stride_partition(w, n, i);
        }
    }
    assert forall|k: nat, a: int, b: int|
        0 <= a < b < stride_seq(k, w, n).len() implies #[trigger] stride_seq(k, w, n)[a] < #[trigger] stride_seq(
        k,
        w,
        n,
    )[b] by {
        law_stride_increasing(k, w, n);
    }
    assert forall|k: nat, j: int| 0 <= j < stride_seq(k, w, n).len() implies #[trigger] stride_seq(k, w, n)[j] < n by {
        let x = stride_seq(k, w, n)[j];
        assert(stride_seq(k, w, n).contains(x));
        lemma_stride_seq_members(k, w, n, x);
    }
    assert forall|i: int| 0 <= i < slots.len() implies (#[trigger] slots[i]) is Some by {
        law_stride_partition(w, n, i as nat);
        vstd::arithmetic::div_mod::lemma_mod_bound(i, w as int);
        let k = (i as nat) % w;
        assert(k < w && stride_seq(k, w, n).contains(i as nat));
    }
    law_collect_all_results(slots);
    let got = somes(slots);
    assert forall|i: int| 0 <= i < results.len() implies got[i] == results[i] by {
        assert(Some(got[i]) == slots[i]);
    }
    assert(got =~= results);
}

} // verus!
