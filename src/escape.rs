//! The escape-time iteration: follow an orbit from its start until it
//! diverges or the iteration budget runs out. The number type and its
//! arithmetic are the caller's.
use vstd::prelude::*;

verus! {

/// `orbit` starts at `z0` and each of its values is one `step` from the
/// previous one.
pub open spec fn is_orbit<Z, U: Fn(Z) -> Z>(step: U, z0: Z, orbit: Seq<Z>) -> bool {
    &&& orbit.len() >= 1
    &&& orbit[0] == z0
    &&& forall|i: int| 0 <= i < orbit.len() - 1 ==> step.ensures((orbit[i],), #[trigger] orbit[i + 1])
}

/// None of the first `n` values of `orbit` passes the divergence test.
pub open spec fn bounded_for<Z, T: Fn(Z) -> bool>(diverged: T, orbit: Seq<Z>, n: int) -> bool {
    forall|i: int| 0 <= i < n ==> diverged.ensures((#[trigger] orbit[i],), false)
}

/// What `escape_time` may return: `Some(k)` with `k < iters` where some orbit
/// of `z0` stays bounded for `k` values and diverges at the `k`-th, `None`
/// where some orbit stays bounded for `iters` values.
pub open spec fn escape_outcome<Z, T: Fn(Z) -> bool, U: Fn(Z) -> Z>(
    z0: Z,
    iters: usize,
    diverged: T,
    step: U,
    r: Option<usize>,
) -> bool {
    match r {
        Some(k) => k < iters && exists|orbit: Seq<Z>|
            {
                &&& orbit.len() == k + 1
                &&& is_orbit(step, z0, orbit)
                &&& bounded_for(diverged, orbit, k as int)
                &&& diverged.ensures((orbit[k as int],), true)
            },
        None => exists|orbit: Seq<Z>|
            {
                &&& orbit.len() == iters + 1
                &&& is_orbit(step, z0, orbit)
                &&& bounded_for(diverged, orbit, iters as int)
            },
    }
}

/// Counts the steps of the orbit of `z0` under `step` until a value passes
/// `diverged`, testing each value before it is stepped. `Some(k)` says that
/// the `k`-th value is the first to diverge, with `k < iters`; `None` says
/// that all `iters` tested values stayed bounded.
pub fn escape_time<Z: Copy, T: Fn(Z) -> bool, U: Fn(Z) -> Z>(
    z0: Z,
    iters: usize,
    diverged: &T,
    step: &U,
) -> (r: Option<usize>)
    requires
        forall|z: Z| diverged.requires((z,)),
        forall|z: Z| step.requires((z,)),
    ensures
        escape_outcome(z0, iters, *diverged, *step, r),
{
    let mut z = z0;
    let ghost mut orbit: Seq<Z> = seq![z0];
    let mut i: usize = 0;
    while i < iters
        invariant
            forall|z: Z| diverged.requires((z,)),
            forall|z: Z| step.requires((z,)),
            i <= iters,
            orbit.len() == i + 1,
            orbit[i as int] == z,
            is_orbit(*step, z0, orbit),
            bounded_for(*diverged, orbit, i as int),
        decreases iters - i,
    {
        if diverged(z) {
            return Some(i);
        }
        let next = step(z);
        proof {
            let prev = orbit;
            orbit = orbit.push(next);
            assert forall|j: int| 0 <= j < orbit.len() - 1 implies step.ensures(
                (orbit[j],),
                #[trigger] orbit[j + 1],
            ) by {
                if j < prev.len() - 1 {
                    assert(step.ensures((prev[j],), prev[j + 1]));
                }
            }
            assert forall|j: int| 0 <= j < i + 1 implies diverged.ensures(
                (#[trigger] orbit[j],),
                false,
            ) by {
                if j < i {
                    assert(diverged.ensures((prev[j],), false));
                }
            }
        }
        z = next;
        i = i + 1;
    }
    None
}

/// `f` gives at most one result for each argument.
pub open spec fn is_function<A, R, F: Fn(A) -> R>(f: F) -> bool {
    forall|a: A, x: R, y: R| f.ensures((a,), x) && f.ensures((a,), y) ==> x == y
}

/// Every result that `diverged` can give for `z` is `b`.
pub open spec fn tests_as<Z, T: Fn(Z) -> bool>(diverged: T, z: Z, b: bool) -> bool {
    forall|c: bool| diverged.ensures((z,), c) ==> c == b
}

proof fn lemma_orbits_agree_at<Z, U: Fn(Z) -> Z>(step: U, z0: Z, o1: Seq<Z>, o2: Seq<Z>, i: int)
    requires
        is_function(step),
        is_orbit(step, z0, o1),
        is_orbit(step, z0, o2),
        0 <= i < o1.len(),
        i < o2.len(),
    ensures
        o1[i] == o2[i],
    decreases i,
{
    if i > 0 {
        let j = i - 1;
        lemma_orbits_agree_at(step, z0, o1, o2, j);
        assert(step.ensures((o1[j],), o1[j + 1]));
        assert(step.ensures((o2[j],), o2[j + 1]));
    }
}

/// Under a step that is a function, two orbits of the same start agree on
/// every position that both have.
pub proof fn lemma_orbits_agree<Z, U: Fn(Z) -> Z>(step: U, z0: Z, o1: Seq<Z>, o2: Seq<Z>)
    requires
        is_function(step),
        is_orbit(step, z0, o1),
        is_orbit(step, z0, o2),
    ensures
        forall|i: int| 0 <= i < o1.len() && i < o2.len() ==> #[trigger] o1[i] == o2[i],
{
    assert forall|i: int| 0 <= i < o1.len() && i < o2.len() implies #[trigger] o1[i] == o2[i] by {
        lemma_orbits_agree_at(step, z0, o1, o2, i);
    }
}

/// Where the step and the divergence test are functions, the result of
/// `escape_time` is fixed by the orbit of `z0`: `Some(k)` exactly when
/// `k < iters` and the `k`-th value is the first to diverge, `None` exactly
/// when none of the first `iters` values diverges.
pub proof fn lemma_escape_time_first_divergence<Z, T: Fn(Z) -> bool, U: Fn(Z) -> Z>(
    z0: Z,
    iters: usize,
    diverged: T,
    step: U,
    r: Option<usize>,
    orbit: Seq<Z>,
)
    requires
        is_function(step),
        is_function(diverged),
        escape_outcome(z0, iters, diverged, step, r),
        is_orbit(step, z0, orbit),
        orbit.len() == iters + 1,
    ensures
        match r {
            Some(k) => {
                &&& k < iters
                &&& tests_as(diverged, orbit[k as int], true)
                &&& forall|j: int| 0 <= j < k ==> tests_as(diverged, #[trigger] orbit[j], false)
            },
            None => forall|j: int| 0 <= j < iters ==> tests_as(diverged, #[trigger] orbit[j], false),
        },
{
    match r {
        Some(k) => {
            let w = choose|w: Seq<Z>|
                {
                    &&& w.len() == k + 1
                    &&& is_orbit(step, z0, w)
                    &&& bounded_for(diverged, w, k as int)
                    &&& diverged.ensures((w[k as int],), true)
                };
            lemma_orbits_agree(step, z0, w, orbit);
            assert(w[k as int] == orbit[k as int]);
            assert forall|j: int| 0 <= j < k implies tests_as(diverged, #[trigger] orbit[j], false) by {
                assert(w[j] == orbit[j]);
                assert(diverged.ensures((w[j],), false));
            }
        },
        None => {
            let w = choose|w: Seq<Z>|
                {
                    &&& w.len() == iters + 1
                    &&& is_orbit(step, z0, w)
                    &&& bounded_for(diverged, w, iters as int)
                };
            lemma_orbits_agree(step, z0, w, orbit);
            assert forall|j: int| 0 <= j < iters implies tests_as(diverged, #[trigger] orbit[j], false) by {
                assert(w[j] == orbit[j]);
                assert(diverged.ensures((w[j],), false));
            }
        },
    }
}

/// A start that the step keeps in place and that does not diverge never
/// escapes, whatever the budget (as 0 under `z * z + 0`).
pub proof fn lemma_fixed_point_never_escapes<Z, T: Fn(Z) -> bool, U: Fn(Z) -> Z>(
    z0: Z,
    iters: usize,
    diverged: T,
    step: U,
    r: Option<usize>,
)
    requires
        is_function(step),
        is_function(diverged),
        step.ensures((z0,), z0),
        diverged.ensures((z0,), false),
        escape_outcome(z0, iters, diverged, step, r),
    ensures
        r is None,
{
    let orbit = Seq::new((iters + 1) as nat, |i: int| z0);
    assert(is_orbit(step, z0, orbit));
    lemma_escape_time_first_divergence(z0, iters, diverged, step, r, orbit);
    if r is Some {
        let k = r->0;
        assert(orbit[k as int] == z0);
    }
}

/// A start that does not diverge, whose first step `c` does, escapes at
/// count 1 once the budget allows two tests (as 0 under `z * z + c` for a
/// large `c`).
pub proof fn lemma_escapes_after_one_step<Z, T: Fn(Z) -> bool, U: Fn(Z) -> Z>(
    z0: Z,
    c: Z,
    iters: usize,
    diverged: T,
    step: U,
    r: Option<usize>,
)
    requires
        is_function(step),
        is_function(diverged),
        diverged.ensures((z0,), false),
        step.ensures((z0,), c),
        diverged.ensures((c,), true),
        iters >= 2,
        escape_outcome(z0, iters, diverged, step, r),
    ensures
        r == Some(1usize),
{
    let prefix = seq![z0, c];
    assert(is_orbit(step, z0, prefix)) by {
        assert(prefix[0] == z0 && prefix[1] == c);
    }
    match r {
        Some(k) => {
            let w = choose|w: Seq<Z>|
                {
                    &&& w.len() == k + 1
                    &&& is_orbit(step, z0, w)
                    &&& bounded_for(diverged, w, k as int)
                    &&& diverged.ensures((w[k as int],), true)
                };
            lemma_orbits_agree(step, z0, w, prefix);
            assert(w[0] == z0);
            if k >= 2 {
                assert(w[1] == prefix[1]);
                assert(diverged.ensures((w[1],), false));
            }
        },
        None => {
            let w = choose|w: Seq<Z>|
                {
                    &&& w.len() == iters + 1
                    &&& is_orbit(step, z0, w)
                    &&& bounded_for(diverged, w, iters as int)
                };
            lemma_orbits_agree(step, z0, w, prefix);
            assert(w[1] == prefix[1]);
            assert(diverged.ensures((w[1],), false));
        },
    }
}

} // verus!
