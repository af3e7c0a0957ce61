//! How gradients become parameter updates, and the caches this needs.

use vstd::prelude::*;

use crate::matrix::Matrix;

verus! {

/// `cache` holds, for each matrix of `like`, a well-formed matrix of the
/// same shape filled with `zero`.
pub open spec fn zeroed_like<T>(cache: Seq<Matrix<T>>, like: Seq<Matrix<T>>, zero: T) -> bool {
    &&& cache.len() == like.len()
    &&& forall|i: int|
        0 <= i < like.len() ==> {
            &&& (#[trigger] cache[i]).wf()
            &&& cache[i].same_shape(&like[i])
            &&& forall|k: int| 0 <= k < cache[i].entries().len() ==> #[trigger] cache[i].entries()[k] == zero
        }
}

/// For each matrix of `like`, a matrix of the same shape filled with `zero`.
pub fn zeroed_copies<T: Copy>(like: &Vec<Matrix<T>>, zero: T) -> (cache: Vec<Matrix<T>>)
    requires
        forall|i: int| 0 <= i < like@.len() ==> (#[trigger] like@[i]).wf(),
    ensures
        zeroed_like(cache@, like@, zero),
{
    let mut cache: Vec<Matrix<T>> = Vec::with_capacity(like.len());
    let mut i: usize = 0;
    while i < like.len()
        invariant
            i <= like@.len(),
            forall|j: int| 0 <= j < like@.len() ==> (#[trigger] like@[j]).wf(),
            zeroed_like(cache@, like@.take(i as int), zero),
        decreases like@.len() - i,
    {
        let z = like[i].copy_zeroed(zero);
        cache.push(z);
        i = i + 1;
        proof {
            assert forall|j: int| 0 <= j < i implies #[trigger] like@.take(i as int)[j] == like@[j] by {}
        }
    }
    proof {
        assert(like@.take(i as int) =~= like@);
    }
    cache
}

/// How gradients are turned into parameter updates.
pub enum Optimization<T> {
    NONE,
    SGD { lr: T },
    // Adam,
    // AdaGrad,
    /// learning rate (0.01), rho (0.9), epsilon (1e-8), leave wc and bc with empty vecs
    RmsProp { lr: T, rho: T, eps: T, wc: Vec<Matrix<T>>, bc: Vec<Matrix<T>> },
}

impl<T: Copy> Optimization<T> {
    /// Prepares the running caches for the given weights and biases: for
    /// RMSProp they become zero matrices shaped like `w` and `b`; the other
    /// methods keep no cache and are left as they are.
    pub fn init_cache(&mut self, w: &Vec<Matrix<T>>, b: &Vec<Matrix<T>>, zero: T)
        requires
            forall|i: int| 0 <= i < w@.len() ==> (#[trigger] w@[i]).wf(),
            forall|i: int| 0 <= i < b@.len() ==> (#[trigger] b@[i]).wf(),
        ensures
            *old(self) is RmsProp ==> {
                &&& *final(self) is RmsProp
                &&& (*final(self))->RmsProp_lr == (*old(self))->RmsProp_lr
                &&& (*final(self))->rho == (*old(self))->rho
                &&& (*final(self))->eps == (*old(self))->eps
                &&& zeroed_like((*final(self))->wc@, w@, zero)
                &&& zeroed_like((*final(self))->bc@, b@, zero)
            },
            !(*old(self) is RmsProp) ==> *final(self) == *old(self),
    {
        let params = match &*self {
            Optimization::RmsProp { lr, rho, eps, .. } => Some((*lr, *rho, *eps)),
            _ => None,
        };
        if let Some((lr, rho, eps)) = params {
            let wc = zeroed_copies(w, zero);
            let bc = zeroed_copies(b, zero);
            *self = Optimization::RmsProp { lr, rho, eps, wc, bc };
        }
    }
}

/// `r` applies `f(&p, &a[k])` to every element of `a`, with `p` a fixed
/// parameter.
pub open spec fn scaled<T, F: Fn(&T, &T) -> T>(r: Matrix<T>, a: Matrix<T>, p: T, f: F) -> bool {
    &&& r.wf()
    &&& r.same_shape(&a)
    &&& forall|k: int| 0 <= k < a.entries().len() ==> call_ensures(f, (&p, &a.entries()[k]), #[trigger] r.entries()[k])
}

/// The RMSProp cache after a step: `c[k]` becomes `decay(&rho, &c[k], &g[k])`.
pub open spec fn decayed<T, U: Fn(&T, &T, &T) -> T>(r: Matrix<T>, c: Matrix<T>, g: Matrix<T>, rho: T, decay: U) -> bool {
    &&& r.wf()
    &&& r.same_shape(&c)
    &&& forall|k: int|
        0 <= k < c.entries().len() ==> call_ensures(
            decay,
            (&rho, &c.entries()[k], &g.entries()[k]),
            #[trigger] r.entries()[k],
        )
}

/// The RMSProp update: `u[k]` is `step(&lr, &eps, &g[k], &c[k])`.
pub open spec fn stepped<T, Q: Fn(&T, &T, &T, &T) -> T>(u: Matrix<T>, g: Matrix<T>, c: Matrix<T>, lr: T, eps: T, step: Q) -> bool {
    &&& u.wf()
    &&& u.same_shape(&g)
    &&& forall|k: int|
        0 <= k < g.entries().len() ==> call_ensures(
            step,
            (&lr, &eps, &g.entries()[k], &c.entries()[k]),
            #[trigger] u.entries()[k],
        )
}

/// `b` is the method `a` with the same settings: the same kind and
/// parameters, and for RMSProp as many caches.
pub open spec fn same_settings<T>(a: Optimization<T>, b: Optimization<T>) -> bool {
    match a {
        Optimization::NONE => b is NONE,
        Optimization::SGD { lr } => b is SGD && b->SGD_lr == lr,
        Optimization::RmsProp { lr, rho, eps, wc, bc } => {
            &&& b is RmsProp
            &&& b->RmsProp_lr == lr
            &&& b->rho == rho
            &&& b->eps == eps
            &&& b->wc@.len() == wc@.len()
            &&& b->bc@.len() == bc@.len()
        },
    }
}

/// `after` is `before` with at most the RMSProp caches of layer `idx`
/// changed.
pub open spec fn caches_kept<T>(before: Optimization<T>, after: Optimization<T>, idx: int) -> bool {
    &&& same_settings(before, after)
    &&& !(before is RmsProp) ==> after == before
    &&& before is RmsProp ==> {
        &&& forall|j: int| 0 <= j < before->wc@.len() && j != idx ==> #[trigger] after->wc@[j] == before->wc@[j]
        &&& forall|j: int| 0 <= j < before->bc@.len() && j != idx ==> #[trigger] after->bc@[j] == before->bc@[j]
    }
}

/// For RMSProp, there is one well-formed weight cache shaped like each of
/// `w` and one bias cache shaped like each of `b`.
pub open spec fn caches_fit<T>(o: Optimization<T>, w: Seq<Matrix<T>>, b: Seq<Matrix<T>>) -> bool {
    o is RmsProp ==> {
        &&& o->wc@.len() == w.len()
        &&& o->bc@.len() == b.len()
        &&& forall|i: int| 0 <= i < w.len() ==> (#[trigger] o->wc@[i]).wf() && o->wc@[i].same_shape(&w[i])
        &&& forall|i: int| 0 <= i < b.len() ==> (#[trigger] o->bc@[i]).wf() && o->bc@[i].same_shape(&b[i])
    }
}

/// The updates `uw`, `ub` the method `before` gives for the gradients
/// `wg`, `bg` of layer `idx`, `after` being the method afterwards. With no
/// optimization they are the gradients; SGD scales each element by the
/// learning rate with `scale`; RMSProp decays the layer's caches towards
/// the gradients with `decay` (giving the caches of `after`) and then gives
/// `step(&lr, &eps, &g, &c)` for each element and new cache element.
pub open spec fn layer_update<T, S: Fn(&T, &T) -> T, U: Fn(&T, &T, &T) -> T, Q: Fn(&T, &T, &T, &T) -> T>(
    before: Optimization<T>,
    after: Optimization<T>,
    idx: int,
    wg: Matrix<T>,
    bg: Matrix<T>,
    uw: Matrix<T>,
    ub: Matrix<T>,
    scale: S,
    decay: U,
    step: Q,
) -> bool {
    match before {
        Optimization::NONE => uw.same_as(&wg) && ub.same_as(&bg),
        Optimization::SGD { lr } => scaled(uw, wg, lr, scale) && scaled(ub, bg, lr, scale),
        Optimization::RmsProp { lr, rho, eps, wc, bc } => {
            &&& decayed(after->wc@[idx], wc@[idx], wg, rho, decay)
            &&& decayed(after->bc@[idx], bc@[idx], bg, rho, decay)
            &&& stepped(uw, wg, after->wc@[idx], lr, eps, step)
            &&& stepped(ub, bg, after->bc@[idx], lr, eps, step)
        },
    }
}

impl<T: Copy> Optimization<T> {
    /// Turns the gradients `wg`, `bg` of layer `idx` into parameter updates.
    /// With no optimization they are returned as they are; SGD scales each
    /// element by the learning rate with `scale(&lr, &g)`. RMSProp first
    /// decays the layer's caches towards the squared gradients,
    /// `c = decay(&rho, &c, &g)` element by element, then gives
    /// `step(&lr, &eps, &g, &c)` for each element. The formulas are the
    /// caller's; which elements, caches and parameters they receive is fixed
    /// here.
    pub fn optimize<S: Fn(&T, &T) -> T, U: Fn(&T, &T, &T) -> T, Q: Fn(&T, &T, &T, &T) -> T>(
        &mut self,
        idx: usize,
        wg: &Matrix<T>,
        bg: &Matrix<T>,
        scale: S,
        decay: U,
        step: Q,
    ) -> (r: (Matrix<T>, Matrix<T>))
        requires
            wg.wf(),
            bg.wf(),
            forall|x: T, y: T| call_requires(scale, (&x, &y)),
            forall|x: T, y: T, z: T| call_requires(decay, (&x, &y, &z)),
            forall|x: T, y: T, z: T, w: T| call_requires(step, (&x, &y, &z, &w)),
            *old(self) is RmsProp ==> {
                &&& idx < (*old(self))->wc@.len()
                &&& idx < (*old(self))->bc@.len()
                &&& (*old(self))->wc@[idx as int].wf()
                &&& (*old(self))->wc@[idx as int].same_shape(wg)
                &&& (*old(self))->bc@[idx as int].wf()
                &&& (*old(self))->bc@[idx as int].same_shape(bg)
            },
        ensures
            layer_update(*old(self), *final(self), idx as int, *wg, *bg, r.0, r.1, scale, decay, step),
            caches_kept(*old(self), *final(self), idx as int),
            r.0.wf(),
            r.0.same_shape(wg),
            r.1.wf(),
            r.1.same_shape(bg),
    {
        match self {
            Optimization::NONE => (wg.clone(), bg.clone()),
            Optimization::SGD { lr } => {
                let lr = *lr;
                let scale = &scale;
                let by_lr = |g: &T| -> (o: T)
                    ensures
                        call_ensures(scale, (&lr, g), o),
                    { scale(&lr, g) };
                let w = wg.map(&by_lr);
                let b = bg.map(&by_lr);
                (w, b)
            },
            Optimization::RmsProp { lr, rho, eps, wc, bc } => {
                let (lr, rho, eps) = (*lr, *rho, *eps);
                let decay = &decay;
                let step = &step;
                let towards = |c: &T, g: &T| -> (o: T)
                    ensures
                        call_ensures(decay, (&rho, c, g), o),
                    { decay(&rho, c, g) };
                let update = |g: &T, c: &T| -> (o: T)
                    ensures
                        call_ensures(step, (&lr, &eps, g, c), o),
                    { step(&lr, &eps, g, c) };
                let nw = wc[idx].zip(wg, &towards);
                let nb = bc[idx].zip(bg, &towards);
                let w = wg.zip(&nw, &update);
                let b = bg.zip(&nb, &update);
                wc.set(idx, nw);
                bc.set(idx, nb);
                (w, b)
            },
        }
    }
}

impl<T> Optimization<T> {
    /// Gradients are applied as they are.
    pub fn none() -> (o: Self)
        ensures
            o is NONE,
    {
        Optimization::NONE
    }

    /// Stochastic gradient descent with the given learning rate.
    pub fn sgd(learning_rate: T) -> (o: Self)
        ensures
            o == (Optimization::SGD { lr: learning_rate }),
    {
        Optimization::SGD { lr: learning_rate }
    }

    /// RMSProp with the given learning rate, decay `rho` and `epsilon`, and
    /// empty caches.
    pub fn rmsprop(learning_rate: T, rho: T, epsilon: T) -> (o: Self)
        ensures
            o is RmsProp,
            o->RmsProp_lr == learning_rate,
            o->rho == rho,
            o->eps == epsilon,
            o->wc@.len() == 0,
            o->bc@.len() == 0,
    {
        Optimization::RmsProp { lr: learning_rate, rho, eps: epsilon, wc: Vec::new(), bc: Vec::new() }
    }
}

} // verus!
