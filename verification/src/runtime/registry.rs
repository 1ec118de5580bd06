//! A registry of environments by name, queried as one: what a process-wide
//! registry holds when several crates each register their environment.

use vstd::prelude::*;

use crate::runtime::internal::{Environment, Function, Module};
use crate::runtime::query::{answers, picked};
use crate::text::{const_str_equal, copy_str};

verus! {

/// The functions of several environments, one environment after the other.
pub open spec fn all_functions(envs: Seq<Environment>) -> Seq<Function>
    decreases envs.len(),
{
    if envs.len() == 0 {
        seq![]
    } else {
        all_functions(envs.drop_last()) + envs.last().spec_functions()
    }
}

/// The modules of several environments, one environment after the other.
pub open spec fn all_modules(envs: Seq<Environment>) -> Seq<Module>
    decreases envs.len(),
{
    if envs.len() == 0 {
        seq![]
    } else {
        all_modules(envs.drop_last()) + envs.last().spec_modules()
    }
}

/// Picking from two sequences one after the other picks from each in turn.
pub proof fn lemma_picked_concat<T>(a: Seq<T>, ka: Seq<bool>, b: Seq<T>, kb: Seq<bool>)
    requires
        ka.len() == a.len(),
        kb.len() == b.len(),
    ensures
        picked(a + b, ka + kb) == picked(a, ka) + picked(b, kb),
    decreases b.len(),
{
    if b.len() == 0 {
        assert(a + b =~= a);
        assert(ka + kb =~= ka);
        assert(picked(a, ka) + picked(b, kb) =~= picked(a, ka));
    } else {
        lemma_picked_concat(a, ka, b.drop_last(), kb.drop_last());
        assert((a + b).drop_last() =~= a + b.drop_last());
        assert((ka + kb).drop_last() =~= ka + kb.drop_last());
        assert((a + b).last() == b.last());
        assert((ka + kb).last() == kb.last());
        if kb.last() {
            assert(picked(a, ka) + picked(b.drop_last(), kb.drop_last()).push(b.last()) =~= (picked(
                a,
                ka,
            ) + picked(b.drop_last(), kb.drop_last())).push(b.last()));
        }
    }
}

proof fn lemma_answers_concat<T, F: Fn(&T) -> bool>(f: F, a: Seq<T>, ka: Seq<bool>, b: Seq<T>, kb: Seq<bool>)
    requires
        answers(f, a, ka),
        answers(f, b, kb),
    ensures
        answers(f, a + b, ka + kb),
{
    assert forall|i: int| 0 <= i < (a + b).len() implies f.ensures((&(a + b)[i],), #[trigger] (ka + kb)[i]) by {
        if i < a.len() {
            assert((a + b)[i] == a[i]);
            assert((ka + kb)[i] == ka[i]);
        } else {
            assert((a + b)[i] == b[i - a.len()]);
            assert((ka + kb)[i] == kb[i - a.len()]);
        }
    }
}

/// The names and environments after registering `e` under `n`: a name
/// already there keeps its place and gets `e`; a new one is added at the end.
pub open spec fn register_step(
    names: Seq<Seq<char>>,
    envs: Seq<Environment>,
    n: Seq<char>,
    e: Environment,
) -> (Seq<Seq<char>>, Seq<Environment>) {
    if names.contains(n) {
        (names, Seq::new(envs.len(), |j: int| if names[j] == n { e } else { envs[j] }))
    } else {
        (names.push(n), envs.push(e))
    }
}

/// The names and environments after a sequence of registrations into an
/// empty registry, in order.
pub open spec fn registered(regs: Seq<(Seq<char>, Environment)>) -> (Seq<Seq<char>>, Seq<Environment>)
    decreases regs.len(),
{
    if regs.len() == 0 {
        (seq![], seq![])
    } else {
        let prev = registered(regs.drop_last());
        register_step(prev.0, prev.1, regs.last().0, regs.last().1)
    }
}

/// The environment of the last registration under `n` among `regs`.
pub open spec fn last_registered(regs: Seq<(Seq<char>, Environment)>, n: Seq<char>) -> Environment
    decreases regs.len(),
{
    if regs.len() == 0 {
        arbitrary()
    } else if regs.last().0 == n {
        regs.last().1
    } else {
        last_registered(regs.drop_last(), n)
    }
}

/// After any sequence of registrations, each name registered appears once,
/// the names are those registered, and the environment under each is the
/// last one registered under it: earlier registrations under a name add
/// nothing to the queries, which read the environments in this order.
pub proof fn lemma_last_registration_wins(regs: Seq<(Seq<char>, Environment)>)
    ensures
        registered(regs).0.no_duplicates(),
        registered(regs).0.len() == registered(regs).1.len(),
        forall|n: Seq<char>|
            #[trigger] registered(regs).0.contains(n) <==> exists|k: int| 0 <= k < regs.len() && regs[k].0 == n,
        forall|j: int|
            0 <= j < registered(regs).0.len() ==> #[trigger] registered(regs).1[j] == last_registered(
                regs,
                registered(regs).0[j],
            ),
    decreases regs.len(),
{
    if regs.len() > 0 {
        let d = regs.drop_last();
        lemma_last_registration_wins(d);
        let (ns, es) = registered(d);
        let (n, e) = regs.last();
        let (ns2, es2) = registered(regs);
        assert forall|m: Seq<char>| #[trigger] ns2.contains(m) <==> exists|k: int| 0 <= k < regs.len() && regs[k].0 == m by {
            if ns2.contains(m) {
                if m == n {
                    assert(regs[regs.len() - 1].0 == m);
                } else {
                    if !ns.contains(n) {
                        let j = choose|j: int| 0 <= j < ns2.len() && ns2[j] == m;
                        if j < ns.len() {
                            assert(ns[j] == m);
                        }
                    }
                    assert(ns.contains(m));
                    let k = choose|k: int| 0 <= k < d.len() && d[k].0 == m;
                    assert(regs[k] == d[k]);
                }
            }
            if exists|k: int| 0 <= k < regs.len() && regs[k].0 == m {
                let k = choose|k: int| 0 <= k < regs.len() && regs[k].0 == m;
                if k == regs.len() - 1 {
                    if !ns.contains(n) {
                        assert(ns2[ns.len() as int] == n);
                    }
                } else {
                    assert(d[k] == regs[k]);
                    assert(ns.contains(m));
                    let j = choose|j: int| 0 <= j < ns.len() && ns[j] == m;
                    if !ns.contains(n) {
                        assert(ns2[j] == m);
                    }
                }
            }
        }
        if !ns.contains(n) {
            assert forall|a: int, b: int| 0 <= a < ns2.len() && 0 <= b < ns2.len() && a != b implies ns2[a] != ns2[b] by {
                if a < ns.len() && b < ns.len() {
                } else if a < ns.len() {
                    assert(ns2[a] == ns[a]);
                    assert(ns.contains(ns[a]));
                } else {
                    assert(ns2[b] == ns[b]);
                    assert(ns.contains(ns[b]));
                }
            }
        }
        assert forall|j: int| 0 <= j < ns2.len() implies #[trigger] es2[j] == last_registered(regs, ns2[j]) by {
            if ns2[j] == n {
            } else {
                if !ns.contains(n) {
                    assert(j < ns.len());
                    assert(ns2[j] == ns[j]);
                    assert(es2[j] == es[j]);
                }
                assert(last_registered(regs, ns2[j]) == last_registered(d, ns2[j]));
            }
        }
    }
}

/// Environments registered by name, each name once.
pub struct EnvironmentRegistry {
    entries: Vec<(String, &'static Environment)>,
}

impl EnvironmentRegistry {
    #[verifier::type_invariant]
    closed spec fn names_distinct(&self) -> bool {
        forall|i: int, j: int|
            0 <= i < j < self.entries@.len() ==> #[trigger] self.entries@[i].0@ != #[trigger] self.entries@[j].0@
    }

    /// The registered names, in the order they were first registered.
    pub closed spec fn names(&self) -> Seq<Seq<char>> {
        self.entries@.map_values(|e: (String, &'static Environment)| e.0@)
    }

    /// The environment registered under each name, in the same order.
    pub closed spec fn environments(&self) -> Seq<Environment> {
        self.entries@.map_values(|e: (String, &'static Environment)| *e.1)
    }

    /// An empty registry.
    pub fn new() -> (r: Self)
        ensures
            r.names() == Seq::<Seq<char>>::empty(),
            r.environments() == Seq::<Environment>::empty(),
    {
        let r = EnvironmentRegistry { entries: Vec::new() };
        assert(r.names() =~= Seq::<Seq<char>>::empty());
        assert(r.environments() =~= Seq::<Environment>::empty());
        r
    }

    /// The number of registered names.
    pub fn len(&self) -> (n: usize)
        ensures
            n == self.names().len(),
            n == self.environments().len(),
    {
        self.entries.len()
    }

    /// Registers `environment` under `name`, replacing what was registered
    /// under it before.
    pub fn register(&mut self, name: &str, environment: &'static Environment)
        ensures
            old(self).names().contains(name@) ==> {
                &&& final(self).names() == old(self).names()
                &&& final(self).environments().len() == old(self).environments().len()
                &&& forall|j: int|
                    0 <= j < old(self).names().len() ==> #[trigger] final(self).environments()[j] == if old(
                        self,
                    ).names()[j] == name@ {
                        *environment
                    } else {
                        old(self).environments()[j]
                    }
            },
            !old(self).names().contains(name@) ==> {
                &&& final(self).names() == old(self).names().push(name@)
                &&& final(self).environments() == old(self).environments().push(*environment)
            },
            (final(self).names(), final(self).environments()) == register_step(
                old(self).names(),
                old(self).environments(),
                name@,
                *environment,
            ),
    {
        proof {
            use_type_invariant(&*self);
        }
        let mut i: usize = 0;
        while i < self.entries.len()
            invariant
                i <= self.entries@.len(),
                self.entries@ == old(self).entries@,
                forall|a: int, b: int|
                    0 <= a < b < self.entries@.len() ==> #[trigger] self.entries@[a].0@ != #[trigger] self.entries@[b].0@,
                forall|j: int| 0 <= j < i ==> self.entries@[j].0@ != name@,
            decreases self.entries.len() - i,
        {
            if const_str_equal(self.entries[i].0.as_str(), name) {
                let key = copy_str(name);
                let ghost before = self.entries@;
                let mut entries = Vec::new();
                std::mem::swap(&mut entries, &mut self.entries);
                entries.set(i, (key, environment));
                proof {
                    let names = before.map_values(|e: (String, &'static Environment)| e.0@);
                    assert forall|a: int| 0 <= a < entries@.len() implies #[trigger] entries@[a].0@ == before[a].0@ by {
                        if a == i {
                            assert(before[a].0@ == name@);
                        }
                    }
                    assert(entries@.map_values(|e: (String, &'static Environment)| e.0@) =~= names);
                    assert(names[i as int] == name@);
                    assert(names.contains(name@));
                    assert forall|j: int| 0 <= j < names.len() implies (names[j] == name@) == (j == i) by {
                        assert(names[j] == before[j].0@);
                        if j != i && names[j] == name@ {
                            if j < i {
                                assert(before[j].0@ != before[i as int].0@);
                            } else {
                                assert(before[i as int].0@ != before[j].0@);
                            }
                        }
                    }
                    assert(entries@.map_values(|e: (String, &'static Environment)| *e.1) =~= before.map_values(
                        |e: (String, &'static Environment)| *e.1,
                    ).update(i as int, *environment));
                    let envs0 = before.map_values(|e: (String, &'static Environment)| *e.1);
                    assert(entries@.map_values(|e: (String, &'static Environment)| *e.1) =~= Seq::new(
                        envs0.len(),
                        |j: int| if names[j] == name@ { *environment } else { envs0[j] },
                    ));
                    assert forall|a: int, b: int| 0 <= a < b < entries@.len() implies #[trigger] entries@[a].0@ != #[trigger] entries@[b].0@ by {
                        assert(entries@[a].0@ == before[a].0@);
                        assert(entries@[b].0@ == before[b].0@);
                        assert(before[a].0@ != before[b].0@);
                    }
                }
                self.entries = entries;
                return;
            }
            i = i + 1;
        }
        let ghost before = self.entries@;
        let key = copy_str(name);
        let mut entries = Vec::new();
        std::mem::swap(&mut entries, &mut self.entries);
        entries.push((key, environment));
        proof {
            let names = before.map_values(|e: (String, &'static Environment)| e.0@);
            assert(!names.contains(name@)) by {
                if names.contains(name@) {
                    let j = choose|j: int| 0 <= j < names.len() && names[j] == name@;
                    assert(before[j].0@ == name@);
                }
            }
            assert(entries@.map_values(|e: (String, &'static Environment)| e.0@) =~= names.push(name@));
            assert(entries@.map_values(|e: (String, &'static Environment)| *e.1) =~= before.map_values(
                |e: (String, &'static Environment)| *e.1,
            ).push(*environment));
            assert forall|a: int, b: int| 0 <= a < b < entries@.len() implies #[trigger] entries@[a].0@ != #[trigger] entries@[b].0@ by {
                if b < before.len() {
                    assert(entries@[a] == before[a]);
                    assert(entries@[b] == before[b]);
                } else {
                    assert(entries@[a] == before[a]);
                }
            }
        }
        self.entries = entries;
    }

    /// The functions of all registered environments that `f` accepts, each
    /// environment's in its order, the environments in registration order.
    pub fn find_functions_such_that<F: Fn(&Function) -> bool>(&self, f: &F) -> (r: Vec<Function>)
        requires
            forall|x: Function| f.requires((&x,)),
        ensures
            exists|keep: Seq<bool>|
                answers(*f, all_functions(self.environments()), keep) && r@ == picked(
                    all_functions(self.environments()),
                    keep,
                ),
    {
        let ghost envs = self.environments();
        let mut r: Vec<Function> = Vec::new();
        let ghost mut keep: Seq<bool> = seq![];
        let mut i: usize = 0;
        assert(envs.take(0) =~= seq![]);
        while i < self.entries.len()
            invariant
                i <= self.entries@.len(),
                envs == self.environments(),
                forall|x: Function| f.requires((&x,)),
                answers(*f, all_functions(envs.take(i as int)), keep),
                r@ == picked(all_functions(envs.take(i as int)), keep),
            decreases self.entries.len() - i,
        {
            let env = self.entries[i].1;
            let found = env.find_functions_such_that(f);
            proof {
                let k = choose|k: Seq<bool>| answers(*f, env.spec_functions(), k) && found@ == picked(
                    env.spec_functions(),
                    k,
                );
                let prev = all_functions(envs.take(i as int));
                lemma_picked_concat(prev, keep, env.spec_functions(), k);
                lemma_answers_concat(*f, prev, keep, env.spec_functions(), k);
                assert(envs.take(i + 1).drop_last() =~= envs.take(i as int));
                assert(envs.take(i + 1).last() == *env);
                keep = keep + k;
            }
            let mut found = found;
            r.append(&mut found);
            i = i + 1;
        }
        assert(envs.take(i as int) =~= envs);
        r
    }

    /// The modules of all registered environments that `f` accepts, each
    /// environment's in its order, the environments in registration order.
    pub fn find_modules_such_that<F: Fn(&Module) -> bool>(&self, f: &F) -> (r: Vec<Module>)
        requires
            forall|x: Module| f.requires((&x,)),
        ensures
            exists|keep: Seq<bool>|
                answers(*f, all_modules(self.environments()), keep) && r@ == picked(
                    all_modules(self.environments()),
                    keep,
                ),
    {
        let ghost envs = self.environments();
        let mut r: Vec<Module> = Vec::new();
        let ghost mut keep: Seq<bool> = seq![];
        let mut i: usize = 0;
        assert(envs.take(0) =~= seq![]);
        while i < self.entries.len()
            invariant
                i <= self.entries@.len(),
                envs == self.environments(),
                forall|x: Module| f.requires((&x,)),
                answers(*f, all_modules(envs.take(i as int)), keep),
                r@ == picked(all_modules(envs.take(i as int)), keep),
            decreases self.entries.len() - i,
        {
            let env = self.entries[i].1;
            let found = env.find_modules_such_that(f);
            proof {
                let k = choose|k: Seq<bool>| answers(*f, env.spec_modules(), k) && found@ == picked(
                    env.spec_modules(),
                    k,
                );
                let prev = all_modules(envs.take(i as int));
                lemma_picked_concat(prev, keep, env.spec_modules(), k);
                lemma_answers_concat(*f, prev, keep, env.spec_modules(), k);
                assert(envs.take(i + 1).drop_last() =~= envs.take(i as int));
                assert(envs.take(i + 1).last() == *env);
                keep = keep + k;
            }
            let mut found = found;
            r.append(&mut found);
            i = i + 1;
        }
        assert(envs.take(i as int) =~= envs);
        r
    }
}

} // verus!
